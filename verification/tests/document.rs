use ansible_vault_lsp::document::{
    byte_range_to_lsp, index_at, index_to_position, lsp_range_to_bytes, offset_of,
    offset_to_position, position_to_offset, Document, Position, Range,
};

#[test]
fn handles_utf16_positions() {
    let text = "a😀b\nvalue";
    assert_eq!(position_to_offset(text, Position::new(0, 3)), Some(5));
    assert_eq!(offset_to_position(text, 5), Position::new(0, 3));
}

#[test]
fn rejects_positions_that_the_text_does_not_have() {
    let text = "a😀b\nvalue";
    assert_eq!(position_to_offset(text, Position::new(0, 2)), None);
    assert_eq!(position_to_offset(text, Position::new(0, 5)), None);
    assert_eq!(position_to_offset(text, Position::new(2, 0)), None);
    assert_eq!(position_to_offset(text, Position::new(0, 4)), Some(6));
    assert_eq!(position_to_offset(text, Position::new(1, 5)), Some(12));
    assert_eq!(position_to_offset("", Position::new(0, 0)), Some(0));
    assert_eq!(position_to_offset("", Position::new(0, u32::MAX)), None);
    assert_eq!(position_to_offset("a\n", Position::new(1, 0)), Some(2));
}

#[test]
fn offsets_behind_the_end_stand_for_the_end() {
    assert_eq!(offset_to_position("ab\nc", 4), Position::new(1, 1));
    assert_eq!(offset_to_position("ab\nc", 400), Position::new(1, 1));
    assert_eq!(offset_to_position("", 7), Position::new(0, 0));
}

#[test]
fn every_boundary_survives_the_round_trip() {
    let text = "k: \u{e9}\u{1f600}x\r\n\n  - \u{20ac}\u{1f600}\u{1f600}\n\nend";
    let chars: Vec<char> = text.chars().collect();
    let mut index = 0;
    let mut previous: Option<Position> = None;
    for (offset, _) in text.char_indices() {
        let position = offset_to_position(text, offset);
        assert_eq!(position_to_offset(text, position), Some(offset));
        assert_eq!(index_to_position(&chars, index), position);
        assert_eq!(index_at(&chars, offset), index);
        assert_eq!(offset_of(&chars, index), offset);
        if let Some(before) = previous {
            assert!(before.is_before(position));
            assert!(!position.is_before(before));
        }
        previous = Some(position);
        index += 1;
    }
    let end = offset_to_position(text, text.len());
    assert_eq!(position_to_offset(text, end), Some(text.len()));
}

#[test]
fn every_position_survives_the_round_trip() {
    let text = "a😀\n\nb\u{e9}c\n";
    for line in 0..6 {
        for character in 0..6 {
            let position = Position::new(line, character);
            if let Some(offset) = position_to_offset(text, position) {
                assert_eq!(offset_to_position(text, offset), position);
            }
        }
    }
}

#[test]
fn ranges_are_converted_at_both_ends() {
    let document = Document {
        text: "one\ntwo".to_string(),
        version: 3,
    };
    let range = Range::new(Position::new(0, 1), Position::new(1, 2));
    assert_eq!(byte_range_to_lsp(&document.text, 1, 6), range);
    assert_eq!(lsp_range_to_bytes(&document.text, range), Some((1, 6)));
    let outside = Range::new(Position::new(0, 1), Position::new(4, 0));
    assert_eq!(lsp_range_to_bytes(&document.text, outside), None);
    let outside = Range::new(Position::new(4, 0), Position::new(0, 1));
    assert_eq!(lsp_range_to_bytes(&document.text, outside), None);
    assert_eq!(document.version, 3);
}
