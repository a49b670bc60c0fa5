use ansible_vault_lsp::document::{offset_to_position, Position, Range};
use ansible_vault_lsp::error::AppError;
use ansible_vault_lsp::nesting::is_shallow;
use ansible_vault_lsp::syntax::{
    has_flow_collection_ancestor, is_mapping_key, is_parsable, is_scalar,
    mapping_value_for_cursor, parents_of, single_scalar_value, SyntaxNode,
};
use ansible_vault_lsp::writing::format_encrypted_value;
use ansible_vault_lsp::yaml::{
    classify_value, find_scalar, find_scalar_in, find_vault, find_vault_checked, ValueContext,
};

fn cursor(line: u32, character: u32) -> Range {
    Range::new(Position::new(line, character), Position::new(line, character))
}

fn selection(a: u32, b: u32, c: u32, d: u32) -> Range {
    Range::new(Position::new(a, b), Position::new(c, d))
}

fn message<T>(result: Result<T, AppError>) -> String {
    match result {
        Ok(_) => panic!("an error was expected"),
        Err(error) => error.message(),
    }
}

#[test]
fn finds_only_mapping_value() {
    let text = "secret: \"hello world\"\n";
    let target = find_scalar(text, cursor(0, 11)).expect("value target");
    assert_eq!(target.plaintext, "hello world");
    assert_eq!(&text[target.start..target.end], "\"hello world\"");
    assert_eq!(
        find_scalar(text, cursor(0, 2))
            .expect("value target from key")
            .plaintext,
        "hello world"
    );
    assert!(find_scalar(text, selection(0, 0, 0, 6)).is_err());
    assert!(find_scalar(text, selection(0, 8, 0, 21)).is_ok());
    assert!(find_scalar(text, selection(0, 9, 0, 20)).is_err());
}

#[test]
fn finds_mapping_value_from_any_position_on_the_key_line() {
    let text = "  secret: value # explanation\n";
    for character in [0, 4, 8, 11, 27] {
        let target = find_scalar(text, cursor(0, character)).expect("value target from key line");
        assert_eq!(target.plaintext, "value");
        assert_eq!(&text[target.start..target.end], "value");
    }
}

#[test]
fn aligns_encrypted_blocks_with_values_in_sequence_mappings() {
    let text = "ssh_users:\n  - name: devops\n    password: secret\n";
    let name = find_scalar(text, cursor(1, 4)).expect("name value");
    let password = find_scalar(text, cursor(2, 6)).expect("password value");

    assert_eq!(name.continuation_indent, "          ");
    assert_eq!(password.continuation_indent, "              ");
}

#[test]
fn finds_multiline_scalar_from_key_and_body_lines() {
    let text = "secret: |-\n  first line\n  second line\nnext: value\n";
    for (line, character) in [(0, 1), (0, 9), (1, 4), (2, 8)] {
        let target = find_scalar(text, cursor(line, character)).expect("multiline value target");
        assert_eq!(target.plaintext, "first line\nsecond line");
        assert_eq!(
            &text[target.start..target.end],
            "|-\n  first line\n  second line"
        );
    }
}

#[test]
fn does_not_treat_collection_value_as_a_scalar_from_its_parent_key() {
    let text = "parent:\n  child: value\n";
    assert!(find_scalar(text, cursor(0, 2)).is_err());
    assert_eq!(
        find_scalar(text, cursor(1, 4)).expect("child scalar").plaintext,
        "value"
    );
}

#[test]
fn extracts_vault_block() {
    let text = "secret: !vault |\n  $ANSIBLE_VAULT;1.1;AES256\n  616263\nnext: ok\n";
    let target = find_vault(text, cursor(1, 5)).expect("vault target");
    assert_eq!(target.vault_text, "$ANSIBLE_VAULT;1.1;AES256\n616263\n");
    assert_eq!(target.continuation_indent, "  ");
}

#[test]
fn extracts_vault_block_from_its_key_line_and_payload() {
    let text = "secret: !vault |\n  $ANSIBLE_VAULT;1.1;AES256\n  616263\nnext: ok\n";
    for (line, character) in [(0, 0), (0, 7), (0, 15), (1, 2), (2, 7)] {
        let target = find_vault(text, cursor(line, character)).expect("vault target");
        assert_eq!(target.vault_text, "$ANSIBLE_VAULT;1.1;AES256\n616263\n");
        assert_eq!(&text[target.start..target.start + 6], "!vault");
    }
}

#[test]
fn recognizes_nested_vault_tag_even_when_its_header_is_malformed() {
    let text = "---\nssh_users:\n  - name: devops\n    password: !vault |\n              $sANSIBLE_VAULT;1.1;AES256\n              3337646434656465\n              6462313131616338\n    uid: 1001\n";
    for (line, character) in [(3, 5), (3, 22), (4, 18), (5, 25), (6, 20)] {
        let target = find_vault(text, cursor(line, character)).expect("tagged vault target");
        assert!(target.vault_text.starts_with("$sANSIBLE_VAULT;"));
        assert_eq!(
            classify_value(text, cursor(line, character)),
            Some(ValueContext::Vault)
        );
    }
}

#[test]
fn sequence_item_vault_stops_before_sibling_mapping_fields() {
    let text = "---\nssh_users:\n  - name: !vault |\n          $ANSIBLE_VAULT;1.1;AES256\n          616263\n    password: !vault |\n              $ANSIBLE_VAULT;1.1;AES256\n              646566\n    uid: 1001\n    comment: example\n";
    let password_offset = text.find("    password:").expect("password field");

    for (line, character) in [(2, 4), (2, 17), (3, 12), (4, 12)] {
        let target = find_vault(text, cursor(line, character)).expect("name vault target");
        assert_eq!(target.vault_text, "$ANSIBLE_VAULT;1.1;AES256\n616263\n");
        assert_eq!(target.continuation_indent, "          ");
        assert!(target.end < password_offset);
    }

    let password = find_vault(text, cursor(7, 16)).expect("password vault target");
    assert_eq!(password.vault_text, "$ANSIBLE_VAULT;1.1;AES256\n646566\n");
    assert_eq!(password.continuation_indent, "              ");
}

#[test]
fn decodes_quoted_and_escaped_string_scalars() {
    for (yaml, expected) in [
        ("secret: 'it''s private'\n", "it's private"),
        ("secret: \"line\\nvalue\"\n", "line\nvalue"),
        ("secret: \"unicode \\u263a\"\n", "unicode ☺"),
    ] {
        let scalar = find_scalar(yaml, cursor(0, 1)).expect("string scalar");
        assert_eq!(scalar.plaintext, expected);
    }
}

#[test]
fn arbitrary_utf8_never_panics_while_classifying() {
    let alphabet = [
        "a", ": ", "\n", "  ", "- ", "!vault |", "{", "}", "[", "]", "'", "\"", "|-\n", "#", "\u{e9}",
        "\u{1f600}", "\r", "\t", "$ANSIBLE_VAULT;1.1;AES256", "616263", "&x ", "*x", "? ", "---\n",
    ];
    let mut state: u64 = 0xfeed_beef_0bad_cafe;
    for _ in 0..1500 {
        let mut text = String::new();
        let length = (state >> 60) as usize;
        for _ in 0..length + 1 {
            state = state.wrapping_mul(6364136223846793005).wrapping_add(1442695040888963407);
            text.push_str(alphabet[(state >> 33) as usize % alphabet.len()]);
        }
        let place = cursor(0, 0);
        let _ = classify_value(&text, place);
        let _ = find_scalar(&text, place);
        let _ = find_vault(&text, place);
    }
}

#[test]
fn says_why_no_scalar_is_found() {
    let text = "list: [one, two]\nmap:\n  a: 1\nnum: 5\n";
    assert_eq!(
        message(find_scalar(text, cursor(9, 0))),
        "The selection is outside the current document"
    );
    assert_eq!(
        message(find_scalar("a: [\n", cursor(0, 0))),
        "Fix YAML syntax errors before encrypting a scalar value"
    );
    assert_eq!(
        message(find_scalar(text, cursor(1, 1))),
        "Place the cursor on a YAML key or inside its scalar value"
    );
    assert_eq!(
        message(find_scalar(text, selection(3, 0, 3, 3))),
        "Ansible Vault can encrypt YAML values, not mapping keys"
    );
    assert_eq!(
        message(find_scalar(text, cursor(0, 8))),
        "Block-style !vault values cannot be inserted into a flow-style YAML collection"
    );
    assert_eq!(
        message(find_scalar(text, selection(3, 0, 3, 6))),
        "The selection must contain exactly one YAML scalar value"
    );
    assert_eq!(
        message(find_scalar("a: one two\n", selection(0, 3, 0, 6))),
        "The selection must contain exactly one YAML scalar value"
    );
    assert_eq!(find_scalar(text, cursor(3, 0)).expect("number").plaintext, "5");
    assert_eq!(
        message(find_scalar("", cursor(0, 0))),
        "Place the cursor on a YAML key or inside its scalar value"
    );
}

#[test]
fn selections_are_exactly_one_value() {
    let text = "a:   word  \nb: 2\n";
    let target = find_scalar(text, selection(0, 5, 0, 9)).expect("selected word");
    assert_eq!(&text[target.start..target.end], "word");
    assert_eq!(target.continuation_indent, "     ");
    assert!(find_scalar(text, selection(0, 3, 0, 11)).is_err());
    assert!(find_scalar(text, selection(0, 5, 0, 8)).is_err());
    assert!(find_scalar(text, selection(0, 9, 0, 5)).is_err());
}

#[test]
fn says_why_no_vault_is_found() {
    let text = "a: !vault |\n  $ANSIBLE_VAULT;1.1;AES256\n  61\nb: !vault |\n  $ANSIBLE_VAULT;1.1;AES256\n  62\nc: 3\n";
    assert_eq!(
        message(find_vault("a: [\n", cursor(0, 0))),
        "Fix YAML syntax errors before decrypting a !vault value"
    );
    assert_eq!(
        message(find_vault(text, cursor(30, 0))),
        "The selection is outside the current document"
    );
    assert_eq!(
        message(find_vault(text, cursor(6, 0))),
        "Place the cursor inside exactly one !vault block"
    );
    assert_eq!(
        message(find_vault(text, selection(0, 0, 4, 0))),
        "The selection intersects more than one !vault block"
    );
    assert_eq!(find_vault(text, selection(0, 0, 2, 0)).expect("first").vault_text, "$ANSIBLE_VAULT;1.1;AES256\n61\n");
}

#[test]
fn the_parser_decides_through_its_answer() {
    let text = "a: !vault |\n  $ANSIBLE_VAULT;1.1;AES256\n  61\n";
    assert_eq!(
        message(find_vault_checked(text, cursor(0, 0), Err("abi".to_string()))),
        "An internal extension error occurred"
    );
    assert_eq!(
        message(find_vault_checked(text, cursor(0, 0), Ok(None))),
        "Unable to parse the YAML document"
    );
    assert_eq!(
        message(find_vault_checked(text, cursor(0, 0), Ok(Some(true)))),
        "Fix YAML syntax errors before decrypting a !vault value"
    );
    let target = find_vault_checked(text, cursor(0, 0), Ok(Some(false))).expect("value");
    assert_eq!((target.start, target.end), (3, text.len() - 1));
}

#[test]
fn a_tag_without_payload_is_a_value_too() {
    let text = "a: !vault |\nb: 1\n";
    let target = find_vault_checked(text, cursor(0, 2), Ok(Some(false))).expect("value");
    assert_eq!(target.vault_text, "\n");
    assert_eq!(target.continuation_indent, "  ");
    assert_eq!((target.start, target.end), (3, 11));
}

#[test]
fn a_cursor_stands_in_at_most_one_value() {
    let text = "a: !vault |\n  $ANSIBLE_VAULT;1.1;AES256\n  61\nb: !vault |\n  $ANSIBLE_VAULT;1.1;AES256\n  62\nc: 3\n";
    for offset in 0..=text.len() {
        let position = offset_to_position(text, offset);
        let result = find_vault_checked(text, Range::new(position, position), Ok(Some(false)));
        match result {
            Ok(target) => assert!(target.end >= offset),
            Err(error) => assert_eq!(
                error.message(),
                "Place the cursor inside exactly one !vault block"
            ),
        }
    }
}

#[test]
fn a_written_value_is_found_again() {
    let head = "---\nusers:\n";
    let prefix = "  - name: ";
    let payload = "$ANSIBLE_VAULT;1.2;AES256;dev\n616263\n646566\n";
    let tail = "\n    uid: 7\n";
    let value = format_encrypted_value(payload, "          ").expect("value");
    let text = format!("{head}{prefix}{value}{tail}");
    let start = head.len() + prefix.len();
    for line in 2..=5 {
        let target = find_vault(&text, cursor(line, 3)).expect("written value");
        assert_eq!(target.vault_text, payload);
        assert_eq!(target.continuation_indent, "          ");
        assert_eq!((target.start, target.end), (start, start + value.len()));
    }
    assert!(find_vault(&text, cursor(6, 3)).is_err());
}

fn node(kind: &str, bytes: (usize, usize), depth: u32, in_field: bool, probed: bool) -> SyntaxNode {
    SyntaxNode::new(kind, bytes, 0, depth, true, in_field, probed)
}

#[test]
fn walks_through_a_given_tree() {
    // `k: v` as one pair with a flow node around the value.
    let nodes = vec![
        node("stream", (0, 4), 0, false, false),
        node("block_mapping_pair", (0, 4), 1, false, false),
        node("flow_node", (0, 1), 2, false, false),
        node("plain_scalar", (0, 1), 3, false, true),
        node("flow_node", (3, 4), 2, true, false),
        node("plain_scalar", (3, 4), 3, false, false),
    ];
    let parents = parents_of(&nodes);
    assert_eq!(parents, vec![None, Some(0), Some(1), Some(2), Some(1), Some(4)]);
    assert!(is_mapping_key(&nodes, &parents, 3));
    assert!(!is_mapping_key(&nodes, &parents, 5));
    assert!(!has_flow_collection_ancestor(&nodes, &parents, 5));
    assert_eq!(single_scalar_value(&nodes, &parents, 4), Some(5));
    assert_eq!(single_scalar_value(&nodes, &parents, 1), None);
    assert_eq!(single_scalar_value(&nodes, &parents, 0), None);
    assert_eq!(mapping_value_for_cursor(&nodes, &parents, 1, 9), Some(5));
    assert_eq!(mapping_value_for_cursor(&nodes, &parents, 9, 9), None);
    assert!(is_scalar("block_scalar"));
    assert!(!is_scalar("flow_node"));
    let target = find_scalar_in("k: v", 0, 0, 0, &nodes).expect("value from key");
    assert_eq!((target.start, target.end), (3, 4));
    assert_eq!(target.plaintext, "v");
    assert_eq!(target.continuation_indent, "   ");
    assert_eq!(
        message(find_scalar_in("k: v", 0, 1, 0, &nodes)),
        "Ansible Vault can encrypt YAML values, not mapping keys"
    );
}

#[test]
fn classifies_what_a_cursor_points_at() {
    let text = "a: !vault |\n  $ANSIBLE_VAULT;1.1;AES256\n  61\nb: x\n# end\n";
    assert_eq!(classify_value(text, cursor(1, 3)), Some(ValueContext::Vault));
    assert_eq!(classify_value(text, cursor(3, 0)), Some(ValueContext::Plaintext));
    assert_eq!(classify_value(text, cursor(4, 2)), None);
}

#[test]
fn blank_lines_behind_the_tag_are_skipped() {
    let text = "secret: !vault |\n\n  $ANSIBLE_VAULT;1.1;AES256\n  616263\n";
    for place in [cursor(0, 2), cursor(1, 0), cursor(2, 4), cursor(3, 3)] {
        assert_eq!(classify_value(text, place), Some(ValueContext::Vault));
        let target = find_vault(text, place).expect("value");
        assert_eq!(target.vault_text, "$ANSIBLE_VAULT;1.1;AES256\n616263\n");
        assert_eq!((target.start, target.end), (8, text.len() - 1));
    }
    let text = "secret: !vault |\n \t\n\n  $ANSIBLE_VAULT;1.1;AES256\n  616263\nnext: x\n";
    let target = find_vault_checked(text, cursor(4, 3), Ok(Some(false))).expect("value");
    assert_eq!(target.vault_text, "$ANSIBLE_VAULT;1.1;AES256\n616263\n");
    let text = "secret: !vault |\n\nnext: x\n";
    let target = find_vault_checked(text, cursor(0, 3), Ok(Some(false))).expect("value");
    assert_eq!(target.vault_text, "\n");
    assert_eq!(
        message(find_vault_checked(text, cursor(2, 1), Ok(Some(false)))),
        "Place the cursor inside exactly one !vault block"
    );
}

/// A mapping in a mapping, and so on, with a value in the last.
fn nested(depth: usize) -> String {
    let mut text = String::new();
    for level in 0..depth {
        text.push_str(&" ".repeat(level));
        text.push_str(if level + 1 < depth { "k:\n" } else { "k: v\n" });
    }
    text
}

const UNPARSED: &str = "Unable to parse the YAML document";

/// Mappings that open more blocks than the parser can hold, one after the other.
fn wide() -> String {
    "a: b\n".repeat(300)
}

#[test]
fn texts_that_are_too_deep_are_not_parsed() {
    for depth in [1, 64, 126, 253] {
        let text = nested(depth);
        assert!(is_shallow(&text) && is_parsable(&text));
        let column = depth as u32 + 2;
        let target = find_scalar(&text, cursor(depth as u32 - 1, column)).expect("value");
        assert_eq!(target.plaintext, "v");
    }
    let text = nested(254);
    assert!(!is_shallow(&text) && !is_parsable(&text));
    assert_eq!(message(find_scalar(&text, cursor(253, 256))), UNPARSED);

    let text = "- ".repeat(253) + "a";
    assert!(is_shallow(&text));
    assert_eq!(
        message(find_vault(&text, cursor(0, 0))),
        "Place the cursor inside exactly one !vault block"
    );
    for text in ["- ".repeat(254) + "a", "? ".repeat(300), ": ".repeat(300) + "a\n"] {
        assert!(!is_shallow(&text));
        assert_eq!(message(find_scalar(&text, cursor(0, 0))), UNPARSED);
        assert_eq!(message(find_vault(&text, cursor(0, 0))), UNPARSED);
        assert_eq!(classify_value(&text, cursor(0, 0)), None);
    }
}

#[test]
fn blocks_that_have_ended_do_not_count() {
    let text = wide() + &nested(252);
    assert!(is_shallow(&text));
    let target = find_scalar(&text, cursor(551, 254)).expect("value");
    assert_eq!(target.plaintext, "v");
    assert!(!is_shallow(&(wide() + &nested(253))));
    assert!(is_shallow(&(wide() + &nested(252) + &nested(252))));

    let text = "- name: a\n  tasks:\n    - b:\n        c: |\n          d: e\n".repeat(500);
    assert!(is_shallow(&text));
    assert_eq!(classify_value(&text, cursor(1000, 2)), Some(ValueContext::Plaintext));
    let target = find_scalar(&text, cursor(1000, 9)).expect("value");
    assert_eq!(target.plaintext, "a");

    assert!(is_shallow(""));
    assert!(is_shallow(&"-".repeat(300)));
    assert!(is_shallow(&("- ".repeat(240) + "a: " + &"b: ".repeat(300))));
    assert!(is_shallow(&("- ".repeat(200) + "\r" + &"- ".repeat(200))));
    assert!(!is_shallow(&("- ".repeat(100) + "\r" + &" ".repeat(200) + &"- ".repeat(200))));
    assert!(is_shallow(&("\u{feff}".to_string() + &wide() + &nested(252))));
}

#[test]
fn lines_that_end_no_block_are_known() {
    let half = nested(130);
    let rest = format!("{}{}", " ".repeat(130), "k:\n");
    let deeper: String = (130..253).map(|level| " ".repeat(level) + "k:\n").collect();
    assert!(is_shallow(&(wide() + &half + &rest)));
    assert!(!is_shallow(&(wide() + &half + &deeper)));
    assert!(is_shallow(&(wide() + &half + "end:\n" + &deeper)));
    for line in ["# note\n", "%YAML 1.2\n", "---\n", "--- # note\n", "...\n", "\n", "\0\n", "\ta\n"] {
        assert!(!is_shallow(&(wide() + &half + line + &deeper)));
        assert!(is_shallow(&(wide() + &half + line)));
    }
    assert!(is_shallow(&((half.clone() + "---\n").repeat(9) + &wide())));
    assert!(is_shallow(&(half.clone() + "--- k: v\n" + &nested(100) + &wide())));
    assert!(!is_shallow(&(half.clone() + "--- k: v\n" + &nested(130) + &wide())));
    assert!(is_shallow(&(wide() + &"[\n]\n".repeat(100))));
}

#[test]
fn rows_and_columns_are_counted_in_few_bits() {
    assert!(is_shallow(&(wide() + &"\n".repeat(32467))));
    assert!(!is_shallow(&(wide() + &"\n".repeat(32468))));
    assert!(is_shallow(&(wide() + &"x".repeat(32767))));
    assert!(!is_shallow(&(wide() + &"x".repeat(32768))));
    assert!(is_shallow(&("\n".repeat(40000) + "a: b\n")));
    assert!(is_shallow(&"x".repeat(40000)));

    let dashes = format!("  {}\n", "- ".repeat(58));
    let key = format!("{}{}b:\n", "\n".repeat(65535), " ".repeat(118));
    let text = format!("a:\n{dashes}{key}{dashes}{key}{dashes}{key}{dashes}{key}{dashes}");
    assert!(!is_shallow(&text));
    assert_eq!(message(find_vault(&text, cursor(0, 0))), UNPARSED);
}

#[test]
fn payloads_of_any_shape_are_found_again() {
    for widest in [64, 300] {
        let lines: Vec<String> = (0..widest).map(|n| " ".repeat(n) + "61").collect();
        let payload = format!("$ANSIBLE_VAULT;1.1;AES256\n{}\n", lines.join("\n"));
        let value = format_encrypted_value(&payload, "  ").expect("value");
        let text = format!("secret: {value}\n");
        let target = find_vault(&text, cursor(0, 0)).expect("value");
        assert_eq!(target.vault_text, payload);
        assert_eq!(target.continuation_indent, "  ");
        assert_eq!(&text[target.start..target.end], value);
        let target = find_vault(&text, cursor(widest as u32, 3)).expect("value");
        assert_eq!(target.vault_text, payload);
    }
}

#[test]
fn blank_lines_inside_a_payload_belong_to_it() {
    let text = "a: !vault |\n  $ANSIBLE_VAULT;1.1;AES256\n  61\n\n \t\n  62\n\nb: x\n";
    for (line, character) in [(0, 0), (2, 3), (3, 0), (4, 1), (5, 2), (5, 4)] {
        assert_eq!(classify_value(text, cursor(line, character)), Some(ValueContext::Vault));
        let target = find_vault(text, cursor(line, character)).expect("value");
        assert_eq!(target.vault_text, "$ANSIBLE_VAULT;1.1;AES256\n61\n62\n");
        assert!(text[target.start..target.end].ends_with("  62"));
    }
    assert_eq!(classify_value(text, cursor(7, 0)), Some(ValueContext::Plaintext));
    assert_eq!(
        message(find_vault(text, cursor(6, 0))),
        "Place the cursor inside exactly one !vault block"
    );
}
