use ansible_vault_lsp::text;

fn chars(s: &str) -> Vec<char> {
    s.chars().collect()
}

fn shown(parts: Vec<&[char]>) -> Vec<String> {
    parts.into_iter().map(|part| part.iter().collect()).collect()
}

fn all_texts(alphabet: &str, longest: usize) -> Vec<String> {
    let mut out = vec![String::new()];
    let mut level = vec![String::new()];
    for _ in 0..longest {
        let mut next = Vec::new();
        for text in &level {
            for c in alphabet.chars() {
                let mut longer = text.clone();
                longer.push(c);
                next.push(longer);
            }
        }
        out.extend(next.iter().cloned());
        level = next;
    }
    out
}

#[test]
fn white_space_is_what_unicode_says() {
    for code in 0..=0x10ffff_u32 {
        if let Some(c) = char::from_u32(code) {
            assert_eq!(text::is_white_space(c), c.is_whitespace(), "{code:x}");
        }
    }
}

#[test]
fn ascii_classes_and_cases_agree_with_the_standard_library() {
    for code in 0..=0x2ff_u32 {
        if let Some(c) = char::from_u32(code) {
            assert_eq!(text::is_ascii_digit(c), c.is_ascii_digit());
            assert_eq!(text::is_ascii_alphanumeric(c), c.is_ascii_alphanumeric());
            assert_eq!(text::to_lower(c), c.to_ascii_lowercase());
            assert_eq!(text::to_upper(c), c.to_ascii_uppercase());
        }
    }
}

#[test]
fn trimming_agrees_with_the_standard_library() {
    for s in all_texts(" \ta\u{3000}\r", 5) {
        let held = chars(&s);
        let view = |part: &[char]| -> String { part.iter().collect() };
        assert_eq!(view(text::trimmed(&held)), s.trim());
        assert_eq!(view(text::trimmed_start(&held)), s.trim_start());
        assert_eq!(view(text::trimmed_end(&held)), s.trim_end());
        assert_eq!(
            view(text::trimmed_end_of(&held, &['\r', '\t'])),
            s.trim_end_matches(['\r', '\t'])
        );
    }
}

#[test]
fn splitting_agrees_with_the_standard_library() {
    for s in all_texts("a \n\r;", 6) {
        let held = chars(&s);
        let words: Vec<String> = s.split_whitespace().map(str::to_string).collect();
        assert_eq!(shown(text::words_of(&held)), words);
        let lines: Vec<String> = s.lines().map(str::to_string).collect();
        assert_eq!(shown(text::lines_of(&held)), lines);
        let whole: Vec<String> = s.split_inclusive('\n').map(str::to_string).collect();
        assert_eq!(shown(text::lines_with_ends(&held)), whole);
        let pieces: Vec<String> = s.split([';', ' ']).map(str::to_string).collect();
        assert_eq!(shown(text::pieces(&held, &[';', ' '])), pieces);
    }
}

#[test]
fn searching_agrees_with_the_standard_library() {
    for s in all_texts("ab", 7) {
        let held = chars(&s);
        for p in all_texts("ab", 3) {
            let wanted = chars(&p);
            assert_eq!(text::found(&held, &wanted), s.find(p.as_str()));
            assert_eq!(text::has_prefix(&held, &wanted), s.starts_with(p.as_str()));
        }
    }
}

#[test]
fn byte_lengths_agree_with_the_standard_library() {
    for s in all_texts("a\u{e9}\u{20ac}\u{1f600}", 4) {
        let held = chars(&s);
        assert_eq!(text::byte_len_of(&held), s.len());
        assert_eq!(text::str_len(&s), s.len());
        assert_eq!(text::string_of(&held), s);
        assert_eq!(text::chars_of(&s), held);
    }
    for c in ['a', '\u{e9}', '\u{20ac}', '\u{1f600}'] {
        assert_eq!(text::width(c), c.len_utf8());
    }
}

#[test]
fn joining_puts_separators_between_parts() {
    let a = chars("one");
    let b = chars("two");
    let parts: Vec<&[char]> = vec![&a, &b];
    assert_eq!(text::joined(&parts, &[',', ' ']), "one, two");
    assert_eq!(text::joined(&Vec::new(), &[',']), "");
    assert_eq!(text::spaces_of(3), "   ");
    assert!(text::same_str("abc", "abc"));
    assert!(!text::same_str("abc", "abd"));
    assert!(!text::same_str("abc", "ab"));
}
