use ansible_vault_lsp::writing::{
    format_encrypted_value, format_plaintext_value, is_float_literal,
};

#[test]
fn formats_yaml_safe_plaintext() {
    assert_eq!(format_plaintext_value("hello", "  "), "hello");
    assert_eq!(format_plaintext_value("true", "  "), "'true'");
    assert_eq!(
        format_plaintext_value("it's secret", "  "),
        "'it''s secret'"
    );
    assert_eq!(format_plaintext_value("one\ntwo", "  "), "|-\n  one\n  two");
}

#[test]
fn quotes_what_yaml_would_read_otherwise() {
    for (plain, written) in [
        ("", "''"),
        ("Null", "'Null'"),
        ("~", "'~'"),
        ("Yes", "'Yes'"),
        ("OFF", "'OFF'"),
        ("1e3", "'1e3'"),
        ("0x10", "0x10"),
        ("-dash", "'-dash'"),
        ("+inf", "'+inf'"),
        ("a b", "'a b'"),
        ("user@host.example/path+1_2", "user@host.example/path+1_2"),
        ("caf\u{e9}", "'caf\u{e9}'"),
        ("'", "''''"),
    ] {
        assert_eq!(format_plaintext_value(plain, "  "), written, "{plain:?}");
    }
}

#[test]
fn one_line_end_is_dropped_and_more_lines_make_a_block() {
    assert_eq!(format_plaintext_value("hello\n", "  "), "hello");
    assert_eq!(format_plaintext_value("hello\r\n", "  "), "hello");
    assert_eq!(format_plaintext_value("hello\r", "  "), "hello");
    assert_eq!(format_plaintext_value("hello\n\n", "  "), "|\n  hello\n  ");
    assert_eq!(format_plaintext_value("one\ntwo\n", "    "), "|\n    one\n    two");
    assert_eq!(format_plaintext_value("\na", " "), "|-\n \n a");
}

#[test]
fn writes_payloads_as_tagged_blocks() {
    assert_eq!(
        format_encrypted_value("$ANSIBLE_VAULT;1.1;AES256\n616263\n", "  ").expect("value"),
        "!vault |\n  $ANSIBLE_VAULT;1.1;AES256\n  616263"
    );
    assert_eq!(
        format_encrypted_value("$ANSIBLE_VAULT;1.1;AES256\r\n61\r\n\r\n", " ").expect("value"),
        "!vault |\n $ANSIBLE_VAULT;1.1;AES256\n 61"
    );
    for broken in ["", "\n\n", "616263\n", " $ANSIBLE_VAULT;1.1;AES256\n"] {
        assert_eq!(
            format_encrypted_value(broken, "  ").expect_err("no header").message(),
            "ansible-vault returned an invalid encrypted value"
        );
    }
}

#[test]
fn numbers_are_what_the_standard_library_parses() {
    let alphabet: Vec<char> = "+-.eE0aiInNfF".chars().collect();
    let mut level = vec![String::new()];
    for _ in 0..5 {
        let mut next = Vec::new();
        for text in &level {
            for c in &alphabet {
                let mut longer = text.clone();
                longer.push(*c);
                let chars: Vec<char> = longer.chars().collect();
                assert_eq!(
                    is_float_literal(&chars),
                    longer.parse::<f64>().is_ok(),
                    "{longer}"
                );
                next.push(longer);
            }
        }
        level = next;
    }
    for text in ["infinity", "-Infinity", "+NaN", "1.5e+10", "12.", ".5E-3", "1e", "", "1_0", "infinit"] {
        let chars: Vec<char> = text.chars().collect();
        assert_eq!(is_float_literal(&chars), text.parse::<f64>().is_ok(), "{text}");
    }
}
