use ansible_vault_lsp::document::{lsp_range_to_bytes, Document, Position, Range};
use ansible_vault_lsp::actions::code_action;
use ansible_vault_lsp::validation::{validate_vault_document, ValidationIssue};
use ansible_vault_lsp::vault::{is_vault_file, parse_encrypt_string};
use ansible_vault_lsp::writing::{format_encrypted_value, format_plaintext_value};
use ansible_vault_lsp::yaml::find_vault;

/// The document after the fix of an issue was taken up.
fn fixed(text: &str, issue: &ValidationIssue) -> String {
    let fix = issue.fix.as_ref().expect("fix");
    let (start, end) = lsp_range_to_bytes(text, fix.range).expect("range");
    format!("{}{}{}", &text[..start], fix.new_text, &text[end..])
}

fn codes(issues: &[ValidationIssue]) -> Vec<String> {
    issues.iter().map(|issue| issue.diagnostic.code.clone()).collect()
}

#[test]
fn a_fix_clears_its_own_findings_and_no_others() {
    for text in [
        "$sANSIBLE_VAULT;1.1;AES256\n616263\n",
        "  $ANSIBLE_VAULT:9.9:ASE-256  \r\nzz\n\n6162\n",
        "$ANSIBLE_VAULT;1,2;AES;caf\u{e9} \n61\n",
        "a: !vault |\n  $sANSIBLE_VAULT;1.1;AES256\n  6g\nb: !vault |\n\n    ANSIBLE VAULT|1.1|aes \n\nc: !vault |\nd: !vault |\n  $ANSIBLE_VAULT;9;BROKEN\n  61\n",
        "\u{e9}: 1\nx:\n  - !vault |\n    $ANSIBLE_VAULT 1.1 AES256\n    \u{e9}\n  - !vault |\n    $ANSIBLE_VAULT;1.1;AES25\n    61\n",
    ] {
        let issues = validate_vault_document(text);
        for issue in issues.iter().filter(|issue| issue.fix.is_some()) {
            let after = validate_vault_document(&fixed(text, issue));
            let remaining: Vec<ValidationIssue> = issues
                .iter()
                .filter(|other| other.fix != issue.fix)
                .cloned()
                .collect();
            assert_eq!(codes(&after), codes(&remaining), "{text:?}");
            assert!(after.len() < issues.len());
        }
        assert!(issues.iter().any(|issue| issue.fix.is_some()), "{text:?}");
    }
}

#[test]
fn valid_vault_files_are_offered_no_fix() {
    for text in [
        "$ANSIBLE_VAULT;1.1;AES256\n616263\n",
        "$ANSIBLE_VAULT;1.2;AES256; \n61\n",
        "$ANSIBLE_VAULT;1.2;AES256; dev \nxyz\n",
        "$ANSIBLE_VAULT;1.1;AES256\n",
    ] {
        assert!(is_vault_file(text));
        assert!(validate_vault_document(text).iter().all(|issue| issue.fix.is_none()));
        let document = Document {
            text: text.to_string(),
            version: 1,
        };
        let whole = Range::new(Position::new(0, 0), Position::new(1, 0));
        let offers = code_action(&document, true, whole, &Vec::new()).expect("offers");
        assert!(offers.fixes.is_empty());
        assert_eq!(offers.operations.len(), 1);
    }
}

#[test]
fn what_was_encrypted_is_found_for_decryption() {
    let output = b"Encryption successful\nname: !vault |\n          $ANSIBLE_VAULT;1.2;AES256;dev\n          6162\n          6364\n\n";
    let payload = parse_encrypt_string(output).expect("payload");
    for (head, prefix, indent, tail) in [
        ("", "a: ", "   ", "\n"),
        ("", "a: ", "  ", ""),
        ("x: 1\n", "  - ", "    ", "\ny: 2\n"),
        ("k:\n", "  name: ", "          ", "\n\n  other: 3\n"),
    ] {
        let value = format_encrypted_value(&payload, indent).expect("value");
        let text = format!("{head}{prefix}{value}{tail}");
        let line = head.matches('\n').count() as u32;
        let at = Position::new(line + 1, 4);
        let found = find_vault(&text, Range::new(at, at)).expect("value");
        assert_eq!(found.vault_text, payload);
        assert_eq!(found.continuation_indent, indent);
        assert_eq!(&text[found.start..found.end], value);
    }
}

#[test]
fn blocks_hold_every_line_of_a_text() {
    for text in ["one\ntwo", "one\ntwo\n", "\n\n", "a\r\nb\n", " x\n\ny\n\n"] {
        let value = format_plaintext_value(text, "    ");
        let mut lines = value.split('\n');
        assert_eq!(lines.next(), Some(if text.ends_with('\n') { "|" } else { "|-" }));
        let body: Vec<&str> = lines
            .map(|line| line.strip_prefix("    ").expect("indentation"))
            .collect();
        assert_eq!(body.join("\n"), text.strip_suffix('\n').unwrap_or(text));
    }
}
