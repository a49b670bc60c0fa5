use ansible_vault_lsp::document::{Position, Range};
use ansible_vault_lsp::header::canonical_header;
use ansible_vault_lsp::validation::{
    is_vault_file_candidate, range_touches, validate_vault_document, DiagnosticSeverity, Problem,
    INVALID_MARKER_CODE,
};

fn codes(text: &str) -> Vec<String> {
    validate_vault_document(text)
        .into_iter()
        .map(|issue| issue.diagnostic.code)
        .collect()
}

fn range(a: u32, b: u32, c: u32, d: u32) -> Range {
    Range::new(Position::new(a, b), Position::new(c, d))
}

#[test]
fn accepts_valid_full_and_inline_vaults() {
    assert!(validate_vault_document("$ANSIBLE_VAULT;1.1;AES256\n616263\n646566\n").is_empty());
    assert!(validate_vault_document(
        "secret: !vault |\n  $ANSIBLE_VAULT;1.2;AES256;dev\n  616263\nnext: value\n"
    )
    .is_empty());
}

#[test]
fn reports_and_fixes_a_single_character_marker_typo() {
    let text = "secret: !vault |\n  $sANSIBLE_VAULT;1.1;AES256\n  616263\n";
    let issues = validate_vault_document(text);
    assert_eq!(codes(text), vec![INVALID_MARKER_CODE]);
    let fix = issues[0].fix.as_ref().expect("safe marker fix");
    assert_eq!(fix.new_text, "$ANSIBLE_VAULT;1.1;AES256");
    assert_eq!(fix.range.start.line, 1);
    assert_eq!(fix.range.start.character, 2);
    assert_eq!(fix.range.end.character, 28);
}

#[test]
fn reports_unsupported_header_fields_and_invalid_payload() {
    let codes = codes("$ANSIBLE_VAULT;9.9;BROKEN\nxyz\n");
    assert!(codes.contains(&"ansible-vault.unsupported-version".to_string()));
    assert!(codes.contains(&"ansible-vault.unsupported-cipher".to_string()));
    assert!(codes.contains(&"ansible-vault.invalid-payload".to_string()));
}

#[test]
fn reports_missing_id_and_payload() {
    assert_eq!(
        codes("$ANSIBLE_VAULT;1.2;AES256\n"),
        vec![
            "ansible-vault.missing-vault-id",
            "ansible-vault.empty-payload"
        ]
    );
}

#[test]
fn validates_each_nested_block_without_consuming_sibling_fields() {
    let text = "users:\n  - name: !vault |\n          $sANSIBLE_VAULT;1.1;AES256\n          616263\n    password: !vault |\n              $ANSIBLE_VAULT;1.1;AES256\n              not-hex\n    uid: 1001\n";
    assert_eq!(
        codes(text),
        vec![INVALID_MARKER_CODE, "ansible-vault.invalid-payload"]
    );
}

#[test]
fn ignores_vault_examples_inside_yaml_comments() {
    assert!(validate_vault_document(
        "# secret: !vault |\n#   $sANSIBLE_VAULT;1.1;AES256\n#   not-hex\n"
    )
    .is_empty());
}

#[test]
fn arbitrary_utf8_never_panics_during_vault_validation() {
    let alphabet = [
        "$ANSIBLE_VAULT", ";", ":", "|", "1.1", "1.2", "AES256", "\n", "\r\n", " ", "  ", "\u{3000}",
        "!vault", "!vault |", "key: ", "- ", "#", "61", "z", "\u{1f600}", "\u{e9}", "\t", "\u{85}",
    ];
    let mut state: u64 = 0x1234_5678_9abc_def1;
    for _ in 0..4000 {
        let mut text = String::new();
        let length = (state >> 60) as usize;
        for _ in 0..length + 1 {
            state = state.wrapping_mul(6364136223846793005).wrapping_add(1442695040888963407);
            text.push_str(alphabet[(state >> 33) as usize % alphabet.len()]);
        }
        for issue in validate_vault_document(&text) {
            assert!(!issue.diagnostic.range.end.is_before(issue.diagnostic.range.start));
        }
        if let Some(first_line) = text.lines().next() {
            let _ = canonical_header(first_line);
        }
    }
}

#[test]
fn an_empty_field_is_shown_by_the_character_behind_it() {
    let issues = validate_vault_document("$ANSIBLE_VAULT;\n");
    assert_eq!(issues[0].diagnostic.code, "ansible-vault.unsupported-version");
    assert_eq!(issues[0].diagnostic.range, range(0, 15, 1, 0));
    let issues = validate_vault_document("$ANSIBLE_VAULT;\u{3000}\n");
    assert_eq!(issues[0].diagnostic.range, range(0, 15, 0, 16));
    let issues = validate_vault_document("$ANSIBLE_VAULT;");
    assert_eq!(issues[0].diagnostic.range, range(0, 15, 0, 15));
    let issues = validate_vault_document("x: !vault |\n  ;1.1;AES256\n  6162\n");
    assert_eq!(issues[0].diagnostic.range, range(1, 2, 1, 3));
}

#[test]
fn shows_every_problem_of_a_header() {
    for (text, expected) in [
        ("$ANSIBLE_VAULT\n61\n", vec![Problem::VersionMissing, Problem::CipherMissing]),
        ("$ANSIBLE_VAULT;1.1\n61\n", vec![Problem::CipherMissing, Problem::UnexpectedFields]),
        ("$ANSIBLE_VAULT;1.1;AES256;x\n61\n", vec![Problem::UnexpectedFields]),
        ("$ANSIBLE_VAULT;1.2;AES256;\n61\n", vec![Problem::MissingVaultId]),
        ("$ANSIBLE_VAULT;1.2;AES256;dev\n", vec![Problem::EmptyPayload]),
        ("$ANSIBLE_VAULT;1.1;AES256\n616\n", vec![Problem::InvalidPayload]),
        ("$ANSIBLE_VAULT;1.1;AES256\n61g1\n\n  6162  \n", vec![Problem::InvalidPayload]),
        ("$ANSIBLE_VAULT;1.3;AES256\n61\n", vec![Problem::UnsupportedVersion]),
        ("$ANSIBLE_VAULT;1.1;AES\n61\n", vec![Problem::UnsupportedCipher]),
        ("x: !vault |\ny: 1\n", vec![Problem::MissingHeader]),
        ("x: !vault |", vec![Problem::MissingHeader]),
    ] {
        let issues = validate_vault_document(text);
        let found: Vec<(String, String)> = issues
            .iter()
            .map(|issue| (issue.diagnostic.code.clone(), issue.diagnostic.message.clone()))
            .collect();
        let wanted: Vec<(String, String)> = expected
            .into_iter()
            .map(|problem| (problem.code().to_string(), problem.message().to_string()))
            .collect();
        assert_eq!(found, wanted, "{text:?}");
        for issue in issues {
            assert_eq!(issue.diagnostic.severity, DiagnosticSeverity::Error);
            assert_eq!(issue.diagnostic.source, "ansible-vault");
        }
    }
}

#[test]
fn shows_the_exact_places_of_fields_and_lines() {
    let text = "a: 1\nb: !vault |\n  $ANSIBLE_VAULT;2.0;AES\n  zz\nc: !vault | # note\nd: 2\n";
    let issues = validate_vault_document(text);
    let ranges: Vec<Range> = issues.iter().map(|issue| issue.diagnostic.range).collect();
    assert_eq!(
        ranges,
        vec![
            range(2, 17, 2, 20),
            range(2, 21, 2, 24),
            range(3, 2, 3, 4),
            range(4, 3, 4, 18)
        ]
    );
    assert_eq!(Problem::MissingHeader.code(), "ansible-vault.missing-header");
}

#[test]
fn every_header_problem_offers_the_same_fix() {
    let issues = validate_vault_document("$sANSIBLE_VAULT;9.9;AES-256\n61\n");
    assert_eq!(issues.len(), 3);
    for issue in &issues {
        let fix = issue.fix.as_ref().expect("fix");
        assert_eq!(fix.new_text, "$ANSIBLE_VAULT;1.1;AES256");
        assert_eq!(fix.range, range(0, 0, 0, 27));
    }
}

#[test]
fn blank_lines_stand_between_tag_and_header() {
    assert!(validate_vault_document("x: !vault |\n\n  $ANSIBLE_VAULT;1.1;AES256\n  61\n").is_empty());
    assert_eq!(
        codes("x: !vault |\n\n  $ANSIBLE_VAULT;1.1;AES256\n\n  61\n"),
        vec!["ansible-vault.empty-payload"]
    );
    assert!(validate_vault_document("text: not a !vault | tag\n").is_empty());
    assert!(validate_vault_document("x: !vault value\n").is_empty());
    assert!(validate_vault_document("").is_empty());
    assert!(validate_vault_document("- !vault |\n  $ANSIBLE_VAULT;1.1;AES256\n  61\n").is_empty());
}

#[test]
fn candidates_are_recognised_by_their_first_line() {
    assert!(is_vault_file_candidate("$ANSIBLE_VAULT;9.9;BROKEN\n616263\n"));
    assert!(is_vault_file_candidate("  $ansible_vault;1.1;aes256\r\n"));
    assert!(!is_vault_file_candidate("secret: value\n"));
    assert!(!is_vault_file_candidate("\n$ANSIBLE_VAULT;1.1;AES256\n"));
    assert!(!is_vault_file_candidate(""));
}

#[test]
fn cursors_touch_ends_and_selections_share_text() {
    let diagnostic = range(1, 2, 1, 5);
    assert!(range_touches(range(1, 2, 1, 2), diagnostic));
    assert!(range_touches(range(1, 5, 1, 5), diagnostic));
    assert!(!range_touches(range(1, 6, 1, 6), diagnostic));
    assert!(!range_touches(range(0, 9, 0, 9), diagnostic));
    assert!(range_touches(range(0, 0, 1, 3), diagnostic));
    assert!(!range_touches(range(0, 0, 1, 2), diagnostic));
    assert!(!range_touches(range(1, 5, 2, 0), diagnostic));
    assert!(range_touches(range(1, 4, 2, 0), diagnostic));
}
