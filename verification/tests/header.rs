use ansible_vault_lsp::header::{
    canonical_header, compact_token, fields_of, full_file_candidate, repair_fields,
    resembles_cipher, resembles_marker, safely_fixable_marker, version_hint, VaultVersion,
};
use ansible_vault_lsp::validation::{is_vault_file_candidate, validate_vault_document};
use ansible_vault_lsp::vault::is_vault_file;

fn chars(s: &str) -> Vec<char> {
    s.chars().collect()
}

fn shown(parts: Vec<&[char]>) -> Vec<String> {
    parts.into_iter().map(|part| part.iter().collect()).collect()
}

#[test]
fn normalizes_confident_header_errors_in_any_field() {
    for malformed in [
        "$sANSIBLE_VAULT;1.1;AES256",
        "$ANSIBLE_VAULT:1.1:AES256",
        "$ANSIBLE_VAULT;1,1;AES-256",
        "$ansible_vault;1.1;aes256",
        "$ANSIBLE_VAULT;9.9;AES256",
        "$ANSIBLE_VAULT;1.1;BROKEN",
        "BROKEN;1.1;AES256",
    ] {
        assert_eq!(
            canonical_header(malformed).as_deref(),
            Some("$ANSIBLE_VAULT;1.1;AES256"),
            "failed to normalize {malformed}"
        );
    }
}

#[test]
fn preserves_a_vault_1_2_id_while_normalizing_the_header() {
    assert_eq!(
        canonical_header("$ANSIBLE_VAULT;1,2;ASE-256;production").as_deref(),
        Some("$ANSIBLE_VAULT;1.2;AES256;production")
    );
    assert_eq!(
        canonical_header("$ANSIBLE_VAULT;1.2;AES-256:production").as_deref(),
        Some("$ANSIBLE_VAULT;1.2;AES256;production")
    );
}

#[test]
fn refuses_to_invent_a_missing_vault_id_or_repair_unrelated_text() {
    assert_eq!(canonical_header("$ANSIBLE_VAULT;1.2;AES256"), None);
    assert_eq!(canonical_header("completely unrelated text"), None);
    assert_eq!(canonical_header("BROKEN;BROKEN;BROKEN"), None);
}

#[test]
fn repairs_of_round_trip_fixtures() {
    assert_eq!(
        canonical_header("$sANSIBLE_VAULT:9.9:ASE-256").as_deref(),
        Some("$ANSIBLE_VAULT;1.1;AES256")
    );
    assert_eq!(
        canonical_header("$sANSIBLE_VAULT;1,2;ASE-256:dev").as_deref(),
        Some("$ANSIBLE_VAULT;1.2;AES256;dev")
    );
    assert_eq!(
        canonical_header("  $ANSIBLE_VAULT 1.2 AES256 dev  ").as_deref(),
        Some("$ANSIBLE_VAULT;1.2;AES256;dev")
    );
    assert_eq!(canonical_header("$ANSIBLE_VAULT;1.2;AES256; "), None);
    assert_eq!(canonical_header("a;b;c;d;e"), None);
    assert_eq!(canonical_header(""), None);
}

#[test]
fn separators_are_settled_by_semicolons() {
    assert_eq!(shown(repair_fields(&chars(" a ; b;c "))), vec!["a", "b", "c"]);
    assert_eq!(shown(repair_fields(&chars("a;b:c"))), vec!["a", "b", "c"]);
    assert_eq!(shown(repair_fields(&chars("a|b"))), vec!["a", "b"]);
    assert_eq!(shown(repair_fields(&chars("a b  c"))), vec!["a", "b", "c"]);
    assert_eq!(shown(repair_fields(&chars("a;b;AES256|x"))), vec!["a", "b", "AES256", "x"]);
    assert_eq!(shown(repair_fields(&chars("a;b;AES256|"))), vec!["a", "b", "AES256|"]);
    assert_eq!(shown(repair_fields(&chars("a;b;zzzzzz|x"))), vec!["a", "b", "zzzzzz|x"]);
    assert_eq!(shown(repair_fields(&chars(""))), Vec::<String>::new());
    assert_eq!(shown(fields_of(&chars("a;;b"))), vec!["a", "", "b"]);
}

#[test]
fn fields_tell_what_they_are_meant_to_be() {
    assert_eq!(compact_token(&chars("$Ansible_Vault-\u{e9}1")), chars("ANSIBLEVAULT1"));
    assert_eq!(version_hint(&chars("v1.1")), Some(VaultVersion::V11));
    assert_eq!(version_hint(&chars("1,2")), Some(VaultVersion::V12));
    assert_eq!(version_hint(&chars("1.3")), None);
    assert!(resembles_marker(&chars("ansible vult")));
    assert!(!resembles_marker(&chars("ansible")));
    assert!(resembles_cipher(&chars("ASE-256")));
    assert!(!resembles_cipher(&chars("BROKEN")));
    assert!(safely_fixable_marker(&chars("$ansible_vault")));
    assert!(safely_fixable_marker(&chars("$ANSIBLE_VAUL")));
    assert!(!safely_fixable_marker(&chars("$ANSIBLE_VA")));
    assert!(!safely_fixable_marker(&chars("$ANSIBLE_VAULT\u{e9}")));
}

#[test]
fn candidates_are_lines_that_are_meant_to_be_headers() {
    for line in [
        "$ANSIBLE_VAULT;1.1;AES256",
        "$ANSIBLE_VAULT",
        "$ansible_vault and more",
        "ANSIBLE_VAULT;1.1;AES256",
        "$sANSIBLE_VAULT:9.9:ASE-256",
        "$WHATEVER;1.1;AES256",
    ] {
        assert!(full_file_candidate(&chars(line)), "{line}");
    }
    for line in ["", "key: value", "BROKEN;1.1;AES256", "---", "$OTHER;2;3"] {
        assert!(!full_file_candidate(&chars(line)), "{line}");
    }
}

#[test]
fn repair_is_idempotent_and_its_result_is_valid() {
    for malformed in [
        "$sANSIBLE_VAULT;1.1;AES256",
        "$ANSIBLE_VAULT;1,2;ASE-256;  production  ",
        "ANSIBLE VAULT|12|aes|team:blue",
        "$ANSIBLE_VAULT 1.2 AES256 dev",
    ] {
        if let Some(line) = canonical_header(malformed) {
            assert_eq!(canonical_header(&line).as_deref(), Some(line.as_str()));
            let file = format!("{line}\n616263\n");
            assert!(is_vault_file(&file));
            assert!(is_vault_file_candidate(&file));
            assert!(validate_vault_document(&file).is_empty());
        }
    }
}
