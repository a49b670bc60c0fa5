use ansible_vault_lsp::actions::{
    code_action, offered_operations, title, validation_quick_fixes, ContextDiagnostic, Offers,
    FIX_HEADER,
};
use ansible_vault_lsp::document::{Document, Position, Range};
use ansible_vault_lsp::operation::ActionOperation;
use ansible_vault_lsp::session::{Session, SessionAction, SessionEvent};
use ansible_vault_lsp::config::Settings;
use ansible_vault_lsp::validation::{validate_vault_document, DiagnosticSeverity};
use ansible_vault_lsp::yaml::ValueContext;

fn document(text: &str) -> Document {
    Document {
        text: text.to_string(),
        version: 1,
    }
}

fn cursor(line: u32, character: u32) -> Range {
    Range::new(Position::new(line, character), Position::new(line, character))
}

fn offers_at(text: &str, line: u32, character: u32) -> Offers {
    code_action(&document(text), true, cursor(line, character), &Vec::new()).expect("actions")
}

fn action_titles(offers: &Offers) -> Vec<&'static str> {
    let mut titles: Vec<&'static str> = offers.fixes.iter().map(|_| FIX_HEADER).collect();
    titles.extend(offers.operations.iter().map(|operation| title(*operation)));
    titles
}

#[test]
fn advertises_contextual_file_and_scalar_actions() {
    let text = "secret: value\n";
    let offers = offers_at(text, 0, 10);
    let titles = action_titles(&offers);
    assert!(titles.contains(&"Ansible Vault: Encrypt File"));
    assert!(titles.contains(&"Ansible Vault: Encrypt YAML Value"));
}

#[test]
fn advertises_only_decrypt_file_everywhere_in_a_fully_encrypted_file() {
    let text = "$ANSIBLE_VAULT;1.1;AES256\n616263\n646566\n";
    for line in [0, 1, 2] {
        let offers = offers_at(text, line, 2);
        assert_eq!(action_titles(&offers), vec!["Ansible Vault: Decrypt File"]);
    }
}

#[test]
fn never_offers_encryption_for_a_file_with_a_malformed_vault_header() {
    let text = "$ANSIBLE_VAULT;9.9;BROKEN\n616263\n";
    for line in [0, 1] {
        let offers = offers_at(text, line, 2);
        assert_eq!(action_titles(&offers), vec!["Ansible Vault: Decrypt File"]);
    }
}

#[test]
fn publishes_updates_and_clears_inline_vault_diagnostics() {
    let malformed = "secret: !vault |\n  $sANSIBLE_VAULT;1.1;AES256\n  616263\n";
    let issues = validate_vault_document(malformed);
    assert_eq!(issues.len(), 1);
    let diagnostic = &issues[0].diagnostic;
    assert_eq!(diagnostic.severity, DiagnosticSeverity::Error);
    assert_eq!(diagnostic.source, "ansible-vault");
    assert_eq!(diagnostic.code, "ansible-vault.invalid-marker");
    assert_eq!(diagnostic.range.start, Position::new(1, 2));
    assert_eq!(diagnostic.range.end, Position::new(1, 17));

    let offers = offers_at(malformed, 1, 8);
    assert_eq!(offers.fixes.len(), 1);
    assert_eq!(offers.fixes[0].edit.new_text, "$ANSIBLE_VAULT;1.1;AES256");
    assert_eq!(offers.fixes[0].diagnostics.len(), 1);

    let corrected = malformed.replace("$sANSIBLE_VAULT", "$ANSIBLE_VAULT");
    assert!(validate_vault_document(&corrected).is_empty());
}

#[test]
fn treats_a_fixable_full_file_marker_as_vault_not_plaintext() {
    let text = "$sANSIBLE_VAULT;1.1;AES256\n616263\n";
    let issues = validate_vault_document(text);
    assert_eq!(issues[0].diagnostic.code, "ansible-vault.invalid-marker");
    let offers = offers_at(text, 0, 5);
    assert_eq!(
        action_titles(&offers),
        vec![
            "Ansible Vault: Fix Vault Header",
            "Ansible Vault: Decrypt File"
        ]
    );
    assert!(!action_titles(&offers).contains(&"Ansible Vault: Encrypt File"));
}

#[test]
fn offers_one_smart_fix_for_multiple_header_errors() {
    let text = "$ANSIBLE_VAULT:9.9:ASE-256\n616263\n";
    assert!(validate_vault_document(text).len() >= 2);
    let offers = offers_at(text, 0, 8);
    assert_eq!(offers.fixes.len(), 1);
    let edit = &offers.fixes[0].edit;
    assert_eq!(edit.new_text, "$ANSIBLE_VAULT;1.1;AES256");
    assert_eq!(edit.range.start, Position::new(0, 0));
    assert_eq!(edit.range.end, Position::new(0, 26));
}

#[test]
fn advertises_file_action_on_non_value_lines_and_value_action_for_the_whole_pair() {
    let text = "# variables\nsecret: |-\n  first line\n  second line\nnext: value\n";
    assert_eq!(
        action_titles(&offers_at(text, 0, 3)),
        vec!["Ansible Vault: Encrypt File"]
    );
    for (line, character) in [(1, 1), (1, 8), (2, 4), (3, 8)] {
        assert_eq!(
            action_titles(&offers_at(text, line, character)),
            vec![
                "Ansible Vault: Encrypt File",
                "Ansible Vault: Encrypt YAML Value"
            ]
        );
    }
}

#[test]
fn advertises_decrypt_value_on_the_key_and_every_vault_payload_line() {
    let text = "secret: !vault |\n  $ANSIBLE_VAULT;1.1;AES256\n  616263\n  646566\nnext: value\n";
    for (line, character) in [(0, 1), (0, 15), (1, 4), (3, 6)] {
        assert_eq!(
            action_titles(&offers_at(text, line, character)),
            vec![
                "Ansible Vault: Encrypt File",
                "Ansible Vault: Decrypt !vault Value"
            ]
        );
    }
}

#[test]
fn never_offers_encrypt_value_for_a_tagged_vault_with_a_malformed_header() {
    let text = "---\nssh_users:\n  - name: devops\n    password: !vault |\n              $sANSIBLE_VAULT;1.1;AES256\n              3337646434656465\n              6462313131616338\n    uid: 1001\n  - name: backend\n    password: \"\"\n";
    for (line, character) in [(3, 5), (3, 22), (4, 18), (5, 25), (6, 20)] {
        let expected = if line == 4 {
            vec![
                "Ansible Vault: Fix Vault Header",
                "Ansible Vault: Encrypt File",
                "Ansible Vault: Decrypt !vault Value",
            ]
        } else {
            vec![
                "Ansible Vault: Encrypt File",
                "Ansible Vault: Decrypt !vault Value",
            ]
        };
        assert_eq!(action_titles(&offers_at(text, line, character)), expected);
    }
    assert_eq!(
        action_titles(&offers_at(text, 9, 15)),
        vec![
            "Ansible Vault: Encrypt File",
            "Ansible Vault: Encrypt YAML Value"
        ]
    );

    let (mut session, _) = Session::perform_action(
        ActionOperation::DecryptValue,
        1,
        cursor(5, 25),
        Some("/work/roles/ssh/defaults/main.yml".to_string()),
        vec!["/work".to_string()],
    );
    session
        .next(SessionEvent::Document(Some(document(text))))
        .expect("open document");
    let resolved = session.next(SessionEvent::Settings(Settings::default(), None));
    assert_eq!(
        resolved.expect_err("a malformed Vault header must never produce an edit").message(),
        "The !vault value has an invalid header; expected $ANSIBLE_VAULT;1.1;AES256 or a valid Vault 1.2 header"
    );
}

/// The answers of an `ansible-vault` that always encrypts to the same payload.
fn resolve(scalar_action: (i32, Range), current: &Document) -> Result<(Range, String, i32), String> {
    let (version, range) = scalar_action;
    let (mut session, mut action) = Session::perform_action(
        ActionOperation::EncryptValue,
        version,
        range,
        Some("/work/vars.yml".to_string()),
        vec!["/work".to_string()],
    );
    loop {
        let event = match action {
            SessionAction::ReadDocument => SessionEvent::Document(Some(current.clone())),
            SessionAction::ReadSettings => SessionEvent::Settings(Settings::default(), None),
            SessionAction::Preflight(root, target) => {
                assert_eq!((root.as_str(), target), ("/work", None));
                SessionEvent::Checked(Ok("/tmp/work".to_string()))
            }
            SessionAction::ObtainPassword => SessionEvent::Password(Ok("/work/password".to_string())),
            SessionAction::Run(args, variables, input) => {
                assert_eq!(
                    variables,
                    vec![("ANSIBLE_LOCAL_TEMP".to_string(), "/tmp/work".to_string())]
                );
                assert_eq!(args[0], "encrypt_string");
                assert_eq!(input.as_deref(), Some(b"value".as_slice()));
                SessionEvent::Ran(Ok(ansible_vault_lsp::process::ProcessOutput {
                    success: true,
                    stdout: b"__zed_vault_value__: !vault |\n          $ANSIBLE_VAULT;1.1;AES256\n          616263\n".to_vec(),
                    stderr: Vec::new(),
                }))
            }
            SessionAction::Edit(range, replacement, version) => return Ok((range, replacement, version)),
            other => panic!("{other:?}"),
        };
        action = session.next(event).map_err(|error| error.message())?;
    }
}

#[test]
fn resolves_to_a_versioned_edit_and_rejects_a_stale_action() {
    let current = document("secret: value\n");
    let scalar_action = (1, cursor(0, 10));
    let (range, replacement, version) = resolve(scalar_action, &current).expect("edit");
    assert_eq!(version, 1);
    assert_eq!(range, Range::new(Position::new(0, 8), Position::new(0, 13)));
    assert!(replacement.starts_with("!vault |\n        $ANSIBLE_VAULT;1.1;AES256"));

    let changed = Document {
        text: "secret: changed\n".to_string(),
        version: 2,
    };
    assert_eq!(
        resolve(scalar_action, &changed).expect_err("stale"),
        "The document changed while the operation was running; retry the action"
    );
}

#[test]
fn documents_without_a_file_get_value_actions_only() {
    let text = "secret: value\n";
    let offers = code_action(&document(text), false, cursor(0, 10), &Vec::new()).expect("actions");
    assert_eq!(action_titles(&offers), vec!["Ansible Vault: Encrypt YAML Value"]);
    assert!(code_action(&document("# note\n"), false, cursor(0, 1), &Vec::new()).is_none());
    assert!(code_action(
        &document("$ANSIBLE_VAULT;1.1;AES256\n61\n"),
        false,
        cursor(1, 1),
        &Vec::new()
    )
    .is_none());
}

#[test]
fn operations_depend_on_what_the_document_is() {
    let decrypt_file = vec![ActionOperation::DecryptFile];
    assert_eq!(offered_operations(true, true, Some(ValueContext::Plaintext)), decrypt_file);
    assert_eq!(offered_operations(true, false, Some(ValueContext::Vault)), Vec::new());
    assert_eq!(
        offered_operations(false, true, None),
        vec![ActionOperation::EncryptFile]
    );
    assert_eq!(
        offered_operations(false, true, Some(ValueContext::Vault)),
        vec![ActionOperation::EncryptFile, ActionOperation::DecryptValue]
    );
    assert_eq!(
        offered_operations(false, false, Some(ValueContext::Plaintext)),
        vec![ActionOperation::EncryptValue]
    );
}

#[test]
fn fixes_come_where_they_are_asked_for() {
    let text = "$ANSIBLE_VAULT:9.9:ASE-256\n616263\n";
    let issues = validate_vault_document(text);
    let far = cursor(1, 3);
    assert!(validation_quick_fixes(&document(text), far, &Vec::new()).is_empty());
    let asked = |source: Option<&str>, code: Option<&str>, range: Range| {
        vec![ContextDiagnostic {
            range,
            code: code.map(str::to_string),
            source: source.map(str::to_string),
        }]
    };
    let code = issues[0].diagnostic.code.as_str();
    let range = issues[0].diagnostic.range;
    let fixes = validation_quick_fixes(
        &document(text),
        far,
        &asked(Some("ansible-vault"), Some(code), range),
    );
    assert_eq!(fixes.len(), 1);
    assert_eq!(fixes[0].diagnostics.len(), issues.len());
    for context in [
        asked(None, Some(code), range),
        asked(Some("other"), Some(code), range),
        asked(Some("ansible-vault"), None, range),
        asked(Some("ansible-vault"), Some("x"), range),
        asked(Some("ansible-vault"), Some(code), cursor(0, 0)),
    ] {
        assert!(validation_quick_fixes(&document(text), far, &context).is_empty());
    }
}

#[test]
fn different_headers_get_different_fixes() {
    let text = "a: !vault |\n  $sANSIBLE_VAULT;1.1;AES256\n  61\nb: !vault |\n  $ANSIBLE_VAULT;1,1;AES256\n  62\n";
    let whole = Range::new(Position::new(0, 0), Position::new(5, 0));
    let fixes = validation_quick_fixes(&document(text), whole, &Vec::new());
    assert_eq!(fixes.len(), 2);
    assert!(fixes[0].edit.range != fixes[1].edit.range);
    let later = Document {
        text: text.to_string(),
        version: 17,
    };
    for (document, version) in [(document(text), 1), (later, 17)] {
        for fix in validation_quick_fixes(&document, whole, &Vec::new()) {
            assert_eq!(fix.version, version);
            assert!(fix.preferred);
        }
    }
    assert_eq!(
        validation_quick_fixes(&document(text), cursor(4, 4), &Vec::new()).len(),
        1
    );
}
