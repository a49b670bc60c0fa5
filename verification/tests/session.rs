use ansible_vault_lsp::config::Settings;
use ansible_vault_lsp::document::{Document, Position, Range};
use ansible_vault_lsp::error::{AppError, AppResult};
use ansible_vault_lsp::operation::ActionOperation;
use ansible_vault_lsp::process::ProcessOutput;
use ansible_vault_lsp::session::{make_replacement, Session, SessionAction, SessionEvent};
use ansible_vault_lsp::vault::FileFacts;

const PLAIN: &str = "secret: value\n";
const VAULT: &str = "$ANSIBLE_VAULT;1.1;AES256\n616263\n";

fn cursor(line: u32, character: u32) -> Range {
    Range::new(Position::new(line, character), Position::new(line, character))
}

fn document(text: &str, version: i32) -> SessionEvent {
    SessionEvent::Document(Some(Document {
        text: text.to_string(),
        version,
    }))
}

fn settings() -> SessionEvent {
    SessionEvent::Settings(Settings::default(), None)
}

fn facts() -> SessionEvent {
    SessionEvent::Inspected(Ok(FileFacts {
        symlink: false,
        regular: true,
        readonly: false,
        mode: 0o644,
    }))
}

/// The variables of every run whose checks chose the directory `/tmp/work`.
fn work_variables() -> Vec<(String, String)> {
    vec![("ANSIBLE_LOCAL_TEMP".to_string(), "/tmp/work".to_string())]
}

fn content(bytes: &[u8]) -> SessionEvent {
    SessionEvent::Content(Ok(bytes.to_vec()))
}

fn staged(path: &str) -> SessionEvent {
    SessionEvent::Staged(Ok(path.to_string()))
}

fn ran(success: bool, stdout: &[u8]) -> SessionEvent {
    SessionEvent::Ran(Ok(ProcessOutput {
        success,
        stdout: stdout.to_vec(),
        stderr: Vec::new(),
    }))
}

fn begin(action: ActionOperation, path: Option<&str>) -> Session {
    let (session, first) = Session::perform_action(
        action,
        7,
        cursor(0, 10),
        path.map(str::to_string),
        vec!["/work".to_string()],
    );
    assert!(matches!(first, SessionAction::ReadDocument));
    session
}

fn told(result: AppResult<SessionAction>) -> String {
    match result {
        Ok(action) => panic!("an error was expected, not {action:?}"),
        Err(error) => error.message(),
    }
}

/// Brings an operation on a document to the password.
fn at_password(action: ActionOperation, path: Option<&str>, text: &str) -> Session {
    let mut session = begin(action, path);
    let next = session.next(document(text, 7)).expect("document");
    assert!(matches!(next, SessionAction::ReadSettings));
    let next = session.next(settings()).expect("settings");
    assert!(matches!(next, SessionAction::Preflight(_, _)));
    let next = session.next(SessionEvent::Checked(Ok("/tmp/work".to_string()))).expect("checks");
    assert!(matches!(next, SessionAction::ObtainPassword));
    session
}

/// Brings the encryption of a file to the answers that follow the run.
fn at_output() -> Session {
    let mut session = at_password(ActionOperation::EncryptFile, Some("/work/vars.yml"), PLAIN);
    let next = session.next(SessionEvent::Password(Ok("/pw".to_string()))).expect("password");
    assert!(matches!(next, SessionAction::InspectTarget(path) if path == "/work/vars.yml"));
    let next = session.next(facts()).expect("facts");
    assert!(matches!(next, SessionAction::ReadTarget(path) if path == "/work/vars.yml"));
    let next = session.next(content(PLAIN.as_bytes())).expect("content");
    assert!(matches!(next, SessionAction::StageInput(bytes) if bytes == PLAIN.as_bytes()));
    let next = session.next(staged("/tmp/in")).expect("input");
    assert!(matches!(next, SessionAction::ReserveOutput(path) if path == "/work"));
    let next = session.next(staged("/work/.out")).expect("output");
    match next {
        SessionAction::Run(args, variables, input) => {
            assert_eq!(variables, work_variables());
            assert_eq!(
                args,
                vec!["encrypt", "--vault-password-file", "/pw", "--output", "/work/.out", "/tmp/in"]
            );
            assert_eq!(input, None);
        }
        other => panic!("{other:?}"),
    }
    let next = session.next(ran(true, b"")).expect("run");
    assert!(matches!(next, SessionAction::ReadOutput));
    session
}

/// Brings the encryption of a file to its commit.
fn at_commit() -> Session {
    let mut session = at_output();
    let next = session.next(content(VAULT.as_bytes())).expect("result");
    assert!(matches!(next, SessionAction::ReadDocument));
    let next = session.next(document(PLAIN, 7)).expect("unchanged");
    assert!(matches!(next, SessionAction::ReadTarget(path) if path == "/work/vars.yml"));
    let next = session.next(content(PLAIN.as_bytes())).expect("unchanged file");
    assert!(matches!(next, SessionAction::InspectTarget(path) if path == "/work/vars.yml"));
    session
}

#[test]
fn files_are_encrypted_and_replaced() {
    let mut session = at_commit();
    let next = session.next(facts()).expect("facts");
    assert!(matches!(next, SessionAction::ReadTarget(path) if path == "/work/vars.yml"));
    let next = session.next(content(PLAIN.as_bytes())).expect("unchanged");
    assert!(matches!(next, SessionAction::Replace(path) if path == "/work/vars.yml"));
    let next = session.next(SessionEvent::Replaced(Ok(()))).expect("replaced");
    assert!(matches!(next, SessionAction::AwaitRefresh));
    let next = session.next(document(VAULT, 8)).expect("refreshed");
    assert!(matches!(next, SessionAction::Inform(message) if message == "Ansible Vault file operation completed"));
    assert!(session.next(document(VAULT, 8)).is_err());
}

#[test]
fn editors_that_show_an_old_text_are_warned_about() {
    for current in [document(PLAIN, 7), SessionEvent::Document(None)] {
        let mut session = at_commit();
        session.next(facts()).expect("facts");
        session.next(content(PLAIN.as_bytes())).expect("unchanged");
        session.next(SessionEvent::Replaced(Ok(()))).expect("replaced");
        let next = session.next(current).expect("not refreshed");
        assert!(matches!(next, SessionAction::Warn(message)
            if message == "The file was updated on disk, but the Zed buffer has not refreshed yet; reload the file before editing"));
    }
}

#[test]
fn changed_documents_and_files_are_left_alone() {
    let mut session = at_output();
    session.next(content(VAULT.as_bytes())).expect("result");
    assert!(matches!(session.next(document(PLAIN, 8)), Err(AppError::StaleDocument)));

    let mut session = at_output();
    session.next(content(VAULT.as_bytes())).expect("result");
    assert!(matches!(session.next(document("other: x\n", 7)), Err(AppError::StaleDocument)));

    let mut session = at_output();
    session.next(content(VAULT.as_bytes())).expect("result");
    assert!(matches!(
        session.next(SessionEvent::Document(None)),
        Err(AppError::StaleDocument)
    ));

    let changed = "The file changed on disk while the operation was running; retry the action";
    let mut session = at_output();
    session.next(content(VAULT.as_bytes())).expect("result");
    session.next(document(PLAIN, 7)).expect("unchanged");
    assert_eq!(told(session.next(content(b"other"))), changed);

    let mut session = at_commit();
    session.next(facts()).expect("facts");
    assert_eq!(told(session.next(content(b"other"))), changed);

    let mut session = at_commit();
    let link = SessionEvent::Inspected(Ok(FileFacts {
        symlink: true,
        regular: true,
        readonly: false,
        mode: 0o777,
    }));
    assert_eq!(told(session.next(link)), "Symlinked Vault files are not supported");

    let mut session = at_commit();
    session.next(facts()).expect("facts");
    session.next(content(PLAIN.as_bytes())).expect("unchanged");
    let refused = SessionEvent::Replaced(Err(AppError::filesystem("busy")));
    assert_eq!(told(session.next(refused)), "A filesystem operation failed: busy");
}

#[test]
fn results_have_to_be_text_and_runs_have_to_succeed() {
    let mut session = at_output();
    assert_eq!(told(session.next(content(&[0xff]))), "The Vault result is not valid UTF-8");

    let mut session = at_password(ActionOperation::DecryptFile, Some("/work/vars.yml"), VAULT);
    session.next(SessionEvent::Password(Ok("/pw".to_string()))).expect("password");
    session.next(facts()).expect("facts");
    session.next(content(VAULT.as_bytes())).expect("content");
    session.next(staged("/tmp/in")).expect("input");
    session.next(staged("/work/.out")).expect("output");
    assert_eq!(
        told(session.next(ran(false, b""))),
        "ansible-vault failed; verify the input, password source, and filesystem permissions"
    );
}

#[test]
fn unsaved_texts_are_not_processed() {
    let mut session = at_password(ActionOperation::EncryptFile, Some("/work/vars.yml"), PLAIN);
    session.next(SessionEvent::Password(Ok("/pw".to_string()))).expect("password");
    session.next(facts()).expect("facts");
    assert_eq!(
        told(session.next(content(b"secret: old\n"))),
        "The editor buffer has unsaved changes; save the file and retry"
    );
}

#[test]
fn headers_decide_what_can_be_done() {
    for (action, text, path, message) in [
        (ActionOperation::EncryptFile, VAULT, Some("/f"), "The file already has an Ansible Vault header"),
        (ActionOperation::EncryptFile, "$ANSIBLE_VAULT;9", Some("/f"), "The file already has an Ansible Vault header"),
        (ActionOperation::EncryptFile, PLAIN, None, "This action requires a saved file:// document"),
        (ActionOperation::DecryptFile, PLAIN, Some("/f"), "The file has no valid Ansible Vault header"),
        (ActionOperation::DecryptFile, VAULT, None, "This action requires a saved file:// document"),
        (ActionOperation::DecryptValue, PLAIN, Some("/f"), "Place the cursor inside exactly one !vault block"),
        (ActionOperation::EncryptValue, "# a longer comment\n", Some("/f"), "Place the cursor on a YAML key or inside its scalar value"),
    ] {
        let mut session = begin(action, path);
        session.next(document(text, 7)).expect("document");
        assert_eq!(told(session.next(settings())), message);
    }
}

#[test]
fn operations_need_an_open_document_in_the_same_version() {
    let mut session = begin(ActionOperation::EncryptValue, None);
    assert_eq!(
        told(session.next(SessionEvent::Document(None))),
        "The document is no longer open"
    );
    let mut session = begin(ActionOperation::EncryptValue, None);
    assert!(matches!(session.next(document(PLAIN, 8)), Err(AppError::StaleDocument)));
}

#[test]
fn refused_settings_end_the_operation() {
    let mut session = begin(ActionOperation::EncryptValue, None);
    session.next(document(PLAIN, 7)).expect("document");
    let refused = SessionEvent::Settings(Settings::default(), Some("Invalid".to_string()));
    assert_eq!(told(session.next(refused)), "Invalid");
}

#[test]
fn failed_checks_come_before_any_password() {
    let mut session = begin(ActionOperation::EncryptValue, None);
    session.next(document(PLAIN, 7)).expect("document");
    let next = session.next(settings()).expect("settings");
    assert!(matches!(next, SessionAction::Preflight(root, None) if root == "/work"));
    assert!(matches!(
        session.next(SessionEvent::Checked(Err(AppError::Timeout))),
        Err(AppError::Timeout)
    ));
    let mut session = at_password(ActionOperation::EncryptValue, None, PLAIN);
    assert!(matches!(
        session.next(SessionEvent::Password(Err(AppError::Cancelled))),
        Err(AppError::Cancelled)
    ));
}

#[test]
fn values_are_decrypted_through_a_private_file() {
    let text = "secret: !vault |\n  $ANSIBLE_VAULT;1.1;AES256\n  616263\nnext: ok\n";
    let mut session = at_password(ActionOperation::DecryptValue, Some("/work/vars.yml"), text);
    let next = session.next(SessionEvent::Password(Ok("/pw".to_string()))).expect("password");
    assert!(matches!(next, SessionAction::StageInput(bytes)
        if bytes == b"$ANSIBLE_VAULT;1.1;AES256\n616263\n"));
    let next = session.next(staged("/tmp/value")).expect("input");
    match next {
        SessionAction::Run(args, variables, input) => {
            assert_eq!(variables, work_variables());
            assert_eq!(args, vec!["view", "--vault-password-file", "/pw", "/tmp/value"]);
            assert_eq!(input, None);
        }
        other => panic!("{other:?}"),
    }
    let next = session.next(ran(true, b"true\n")).expect("run");
    assert!(matches!(next, SessionAction::ReadDocument));
    match session.next(document(text, 7)).expect("unchanged") {
        SessionAction::Edit(range, replacement, version) => {
            assert_eq!(range, Range::new(Position::new(0, 8), Position::new(2, 8)));
            assert_eq!(replacement, "'true'");
            assert_eq!(version, 7);
        }
        other => panic!("{other:?}"),
    }
}

#[test]
fn values_are_not_written_into_changed_documents() {
    let mut session = at_password(ActionOperation::EncryptValue, None, PLAIN);
    session.next(SessionEvent::Password(Ok("/pw".to_string()))).expect("password");
    let output = b"x: !vault |\n  $ANSIBLE_VAULT;1.1;AES256\n  61\n";
    session.next(ran(true, output)).expect("run");
    assert!(matches!(session.next(document(PLAIN, 9)), Err(AppError::StaleDocument)));
    let mut session = at_password(ActionOperation::EncryptValue, None, PLAIN);
    session.next(SessionEvent::Password(Ok("/pw".to_string()))).expect("password");
    assert_eq!(
        told(session.next(ran(true, b"nothing"))),
        "ansible-vault returned an invalid encrypted value"
    );
    let mut session = at_password(ActionOperation::EncryptValue, None, PLAIN);
    assert_eq!(told(session.next(facts())), "An internal extension error occurred");
}

#[test]
fn outputs_become_replacements() {
    assert_eq!(
        make_replacement(
            ActionOperation::EncryptValue,
            b"x: !vault |\n          $ANSIBLE_VAULT;1.1;AES256\n          61\n",
            "    "
        )
        .expect("value"),
        "!vault |\n    $ANSIBLE_VAULT;1.1;AES256\n    61"
    );
    assert_eq!(
        make_replacement(ActionOperation::DecryptValue, b"one\ntwo\n", "  ").expect("value"),
        "|-\n  one\n  two"
    );
}

#[test]
fn secrets_reach_a_run_as_input_alone() {
    let run_of = |text: &str| {
        let mut session = at_password(ActionOperation::EncryptValue, Some("/work/vars.yml"), text);
        match session.next(SessionEvent::Password(Ok("/pw".to_string()))).expect("password") {
            SessionAction::Run(args, variables, input) => (args, variables, input),
            other => panic!("{other:?}"),
        }
    };
    let (args, variables, input) = run_of("secret: first\n");
    let (other_args, other_variables, other_input) = run_of("secret: second\n");
    assert_eq!(args, other_args);
    assert_eq!(variables, other_variables);
    assert_eq!(variables, work_variables());
    assert_eq!(input.as_deref(), Some(b"first".as_slice()));
    assert_eq!(other_input.as_deref(), Some(b"second".as_slice()));
}
