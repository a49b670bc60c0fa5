use ansible_vault_lsp::config::{PromptBackendSetting, Settings};
use ansible_vault_lsp::error::{AppError, AppResult};
use ansible_vault_lsp::operation::Operation;
use ansible_vault_lsp::preflight::{
    required_options, resolve_executable, validate_executable, validate_help,
    validate_password_file, validate_password_read, ExecutableChoice, PasswordProvider, Preflight,
    PreflightAction, PreflightEvent,
};
use ansible_vault_lsp::process::ProcessOutput;
use ansible_vault_lsp::prompt::PromptBackend;
use ansible_vault_lsp::vault::FileFacts;

fn facts(regular: bool, mode: u32) -> Result<FileFacts, String> {
    Ok(FileFacts {
        symlink: false,
        regular,
        readonly: false,
        mode,
    })
}

fn output(success: bool, stdout: &str, stderr: &str) -> AppResult<ProcessOutput> {
    Ok(ProcessOutput {
        success,
        stdout: stdout.as_bytes().to_vec(),
        stderr: stderr.as_bytes().to_vec(),
    })
}

fn told<T>(result: AppResult<T>) -> String {
    match result {
        Ok(_) => panic!("an error was expected"),
        Err(error) => error.message(),
    }
}

fn configured() -> Settings {
    Settings {
        executable: "/opt/ansible-vault".to_string(),
        password_file: Some("password".to_string()),
        ..Settings::default()
    }
}

fn begin(settings: &Settings, operation: Operation, target: Option<&str>) -> Preflight {
    let (preflight, action) = Preflight::validate_environment(
        settings,
        operation,
        "/work",
        target.map(str::to_string),
        true,
    )
    .expect("start");
    assert!(matches!(action, PreflightAction::InspectExecutable(path) if path == "/opt/ansible-vault"));
    preflight
}

/// Brings the checks of a value operation to the help text.
fn at_help(settings: &Settings) -> Preflight {
    let mut preflight = begin(settings, Operation::EncryptValue, None);
    let action = preflight.next(PreflightEvent::Inspected(facts(true, 0o755))).expect("executable");
    assert!(matches!(action, PreflightAction::CreateWorkDirectory));
    let action = preflight.next(PreflightEvent::WorkDirectory(Ok(()))).expect("directory");
    assert!(matches!(action, PreflightAction::Run(_, args) if args == vec!["--version"]));
    let action = preflight.next(PreflightEvent::Ran(output(true, "1", ""))).expect("version");
    assert!(matches!(action, PreflightAction::Run(_, args) if args == vec!["encrypt_string", "--help"]));
    preflight
}

#[test]
fn operation_requires_only_relevant_options() {
    assert_eq!(
        required_options(Operation::EncryptValue, true),
        vec!["--vault-id", "--stdin-name"]
    );
    assert_eq!(
        required_options(Operation::DecryptFile, false),
        vec!["--vault-password-file", "--output"]
    );
}

#[test]
fn validates_a_fake_ansible_vault_without_prompting() {
    let settings = configured();
    let mut preflight = begin(&settings, Operation::EncryptFile, Some("/work/vars.yml"));
    preflight.next(PreflightEvent::Inspected(facts(true, 0o700))).expect("executable");
    let action = preflight.next(PreflightEvent::WorkDirectory(Ok(()))).expect("directory");
    assert!(matches!(action, PreflightAction::InspectTarget(path) if path == "/work/vars.yml"));
    let action = preflight.next(PreflightEvent::Inspected(facts(true, 0o644))).expect("target");
    assert!(matches!(action, PreflightAction::OpenTarget(path) if path == "/work/vars.yml"));
    let action = preflight.next(PreflightEvent::Opened(Ok(()))).expect("opened");
    assert!(matches!(action, PreflightAction::ProbeDirectory(path) if path == "/work"));
    preflight.next(PreflightEvent::Probed(Ok(()))).expect("probed");
    preflight.next(PreflightEvent::Ran(output(true, "ansible-vault-test\n", ""))).expect("version");
    let action = preflight
        .next(PreflightEvent::Ran(output(true, "--output --vault-password-file\n", "")))
        .expect("help");
    assert!(matches!(action, PreflightAction::LocatePasswordFile(path) if path == "/work/password"));
    let action = preflight
        .next(PreflightEvent::Located(Ok("/real/password".to_string())))
        .expect("located");
    assert!(matches!(action, PreflightAction::InspectPasswordFile(path) if path == "/real/password"));
    preflight.next(PreflightEvent::Inspected(facts(true, 0o600))).expect("password file");
    let ready = preflight.next(PreflightEvent::Read(Ok(Ok(true)))).expect("valid environment");
    match ready {
        PreflightAction::Ready(executable, PasswordProvider::File(path), warnings) => {
            assert_eq!(executable, "/opt/ansible-vault");
            assert_eq!(path, "/real/password");
            assert!(warnings.is_empty());
        }
        other => panic!("{other:?}"),
    }
    assert!(preflight.next(PreflightEvent::Found(None)).is_err());
}

#[test]
fn rejects_missing_and_empty_password_files() {
    let settings = configured();
    let mut preflight = at_help(&settings);
    preflight
        .next(PreflightEvent::Ran(output(true, "", "--stdin-name --vault-password-file")))
        .expect("help");
    assert_eq!(
        told(preflight.next(PreflightEvent::Located(Err("missing".to_string())))),
        "Cannot access password file /work/password: missing"
    );
    assert_eq!(
        told(validate_password_read("/pw", &Ok(Ok(false)))),
        "Password file /pw is empty"
    );
    assert_eq!(
        told(validate_password_read("/pw", &Err("denied".to_string()))),
        "Password file /pw is not readable: denied"
    );
    assert_eq!(
        told(validate_password_read("/pw", &Ok(Err("io".to_string())))),
        "A filesystem operation failed: io"
    );
    assert!(validate_password_read("/pw", &Ok(Ok(true))).is_ok());
    assert_eq!(
        told(validate_password_file("/pw", &facts(false, 0o600))),
        "Password file /pw is not a regular file"
    );
    assert_eq!(
        told(validate_password_file("/pw", &Err("io".to_string()))),
        "A filesystem operation failed: io"
    );
    assert!(validate_password_file("/pw", &facts(true, 0o600)).is_ok());
}

#[test]
fn executables_are_paths_or_names() {
    assert_eq!(
        resolve_executable("/opt/av").expect("path"),
        ExecutableChoice::At("/opt/av".to_string())
    );
    assert_eq!(
        resolve_executable("ansible-vault").expect("name"),
        ExecutableChoice::InPath("ansible-vault".to_string())
    );
    assert_eq!(told(resolve_executable(" ")), "ansibleVault.executable must not be empty");
    assert_eq!(
        told(resolve_executable("bin/ansible-vault")),
        "ansibleVault.executable must be an absolute path or a command name from PATH"
    );
    assert_eq!(
        told(validate_executable("/x", &Err("gone".to_string()))),
        "Cannot access ansible-vault at /x: gone"
    );
    assert_eq!(told(validate_executable("/x", &facts(false, 0o755))), "/x is not a regular file");
    assert_eq!(told(validate_executable("/x", &facts(true, 0o644))), "/x is not executable");
    assert!(validate_executable("/x", &facts(true, 0o100)).is_ok());
}

#[test]
fn commands_are_looked_for_in_the_search_path() {
    let settings = Settings::default();
    let (mut preflight, action) =
        Preflight::validate_environment(&settings, Operation::DecryptValue, "/w", None, true)
            .expect("start");
    assert!(matches!(action, PreflightAction::FindInPath(name) if name == "ansible-vault"));
    let action = preflight
        .next(PreflightEvent::Found(Some("/usr/bin/ansible-vault".to_string())))
        .expect("found");
    assert!(matches!(action, PreflightAction::InspectExecutable(path) if path == "/usr/bin/ansible-vault"));

    let (mut preflight, _) =
        Preflight::validate_environment(&settings, Operation::DecryptValue, "/w", None, true)
            .expect("start");
    assert_eq!(
        told(preflight.next(PreflightEvent::Found(None))),
        "Cannot find 'ansible-vault' in PATH; install ansible-core or configure ansibleVault.executable"
    );
    assert_eq!(
        told(Preflight::validate_environment(&settings, Operation::DecryptValue, "/w", None, false)),
        "Ansible Vault extension supports macOS and Linux only"
    );
}

#[test]
fn help_has_to_mention_every_option() {
    let help = output(true, "--vault-id", "").expect("output");
    assert_eq!(
        told(validate_help(Operation::EncryptValue, true, &help)),
        "The installed ansible-vault 'encrypt_string' command does not support required option --stdin-name"
    );
    assert!(validate_help(Operation::DecryptValue, true, &help).is_ok());
    let help = output(false, "", "").expect("output");
    assert_eq!(
        told(validate_help(Operation::DecryptFile, true, &help)),
        "ansible-vault does not provide a working 'decrypt' command"
    );
    let settings = configured();
    let mut preflight = at_help(&settings);
    assert!(matches!(
        preflight.next(PreflightEvent::Ran(Err(AppError::Timeout))),
        Err(AppError::Timeout)
    ));
}

#[test]
fn targets_have_to_be_replaceable() {
    let settings = configured();
    let inspect = |facts: Result<FileFacts, String>| {
        let mut preflight = begin(&settings, Operation::DecryptFile, Some("/work/a.yml"));
        preflight.next(PreflightEvent::Inspected(Ok(FileFacts { symlink: false, regular: true, readonly: false, mode: 0o755 }))).expect("executable");
        preflight.next(PreflightEvent::WorkDirectory(Ok(()))).expect("directory");
        let result = preflight.next(PreflightEvent::Inspected(facts));
        (preflight, result)
    };
    assert_eq!(
        told(inspect(Err("gone".to_string())).1),
        "Cannot access target file /work/a.yml: gone"
    );
    let link = Ok(FileFacts { symlink: true, regular: false, readonly: false, mode: 0o777 });
    assert_eq!(told(inspect(link).1), "Symlinked Vault files are not supported");
    assert_eq!(
        told(inspect(facts(false, 0o755)).1),
        "Only regular files can be encrypted or decrypted"
    );
    let (mut preflight, result) = inspect(facts(true, 0o444));
    result.expect("readable");
    assert_eq!(
        told(preflight.next(PreflightEvent::Opened(Ok(())))),
        "The target file is read-only"
    );
    let (mut preflight, _) = inspect(facts(true, 0o644));
    assert_eq!(
        told(preflight.next(PreflightEvent::Opened(Err("denied".to_string())))),
        "The target file is not readable: denied"
    );
    let (mut preflight, _) = inspect(facts(true, 0o644));
    preflight.next(PreflightEvent::Opened(Ok(()))).expect("opened");
    assert_eq!(
        told(preflight.next(PreflightEvent::Probed(Err("full".to_string())))),
        "The target directory /work is not writable: full"
    );
    let mut preflight = begin(&settings, Operation::EncryptFile, None);
    preflight.next(PreflightEvent::Inspected(facts(true, 0o755))).expect("executable");
    assert_eq!(
        told(preflight.next(PreflightEvent::WorkDirectory(Ok(())))),
        "A saved file:// document is required for this operation"
    );
    let mut preflight = begin(&settings, Operation::EncryptFile, Some("/"));
    preflight.next(PreflightEvent::Inspected(facts(true, 0o755))).expect("executable");
    assert_eq!(
        told(preflight.next(PreflightEvent::WorkDirectory(Err("full".to_string())))),
        "A filesystem operation failed: full"
    );
}

#[test]
fn a_root_has_no_directory() {
    let settings = configured();
    let mut preflight = begin(&settings, Operation::EncryptFile, Some("/"));
    preflight.next(PreflightEvent::Inspected(facts(true, 0o755))).expect("executable");
    preflight.next(PreflightEvent::WorkDirectory(Ok(()))).expect("directory");
    preflight.next(PreflightEvent::Inspected(facts(true, 0o644))).expect("target");
    assert_eq!(
        told(preflight.next(PreflightEvent::Opened(Ok(())))),
        "The target file has no parent directory"
    );
}

#[test]
fn ansible_vault_has_to_start() {
    let settings = configured();
    let mut preflight = begin(&settings, Operation::DecryptValue, None);
    preflight.next(PreflightEvent::Inspected(facts(true, 0o755))).expect("executable");
    preflight.next(PreflightEvent::WorkDirectory(Ok(()))).expect("directory");
    assert_eq!(
        told(preflight.next(PreflightEvent::Ran(output(false, "", "")))),
        "ansible-vault was found but failed to start; check its Python environment and temporary-directory configuration"
    );
}

#[test]
fn exposed_password_files_are_warned_about() {
    let settings = configured();
    let mut preflight = at_help(&settings);
    preflight
        .next(PreflightEvent::Ran(output(true, "--stdin-name --vault-password-file", "")))
        .expect("help");
    preflight.next(PreflightEvent::Located(Ok("/pw".to_string()))).expect("located");
    preflight.next(PreflightEvent::Inspected(facts(true, 0o640))).expect("inspected");
    match preflight.next(PreflightEvent::Read(Ok(Ok(true)))).expect("ready") {
        PreflightAction::Ready(_, _, warnings) => assert_eq!(
            warnings,
            vec!["Password file /pw is readable or writable by group/other users"]
        ),
        other => panic!("{other:?}"),
    }
}

#[test]
fn the_user_is_asked_only_without_a_password_file() {
    let settings = Settings {
        executable: "/opt/ansible-vault".to_string(),
        prompt_backend: PromptBackendSetting::Yad,
        ..Settings::default()
    };
    let mut preflight = at_help(&settings);
    let action = preflight
        .next(PreflightEvent::Ran(output(true, "--stdin-name --vault-password-file", "")))
        .expect("help");
    assert!(matches!(action, PreflightAction::DiscoverPrompt(PromptBackendSetting::Yad)));
    let backend = PromptBackend::Yad("/usr/bin/yad".to_string());
    match preflight.next(PreflightEvent::Prompt(Ok(backend))).expect("ready") {
        PreflightAction::Ready(_, PasswordProvider::Prompt(found), warnings) => {
            assert_eq!(found.executable(), "/usr/bin/yad");
            assert!(warnings.is_empty());
        }
        other => panic!("{other:?}"),
    }
    let empty = Settings {
        executable: "/opt/ansible-vault".to_string(),
        password_file: Some(" ".to_string()),
        ..Settings::default()
    };
    let mut preflight = at_help(&empty);
    assert_eq!(
        told(preflight.next(PreflightEvent::Ran(output(true, "--stdin-name --vault-password-file", "")))),
        "ansibleVault.passwordFile must not be empty"
    );
    let mut preflight = at_help(&settings);
    assert_eq!(
        told(preflight.next(PreflightEvent::Found(None))),
        "An internal extension error occurred"
    );
}
