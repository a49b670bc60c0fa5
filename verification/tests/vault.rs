use ansible_vault_lsp::bytes::{has_word, lowered_bytes_of, same_bytes};
use ansible_vault_lsp::config::Settings;
use ansible_vault_lsp::digest::{hash_bytes, hex_of, same_hash};
use ansible_vault_lsp::error::AppError;
use ansible_vault_lsp::operation::{ActionOperation, Operation};
use ansible_vault_lsp::process::ProcessOutput;
use ansible_vault_lsp::validation::is_vault_file_candidate;
use ansible_vault_lsp::vault::{
    append_password_args, check_unchanged, checked_output, decrypt_value_args, decrypted_value,
    encrypt_value_args, file_operation_args, is_vault_file, original_hash, parse_encrypt_string,
    password_file_content, result_hash, validate_target_file, FileFacts,
};

fn failed(stderr: &str) -> ProcessOutput {
    ProcessOutput {
        success: false,
        stdout: Vec::new(),
        stderr: stderr.as_bytes().to_vec(),
    }
}

fn facts(symlink: bool, regular: bool, readonly: bool, mode: u32) -> FileFacts {
    FileFacts {
        symlink,
        regular,
        readonly,
        mode,
    }
}

#[test]
fn builds_password_arguments_without_secret() {
    let settings = Settings {
        vault_id: Some("dev".into()),
        ..Settings::default()
    };
    let mut args = Vec::new();
    append_password_args(&mut args, &settings, "/tmp/password");
    assert_eq!(
        args,
        vec!["--vault-id".to_string(), "dev@/tmp/password".to_string()]
    );
    assert!(!args.iter().any(|arg| arg == "actual-secret"));
}

#[test]
fn parses_encrypt_string_output() {
    let output = b"__zed_vault_value__: !vault |\n          $ANSIBLE_VAULT;1.1;AES256\n          616263\n";
    assert_eq!(
        parse_encrypt_string(output).expect("payload"),
        "$ANSIBLE_VAULT;1.1;AES256\n616263\n"
    );
}

#[test]
fn validates_vault_headers() {
    assert!(is_vault_file("$ANSIBLE_VAULT;1.1;AES256\n616263\n"));
    assert!(is_vault_file("$ANSIBLE_VAULT;1.2;AES256;dev\n616263\n"));
    assert!(!is_vault_file("$ANSIBLE_VAULT;1.2;AES256\n616263\n"));
    assert!(!is_vault_file("$ANSIBLE_VAULT;2.0;AES256\n616263\n"));
}

#[test]
fn headers_have_to_be_exact() {
    assert!(is_vault_file("$ANSIBLE_VAULT;1.1;AES256"));
    assert!(is_vault_file("$ANSIBLE_VAULT;1.1;AES256\r\r\n61"));
    for text in [
        "",
        "\n",
        " $ANSIBLE_VAULT;1.1;AES256\n",
        "$ANSIBLE_VAULT;1.1;AES256;x\n",
        "$ANSIBLE_VAULT;1.2;AES256;\n",
        "$ANSIBLE_VAULT;1.2;AES256;a;b\n",
        "$ANSIBLE_VAULT;1.1;aes256\n",
        "\n$ANSIBLE_VAULT;1.1;AES256\n",
    ] {
        assert!(!is_vault_file(text), "{text:?}");
    }
}

#[test]
fn every_vault_file_is_a_candidate() {
    for text in [
        "$ANSIBLE_VAULT;1.1;AES256\n61\n",
        "$ANSIBLE_VAULT;1.2;AES256;dev\r\n61\n",
        "$ANSIBLE_VAULT;1.2;AES256; \n61\n",
        "$ANSIBLE_VAULT;1.1;AES256\r\r\n",
    ] {
        assert!(is_vault_file(text), "{text:?}");
        assert!(is_vault_file_candidate(text), "{text:?}");
    }
}

#[test]
fn says_what_is_wrong_with_encrypt_string_output() {
    assert_eq!(
        parse_encrypt_string(&[0xff, 0xfe]).expect_err("not text").message(),
        "ansible-vault returned invalid text"
    );
    for output in ["", "no marker\n", "x: !vault |\n", "x: !vault |\n  616263\n"] {
        assert_eq!(
            parse_encrypt_string(output.as_bytes()).expect_err("no payload").message(),
            "ansible-vault returned an invalid encrypted value"
        );
    }
    assert_eq!(
        parse_encrypt_string(b"note\n  x: !vault |\r\n\n\t$ANSIBLE_VAULT;1.1;AES256\r\n\n 61\n").expect("payload"),
        "$ANSIBLE_VAULT;1.1;AES256\n61\n"
    );
}

#[test]
fn takes_exactly_one_display_line_end_off() {
    for (shown, value) in [
        ("secret\n", "secret"),
        ("secret\r\n", "secret\r"),
        ("secret\n\n", "secret\n"),
        ("a\n\n", "a\n"),
        ("a\r\n\n", "a\r\n"),
        ("secret", "secret"),
        ("secret\r", "secret\r"),
        ("\n", ""),
        ("", ""),
    ] {
        assert_eq!(decrypted_value(shown.as_bytes()).expect("value"), value);
    }
    assert_eq!(
        decrypted_value(&[0xc3, 0x28]).expect_err("not text").message(),
        "The decrypted Vault value is not valid UTF-8"
    );
}

#[test]
fn reads_failures_off_the_error_text() {
    let good = ProcessOutput {
        success: true,
        stdout: b"x".to_vec(),
        stderr: b"decrypt".to_vec(),
    };
    assert_eq!(checked_output(good).expect("success").stdout, b"x");
    for text in [
        "ERROR! Decryption failed",
        "no VAULT secrets found",
        "Incorrect vault password",
        "input is not vault encrypted data",
        "Vault format unhexlify error",
    ] {
        assert!(matches!(checked_output(failed(text)), Err(AppError::VaultRejected)), "{text}");
    }
    for text in ["error: Unknown option: x", "error: unrecognized arguments: --x"] {
        assert_eq!(
            checked_output(failed(text)).expect_err("unsupported").message(),
            "The installed ansible-vault does not support this operation"
        );
    }
    assert_eq!(
        checked_output(failed("boom")).expect_err("failed").message(),
        "ansible-vault failed; verify the input, password source, and filesystem permissions"
    );
    assert_eq!(
        AppError::VaultRejected.message(),
        "Ansible Vault rejected the password or encrypted data"
    );
}

#[test]
fn words_are_found_among_bytes() {
    assert!(has_word(b"xx\xffdecrypt", "decrypt"));
    assert!(!has_word(b"decryp", "decrypt"));
    assert!(has_word(b"", ""));
    assert!(!has_word(b"", "a"));
    assert_eq!(lowered_bytes_of(b"AbZ\xc3["), b"abz\xc3[".to_vec());
    assert!(same_bytes(b"ab", b"ab"));
    assert!(!same_bytes(b"ab", b"ac"));
    assert!(!same_bytes(b"ab", b"a"));
    let noisy = [b"no ".as_slice(), &[0xf0, 0x9f], b"vault secrets"].concat();
    assert!(!has_word(&noisy, "no vault secrets"));
    assert_eq!(
        String::from_utf8_lossy(&noisy).contains("no vault secrets"),
        has_word(&noisy, "no vault secrets")
    );
}

#[test]
fn builds_the_arguments_of_every_run() {
    let plain = Settings::default();
    let labelled = Settings {
        vault_id: Some("dev".to_string()),
        ..Settings::default()
    };
    assert_eq!(
        encrypt_value_args(&plain, "/pw"),
        vec!["encrypt_string", "--vault-password-file", "/pw", "--stdin-name", "__zed_vault_value__"]
    );
    assert_eq!(
        decrypt_value_args(&labelled, "/pw", "/in"),
        vec!["view", "--vault-id", "dev@/pw", "/in"]
    );
    assert_eq!(
        file_operation_args(Operation::EncryptFile, &plain, "/pw", "/out", "/in").expect("args"),
        vec!["encrypt", "--vault-password-file", "/pw", "--output", "/out", "/in"]
    );
    assert_eq!(
        file_operation_args(Operation::DecryptFile, &labelled, "/pw", "/out", "/in").expect("args"),
        vec!["decrypt", "--vault-id", "dev@/pw", "--output", "/out", "/in"]
    );
    assert_eq!(
        file_operation_args(Operation::DecryptValue, &plain, "/pw", "/out", "/in")
            .expect_err("no file operation")
            .message(),
        "Invalid file operation"
    );
    assert_eq!(Operation::from(ActionOperation::DecryptValue), Operation::DecryptValue);
    assert_eq!(Operation::EncryptValue.subcommand(), "encrypt_string");
    assert_eq!(password_file_content("p\u{e9}"), b"p\xc3\xa9\n".to_vec());
}

#[test]
fn digests_are_sha_256() {
    let hash = hash_bytes(b"abc");
    assert_eq!(
        hex_of(&hash),
        "ba7816bf8f01cfea414140de5dae2223b00361a396177a9cb410ff61f20015ad"
    );
    assert_eq!(
        hex_of(&hash_bytes(b"")),
        "e3b0c44298fc1c149afbf4c8996fb92427ae41e4649b934ca495991b7852b855"
    );
    assert!(same_hash(&hash, &hash_bytes(b"abc")));
    assert!(!same_hash(&hash, &hash_bytes(b"abd")));
    assert_eq!(hex_of(&[0x00, 0x0f, 0xa5]), "000fa5");
}

#[test]
fn only_saved_text_files_are_worked_on() {
    let hash = original_hash(b"text\n", "text\n").expect("saved");
    assert!(same_hash(&hash, &hash_bytes(b"text\n")));
    assert_eq!(
        original_hash(b"text\n", "text").expect_err("unsaved").message(),
        "The editor buffer has unsaved changes; save the file and retry"
    );
    assert_eq!(
        original_hash(&[0xff], "x").expect_err("binary").message(),
        "Non-UTF-8 files are not supported"
    );
    assert!(same_hash(&result_hash(b"out").expect("text"), &hash_bytes(b"out")));
    assert_eq!(
        result_hash(&[0x80]).expect_err("binary").message(),
        "The Vault result is not valid UTF-8"
    );
}

#[test]
fn rejects_read_only_and_symlinked_targets() {
    assert!(validate_target_file(facts(false, true, true, 0o100400)).is_err());
    assert!(validate_target_file(facts(false, true, false, 0o100400)).is_err());
    assert!(validate_target_file(facts(true, false, false, 0o120777)).is_err());
    assert!(validate_target_file(facts(false, true, false, 0o100600)).is_ok());
    assert_eq!(
        validate_target_file(facts(true, true, false, 0o777)).expect_err("link").message(),
        "Symlinked Vault files are not supported"
    );
    assert_eq!(
        validate_target_file(facts(false, false, false, 0o777)).expect_err("directory").message(),
        "Only regular files can be encrypted or decrypted"
    );
    assert_eq!(
        validate_target_file(facts(false, true, false, 0o444)).expect_err("read-only").message(),
        "The target file is read-only"
    );
}

#[test]
fn prepared_file_refuses_to_replace_a_concurrently_changed_target() {
    let original = hash_bytes(b"original\n");
    assert!(check_unchanged(b"original\n", &original).is_ok());
    assert_eq!(
        check_unchanged(b"changed\n", &original).expect_err("changed").message(),
        "The file changed on disk while the operation was running; retry the action"
    );
}

#[test]
fn errors_tell_the_user_what_happened() {
    assert_eq!(AppError::user("plain").message(), "plain");
    assert_eq!(AppError::user(String::from("owned")).message(), "owned");
    assert_eq!(
        AppError::filesystem("no space").message(),
        "A filesystem operation failed: no space"
    );
    assert_eq!(AppError::Cancelled.message(), "Operation cancelled");
    assert_eq!(AppError::Timeout.message(), "The operation timed out");
    assert_eq!(
        AppError::StaleDocument.message(),
        "The document changed while the operation was running; retry the action"
    );
    assert_eq!(
        AppError::Internal("detail".to_string()).message(),
        "An internal extension error occurred"
    );
}
