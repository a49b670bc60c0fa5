use ansible_vault_lsp::active::ActiveOperations;
use ansible_vault_lsp::error::AppError;

const BUSY: &str = "Another Ansible Vault operation is already running for this document";

#[test]
fn one_operation_at_a_time() {
    let mut operations = ActiveOperations::new();
    assert!(!operations.is_taken("file:///a"));
    assert!(operations.begin("file:///a").is_ok());
    assert!(operations.is_taken("file:///a"));
    assert_eq!(operations.begin("file:///a").expect_err("busy").message(), BUSY);
    assert!(operations.is_taken("file:///a"));
    assert!(operations.begin("file:///b").is_ok());
    assert_eq!(operations.begin("file:///b").expect_err("busy").message(), BUSY);
}

#[test]
fn success_and_failure_free_the_document() {
    let mut operations = ActiveOperations::new();
    for document in ["file:///a", "file:///b", "file:///c"] {
        assert!(operations.begin(document).is_ok());
    }
    assert!(operations.finish("file:///b", Ok(())).is_ok());
    assert!(!operations.is_taken("file:///b"));
    let outcome = operations.finish("file:///a", Err(AppError::Timeout));
    assert!(matches!(outcome, Err(AppError::Timeout)));
    assert!(!operations.is_taken("file:///a"));
    assert!(operations.is_taken("file:///c"));
    assert!(operations.begin("file:///a").is_ok());
    assert!(operations.begin("file:///b").is_ok());
    assert_eq!(operations.begin("file:///c").expect_err("busy").message(), BUSY);
    assert!(operations.finish("file:///other", Ok(())).is_ok());
    assert!(operations.is_taken("file:///c"));
}
