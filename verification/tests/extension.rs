use ansible_vault_lsp::digest::{hash_bytes, hex_of};
use ansible_vault_lsp::extension::{
    asset_name_for, choose_assets, configured_command, expected_checksum, install_directory,
    installed_paths, release_tag, release_version_matches, staging_path, verified_installed_binary,
    verify_checksum, Architecture, Os, ReleaseAsset,
};
use ansible_vault_lsp::install::{InstallAction, InstallEvent, Installation};

fn asset(name: &str) -> ReleaseAsset {
    ReleaseAsset {
        name: name.to_string(),
        download_url: format!("https://example.test/{name}"),
    }
}

fn assets() -> Vec<ReleaseAsset> {
    vec![
        asset("notes"),
        asset("ansible-vault-lsp-linux-x86_64"),
        asset("ansible-vault-lsp-linux-x86_64.sha256"),
    ]
}

fn done() -> InstallEvent {
    InstallEvent::Done(Ok(()))
}

fn failed(reason: &str) -> InstallEvent {
    InstallEvent::Done(Err(reason.to_string()))
}

/// Brings an installation to the answer about the installed server.
fn at_installed() -> Installation {
    let (mut installation, action) = Installation::install_server(None, Os::Linux, Architecture::X8664);
    assert!(matches!(action, Ok(InstallAction::FetchRelease(tag)) if tag == "v0.2.0"));
    let action = installation.next(InstallEvent::Release(Ok(("v0.2.0".to_string(), assets()))));
    assert!(matches!(action, Ok(InstallAction::VerifyInstalled(path)) if path == "ansible-vault-lsp-0.2.0"));
    installation
}

/// Brings an installation to the first download.
fn at_download() -> Installation {
    let mut installation = at_installed();
    installation.next(InstallEvent::Verified(false)).expect("not installed");
    installation.next(done()).expect("no stale download");
    installation.next(done()).expect("staging directory");
    installation
}

#[test]
fn release_is_pinned_to_extension_version() {
    assert_eq!(release_tag(), "v0.2.0");
    assert!(release_version_matches("v0.2.0"));
    assert!(release_version_matches("0.2.0"));
    assert!(!release_version_matches("v0.2.1"));
}

#[test]
fn platform_assets_follow_the_release_contract() {
    assert_eq!(
        asset_name_for(Os::Mac, Architecture::Aarch64).expect("macOS asset"),
        "ansible-vault-lsp-darwin-aarch64"
    );
    assert_eq!(
        asset_name_for(Os::Linux, Architecture::X8664).expect("Linux asset"),
        "ansible-vault-lsp-linux-x86_64"
    );
    assert!(asset_name_for(Os::Windows, Architecture::X8664).is_err());
}

#[test]
fn cached_install_requires_matching_checksum() {
    let digest = hex_of(&hash_bytes(b"server"));
    let checksum = Ok(format!("{digest}  release-asset\n"));
    let right = verify_checksum(&checksum, &Ok(b"server".to_vec()));
    assert_eq!(
        verified_installed_binary("/cache", true, true, &right),
        Some(installed_paths("/cache").0)
    );
    let wrong = verify_checksum(&checksum, &Ok(b"tampered".to_vec()));
    assert!(verified_installed_binary("/cache", true, true, &wrong).is_none());
}

#[test]
fn staging_directory_does_not_drop_the_patch_version() {
    assert_eq!(
        staging_path("ansible-vault-lsp-0.2.0"),
        "ansible-vault-lsp-0.2.0.staging"
    );
}

#[test]
fn malformed_checksum_is_rejected() {
    assert!(verify_checksum(&Ok("not-a-digest\n".to_string()), &Ok(b"server".to_vec())).is_err());
}

#[test]
fn missing_checksum_never_counts_as_an_installed_server() {
    let missing = verify_checksum(&Err("not found".to_string()), &Ok(b"server".to_vec()));
    assert!(verified_installed_binary("/cache", true, false, &missing).is_none());
}

#[test]
fn interrupted_staging_download_is_removed_before_retry() {
    let mut installation = at_installed();
    let action = installation.next(InstallEvent::Verified(false)).expect("not installed");
    assert!(matches!(action, InstallAction::RemoveStale(path) if path == "ansible-vault-lsp-0.2.0.staging"));
    let action = installation.next(done()).expect("removed");
    assert!(matches!(action, InstallAction::CreateStaging(path) if path == "ansible-vault-lsp-0.2.0.staging"));
    let action = installation.next(done()).expect("made");
    assert!(matches!(action, InstallAction::Download(address, path)
        if address == "https://example.test/ansible-vault-lsp-linux-x86_64"
            && path == "ansible-vault-lsp-0.2.0.staging/ansible-vault-lsp"));
}

#[test]
fn names_of_installed_files() {
    assert_eq!(install_directory(), "ansible-vault-lsp-0.2.0");
    assert_eq!(
        installed_paths("dir"),
        (
            "dir/ansible-vault-lsp".to_string(),
            "dir/ansible-vault-lsp.sha256".to_string()
        )
    );
    assert_eq!(
        asset_name_for(Os::Windows, Architecture::X8664),
        Err("Ansible Vault extension 0.2.0 supports macOS and Linux only".to_string())
    );
    assert_eq!(
        asset_name_for(Os::Linux, Architecture::X86),
        Err("32-bit platforms are not supported by Ansible Vault extension".to_string())
    );
    assert_eq!(
        asset_name_for(Os::Mac, Architecture::X8664),
        Ok("ansible-vault-lsp-darwin-x86_64".to_string())
    );
}

#[test]
fn checksum_files_hold_one_digest_first() {
    let digest = "BA7816BF8F01CFEA414140DE5DAE2223B00361A396177A9CB410FF61F20015AD";
    assert_eq!(
        expected_checksum(&Ok(format!("\n  {digest} *file\n"))),
        Ok(digest.to_lowercase())
    );
    assert_eq!(
        expected_checksum(&Ok(" \n".to_string())),
        Err("server checksum file is empty".to_string())
    );
    assert_eq!(
        expected_checksum(&Ok(format!("{digest}0"))),
        Err("server checksum is not a valid SHA-256 digest".to_string())
    );
    assert_eq!(
        expected_checksum(&Ok(digest.replace('F', "G"))),
        Err("server checksum is not a valid SHA-256 digest".to_string())
    );
    assert_eq!(
        expected_checksum(&Err("denied".to_string())),
        Err("failed to read server checksum: denied".to_string())
    );
    assert_eq!(verify_checksum(&Ok(digest.to_string()), &Ok(b"abc".to_vec())), Ok(()));
    assert_eq!(
        verify_checksum(&Ok(digest.to_string()), &Err("gone".to_string())),
        Err("failed to read downloaded language server: gone".to_string())
    );
    assert_eq!(
        verify_checksum(&Ok(digest.to_string()), &Ok(Vec::new())),
        Err(format!(
            "language server checksum mismatch: expected {}, got e3b0c44298fc1c149afbf4c8996fb92427ae41e4649b934ca495991b7852b855",
            digest.to_lowercase()
        ))
    );
}

#[test]
fn releases_have_to_hold_both_files() {
    let name = "ansible-vault-lsp-linux-x86_64";
    assert_eq!(
        choose_assets("0.2.0", &assets(), name),
        Ok((
            format!("https://example.test/{name}"),
            format!("https://example.test/{name}.sha256")
        ))
    );
    assert_eq!(
        choose_assets("v0.3.0", &assets(), name),
        Err("GitHub returned release v0.3.0 while v0.2.0 was requested".to_string())
    );
    assert_eq!(
        choose_assets("v0.2.0", &vec![asset("notes")], name),
        Err(format!("release v0.2.0 has no asset {name}"))
    );
    assert_eq!(
        choose_assets("v0.2.0", &vec![asset(name)], name),
        Err(format!("release v0.2.0 has no asset {name}.sha256"))
    );
}

#[test]
fn configured_servers_come_first() {
    assert_eq!(configured_command(None, Some(vec!["x".to_string()])), None);
    assert_eq!(
        configured_command(Some("/bin/x".to_string()), None),
        Some(("/bin/x".to_string(), Vec::new()))
    );
    assert_eq!(
        configured_command(Some("/bin/x".to_string()), Some(vec!["-v".to_string()])),
        Some(("/bin/x".to_string(), vec!["-v".to_string()]))
    );
}

#[test]
fn a_new_server_is_checked_before_it_is_used() {
    let mut installation = at_download();
    let action = installation.next(done()).expect("binary");
    assert!(matches!(action, InstallAction::Download(address, path)
        if address.ends_with(".sha256") && path == "ansible-vault-lsp-0.2.0.staging/ansible-vault-lsp.sha256"));
    let action = installation.next(done()).expect("checksum");
    assert!(matches!(action, InstallAction::VerifyStaged(_, _)));
    let action = installation.next(done()).expect("verified");
    assert!(matches!(action, InstallAction::MakeExecutable(path)
        if path == "ansible-vault-lsp-0.2.0.staging/ansible-vault-lsp"));
    let action = installation.next(done()).expect("executable");
    assert!(matches!(action, InstallAction::RemoveInstalled(path) if path == "ansible-vault-lsp-0.2.0"));
    let action = installation.next(done()).expect("removed");
    assert!(matches!(action, InstallAction::Activate(from, to)
        if from == "ansible-vault-lsp-0.2.0.staging" && to == "ansible-vault-lsp-0.2.0"));
    let action = installation.next(done()).expect("activated");
    assert!(matches!(action, InstallAction::CurrentDirectory));
    let action = installation
        .next(InstallEvent::Directory(Ok("/ext".to_string())))
        .expect("directory");
    assert!(matches!(action, InstallAction::Use(path) if path == "/ext/ansible-vault-lsp-0.2.0/ansible-vault-lsp"));
    assert_eq!(
        installation.cached_server_path().as_deref(),
        Some("/ext/ansible-vault-lsp-0.2.0/ansible-vault-lsp")
    );
    assert!(installation.next(done()).is_err());
}

#[test]
fn failed_downloads_leave_nothing_behind() {
    for (steps, reason, told) in [
        (0, "offline", "offline"),
        (1, "offline", "offline"),
        (2, "language server checksum mismatch", "language server checksum mismatch"),
        (3, "denied", "denied"),
        (4, "busy", "failed to replace invalid server installation: busy"),
        (5, "busy", "failed to activate language server: busy"),
    ] {
        let mut installation = at_download();
        for _ in 0..steps {
            installation.next(done()).expect("step");
        }
        let action = installation.next(failed(reason)).expect("clean up");
        assert!(matches!(action, InstallAction::CleanUp(path) if path == "ansible-vault-lsp-0.2.0.staging"));
        assert_eq!(installation.next(failed("ignored")).expect_err("reason"), told);
        assert_eq!(installation.cached_server_path(), None);
    }
}

#[test]
fn installed_servers_are_used_without_a_download() {
    let mut installation = at_installed();
    let action = installation.next(InstallEvent::Verified(true)).expect("installed");
    assert!(matches!(action, InstallAction::MakeExecutable(path) if path == "ansible-vault-lsp-0.2.0/ansible-vault-lsp"));
    let action = installation.next(done()).expect("executable");
    assert!(matches!(action, InstallAction::CurrentDirectory));
    assert_eq!(
        installation
            .next(InstallEvent::Directory(Err("gone".to_string())))
            .expect_err("no directory"),
        "failed to resolve extension directory: gone"
    );
    let mut installation = at_installed();
    installation.next(InstallEvent::Verified(true)).expect("installed");
    assert_eq!(installation.next(failed("denied")).expect_err("denied"), "denied");
}

#[test]
fn staging_failures_are_told() {
    let mut installation = at_installed();
    installation.next(InstallEvent::Verified(false)).expect("not installed");
    assert_eq!(
        installation.next(failed("busy")).expect_err("stale"),
        "failed to remove stale server download: busy"
    );
    let mut installation = at_installed();
    installation.next(InstallEvent::Verified(false)).expect("not installed");
    installation.next(done()).expect("removed");
    assert_eq!(
        installation.next(failed("full")).expect_err("staging"),
        "failed to create server staging directory: full"
    );
}

#[test]
fn cached_servers_are_checked_again() {
    let path = "/ext/ansible-vault-lsp-0.2.0/ansible-vault-lsp";
    let (mut installation, action) =
        Installation::install_server(Some(path.to_string()), Os::Linux, Architecture::X8664);
    assert!(matches!(action, Ok(InstallAction::VerifyInstalled(directory)) if directory == "/ext/ansible-vault-lsp-0.2.0"));
    let action = installation.next(InstallEvent::Verified(true)).expect("cached");
    assert!(matches!(action, InstallAction::Use(used) if used == path));
    assert_eq!(installation.cached_server_path().as_deref(), Some(path));

    let (mut installation, _) =
        Installation::install_server(Some(path.to_string()), Os::Linux, Architecture::X8664);
    let action = installation.next(InstallEvent::Verified(false)).expect("release");
    assert!(matches!(action, InstallAction::FetchRelease(_)));
    assert_eq!(installation.cached_server_path(), None);

    let (_, action) =
        Installation::install_server(Some("/ext/other".to_string()), Os::Linux, Architecture::X8664);
    assert!(matches!(action, Ok(InstallAction::FetchRelease(_)) | Ok(InstallAction::VerifyInstalled(_))));
}

#[test]
fn foreign_releases_and_platforms_are_refused() {
    let (_, action) = Installation::install_server(None, Os::Windows, Architecture::X8664);
    assert_eq!(
        action.expect_err("Windows"),
        "Ansible Vault extension 0.2.0 supports macOS and Linux only"
    );
    let (mut installation, _) = Installation::install_server(None, Os::Linux, Architecture::X8664);
    assert_eq!(
        installation
            .next(InstallEvent::Release(Ok(("v9".to_string(), assets()))))
            .expect_err("other release"),
        "GitHub returned release v9 while v0.2.0 was requested"
    );
    let (mut installation, _) = Installation::install_server(None, Os::Linux, Architecture::X8664);
    assert_eq!(
        installation
            .next(InstallEvent::Release(Err("rate limit".to_string())))
            .expect_err("no release"),
        "rate limit"
    );
}
