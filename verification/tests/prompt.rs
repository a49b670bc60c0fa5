use ansible_vault_lsp::config::PromptBackendSetting;
use ansible_vault_lsp::error::{AppError, AppResult};
use ansible_vault_lsp::process::ProcessOutput;
use ansible_vault_lsp::prompt::{
    apple_script_escape, has_display, password_from_dialog, DialogKind, Discovery,
    DiscoveryAction, DiscoveryEvent, Platform, PromptBackend,
};

fn output(success: bool, stdout: &[u8]) -> ProcessOutput {
    ProcessOutput {
        success,
        stdout: stdout.to_vec(),
        stderr: Vec::new(),
    }
}

fn told<T>(result: AppResult<T>) -> String {
    match result {
        Ok(_) => panic!("an error was expected"),
        Err(error) => error.message(),
    }
}

fn start(setting: PromptBackendSetting) -> (Discovery, DiscoveryAction) {
    PromptBackend::discover(setting, Platform::Linux, true).expect("start")
}

#[test]
fn escapes_apple_script_strings() {
    assert_eq!(apple_script_escape("a \\\" b"), "a \\\\\\\" b");
}

#[test]
fn escaping_changes_nothing_else() {
    assert_eq!(apple_script_escape(""), "");
    assert_eq!(apple_script_escape("plain 'text'\n\u{e9}"), "plain 'text'\n\u{e9}");
    for text in ["\\", "\"", "\\\\\"", "a\"b\\c"] {
        assert_eq!(
            apple_script_escape(text),
            text.replace('\\', "\\\\").replace('"', "\\\"")
        );
    }
}

#[test]
fn dialogs_hide_what_is_typed() {
    let at = |kind: DialogKind| kind.backend("/bin/tool".to_string());
    assert_eq!(
        at(DialogKind::Zenity).ask_args("T", "M"),
        vec!["--password", "--title=T", "--text=M"]
    );
    assert_eq!(
        at(DialogKind::Kdialog).ask_args("T", "M"),
        vec!["--title", "T", "--password", "M"]
    );
    assert_eq!(
        at(DialogKind::Yad).ask_args("T", "M"),
        vec!["--entry", "--hide-text", "--title=T", "--text=M"]
    );
    assert_eq!(
        at(DialogKind::Osascript).ask_args("T\"", "M"),
        vec![
            "-e",
            "set response to display dialog \"M\" with title \"T\\\"\" default answer \"\" with hidden answer buttons {\"Cancel\", \"OK\"} default button \"OK\" cancel button \"Cancel\"\nreturn text returned of response"
        ]
    );
    assert_eq!(at(DialogKind::Osascript).smoke_test_args(), vec!["-e", "return \"ok\""]);
    assert_eq!(at(DialogKind::Kdialog).smoke_test_args(), vec!["--version"]);
    assert_eq!(at(DialogKind::Yad).executable(), "/bin/tool");
    assert_eq!(DialogKind::Zenity.name(), "zenity");
}

#[test]
fn answers_of_dialogs_are_passwords() {
    assert_eq!(password_from_dialog(&output(true, b"secret \r\n\n")).expect("password"), "secret ");
    assert!(matches!(password_from_dialog(&output(false, b"x")), Err(AppError::Cancelled)));
    assert_eq!(
        told(password_from_dialog(&output(true, &[0xff]))),
        "Password dialog returned invalid text"
    );
    assert_eq!(
        told(password_from_dialog(&output(true, b"\r\n"))),
        "Vault password must not be empty"
    );
}

#[test]
fn tools_have_to_show_that_they_work() {
    let tool = PromptBackend::Zenity("/z".to_string());
    assert!(tool.smoke_test_result(Ok(output(true, b""))).is_ok());
    assert_eq!(
        told(tool.smoke_test_result(Ok(output(false, b"")))),
        "Password dialog tool /z is installed but failed its startup check"
    );
    assert!(matches!(tool.smoke_test_result(Err(AppError::Timeout)), Err(AppError::Timeout)));
}

#[test]
fn displays_are_told_by_their_variables() {
    assert!(has_display(Some(2), None));
    assert!(has_display(Some(0), Some(1)));
    assert!(!has_display(Some(0), None));
    assert!(!has_display(None, None));
}

#[test]
fn an_automatic_search_takes_the_first_tool_that_works() {
    let (mut search, action) = start(PromptBackendSetting::Auto);
    assert!(matches!(action, DiscoveryAction::Search(DialogKind::Zenity)));
    let action = search.next(DiscoveryEvent::Searched(None)).expect("next");
    assert!(matches!(action, DiscoveryAction::Search(DialogKind::Kdialog)));
    let action = search.next(DiscoveryEvent::Searched(Some("/k".to_string()))).expect("found");
    assert!(matches!(action, DiscoveryAction::Test(PromptBackend::Kdialog(path)) if path == "/k"));
    let action = search.next(DiscoveryEvent::Tested(Err(AppError::Timeout))).expect("passed over");
    assert!(matches!(action, DiscoveryAction::Search(DialogKind::Yad)));
    search.next(DiscoveryEvent::Searched(Some("/y".to_string()))).expect("found");
    let action = search.next(DiscoveryEvent::Tested(Ok(()))).expect("works");
    assert!(matches!(action, DiscoveryAction::Use(PromptBackend::Yad(path)) if path == "/y"));
}

#[test]
fn a_search_without_a_working_tool_fails() {
    let (mut search, _) = start(PromptBackendSetting::Auto);
    search.next(DiscoveryEvent::Searched(None)).expect("next");
    search.next(DiscoveryEvent::Searched(None)).expect("next");
    assert_eq!(
        told(search.next(DiscoveryEvent::Searched(None))),
        "No working password dialog tool found; install zenity, kdialog, or yad, or configure ansibleVault.passwordFile"
    );
    let (mut search, _) = start(PromptBackendSetting::Auto);
    assert_eq!(
        told(search.next(DiscoveryEvent::Tested(Ok(())))),
        "An internal extension error occurred"
    );
}

#[test]
fn a_chosen_tool_is_the_only_one() {
    let (mut search, action) = start(PromptBackendSetting::Kdialog);
    assert!(matches!(action, DiscoveryAction::Search(DialogKind::Kdialog)));
    search.next(DiscoveryEvent::Searched(Some("/k".to_string()))).expect("found");
    assert!(matches!(
        search.next(DiscoveryEvent::Tested(Err(AppError::Timeout))),
        Err(AppError::Timeout)
    ));
    let (mut search, _) = start(PromptBackendSetting::Yad);
    assert!(search.next(DiscoveryEvent::Searched(None)).is_err());
}

#[test]
fn platforms_have_their_own_tools() {
    let (mut search, action) =
        PromptBackend::discover(PromptBackendSetting::Auto, Platform::MacOs, false).expect("start");
    assert!(matches!(action, DiscoveryAction::Test(PromptBackend::Osascript(path)) if path == "/usr/bin/osascript"));
    let action = search.next(DiscoveryEvent::Tested(Ok(()))).expect("works");
    assert!(matches!(action, DiscoveryAction::Use(PromptBackend::Osascript(_))));
    for (setting, platform, display, message) in [
        (PromptBackendSetting::Zenity, Platform::MacOs, true, "The selected prompt backend is not available on macOS"),
        (PromptBackendSetting::Osascript, Platform::Linux, true, "osascript is available on macOS only"),
        (PromptBackendSetting::Auto, Platform::Linux, false, "Interactive password input requires DISPLAY or WAYLAND_DISPLAY; configure ansibleVault.passwordFile for headless use"),
        (PromptBackendSetting::Auto, Platform::Other, true, "Interactive password input is supported on macOS and Linux only"),
    ] {
        assert_eq!(told(PromptBackend::discover(setting, platform, display)), message);
    }
}
