//! Asking the user for the password with a dialog tool.
use crate::bytes;
use crate::config::PromptBackendSetting;
use crate::error::AppError;
use crate::error::AppResult;
use crate::error::Failure;
use crate::process::Left;
use crate::process::ProcessOutput;
use crate::text;
use vstd::prelude::*;

verus! {

/// How long a dialog may stay open, in seconds.
pub const PROMPT_TIMEOUT: u64 = 300;

pub const OSASCRIPT: &'static str = "/usr/bin/osascript";

pub const NOT_ON_MACOS: &'static str = "The selected prompt backend is not available on macOS";

pub const ONLY_ON_MACOS: &'static str = "osascript is available on macOS only";

pub const NO_DISPLAY: &'static str =
    "Interactive password input requires DISPLAY or WAYLAND_DISPLAY; configure ansibleVault.passwordFile for headless use";

pub const NO_DIALOG: &'static str =
    "No working password dialog tool found; install zenity, kdialog, or yad, or configure ansibleVault.passwordFile";

pub const NO_PLATFORM: &'static str =
    "Interactive password input is supported on macOS and Linux only";

pub const UNEXPECTED: &'static str = "unexpected answer while looking for a dialog tool";

pub const INVALID_ANSWER: &'static str = "Password dialog returned invalid text";

pub const EMPTY_PASSWORD: &'static str = "Vault password must not be empty";

/// The systems that the server tells apart.
#[derive(Clone, Copy, Debug, PartialEq, Eq, Structural)]
pub enum Platform {
    MacOs,
    Linux,
    Other,
}

/// The kinds of dialog tools.
#[derive(Clone, Copy, Debug, PartialEq, Eq, Structural)]
pub enum DialogKind {
    Osascript,
    Zenity,
    Kdialog,
    Yad,
}

/// A dialog tool, with the path of its executable.
#[derive(Clone, Debug)]
pub enum PromptBackend {
    Osascript(String),
    Zenity(String),
    Kdialog(String),
    Yad(String),
}

impl View for PromptBackend {
    type V = (DialogKind, Seq<char>);

    open spec fn view(&self) -> (DialogKind, Seq<char>) {
        match *self {
            PromptBackend::Osascript(path) => (DialogKind::Osascript, path@),
            PromptBackend::Zenity(path) => (DialogKind::Zenity, path@),
            PromptBackend::Kdialog(path) => (DialogKind::Kdialog, path@),
            PromptBackend::Yad(path) => (DialogKind::Yad, path@),
        }
    }
}

impl DialogKind {
    /// The command of the tool.
    pub open spec fn name_text(self) -> Seq<char> {
        match self {
            DialogKind::Osascript => "osascript"@,
            DialogKind::Zenity => "zenity"@,
            DialogKind::Kdialog => "kdialog"@,
            DialogKind::Yad => "yad"@,
        }
    }

    pub fn name(self) -> (r: &'static str)
        ensures
            r@ == self.name_text(),
    {
        match self {
            DialogKind::Osascript => "osascript",
            DialogKind::Zenity => "zenity",
            DialogKind::Kdialog => "kdialog",
            DialogKind::Yad => "yad",
        }
    }

    /// The tool of this kind at a path.
    pub fn backend(self, path: String) -> (r: PromptBackend)
        ensures
            r@ == (self, path@),
    {
        match self {
            DialogKind::Osascript => PromptBackend::Osascript(path),
            DialogKind::Zenity => PromptBackend::Zenity(path),
            DialogKind::Kdialog => PromptBackend::Kdialog(path),
            DialogKind::Yad => PromptBackend::Yad(path),
        }
    }
}

// ---------------------------------------------------------------------------
// Asking
// ---------------------------------------------------------------------------

/// A text inside an AppleScript string: backslashes and double quotes get a
/// backslash before them.
pub open spec fn escaped(s: Seq<char>) -> Seq<char>
    decreases s.len(),
{
    if s.len() == 0 {
        s
    } else if s.last() == '\\' || s.last() == '"' {
        escaped(s.drop_last()).push('\\').push(s.last())
    } else {
        escaped(s.drop_last()).push(s.last())
    }
}

/// Writes a text inside an AppleScript string.
pub fn apple_script_escape(value: &str) -> (r: String)
    ensures
        r@ == escaped(value@),
{
    let chars = text::chars_of(value);
    let mut out = String::new();
    proof {
        assert(chars@.take(0) =~= Seq::<char>::empty());
        assert(out@ =~= Seq::<char>::empty());
    }
    for i in 0..chars.len()
        invariant
            out@ == escaped(chars@.take(i as int)),
    {
        proof {
            assert(chars@.take(i + 1).drop_last() =~= chars@.take(i as int));
        }
        if chars[i] == '\\' || chars[i] == '"' {
            out.push('\\');
        }
        out.push(chars[i]);
    }
    proof {
        assert(chars@.take(chars@.len() as int) =~= chars@);
    }
    out
}

/// The AppleScript that shows a dialog and returns what was typed.
pub open spec fn dialog_script(title: Seq<char>, message: Seq<char>) -> Seq<char> {
    "set response to display dialog \""@ + escaped(message) + "\" with title \""@ + escaped(title)
        + "\" default answer \"\" with hidden answer buttons {\"Cancel\", \"OK\"} default button \"OK\" cancel button \"Cancel\"\nreturn text returned of response"@
}

/// The arguments with which a tool shows a password dialog.
pub open spec fn dialog_args(kind: DialogKind, title: Seq<char>, message: Seq<char>) -> Seq<
    Seq<char>,
> {
    match kind {
        DialogKind::Osascript => seq!["-e"@, dialog_script(title, message)],
        DialogKind::Zenity => seq!["--password"@, "--title="@ + title, "--text="@ + message],
        DialogKind::Kdialog => seq!["--title"@, title, "--password"@, message],
        DialogKind::Yad => seq![
            "--entry"@,
            "--hide-text"@,
            "--title="@ + title,
            "--text="@ + message,
        ],
    }
}

/// The arguments with which a tool shows that it works.
pub open spec fn smoke_args(kind: DialogKind) -> Seq<Seq<char>> {
    match kind {
        DialogKind::Osascript => seq!["-e"@, "return \"ok\""@],
        _ => seq!["--version"@],
    }
}

/// What a dialog answered: the password, or why there is none.
pub open spec fn dialog_answer(output: Left) -> Result<Seq<char>, Failure> {
    if !output.success {
        Err(Failure::Cancelled)
    } else {
        match bytes::utf8_text(output.stdout) {
            None => Err(Failure::User(INVALID_ANSWER@)),
            Some(s) => {
                let password = text::trim_end_of(s, seq!['\r', '\n']);
                if password.len() == 0 {
                    Err(Failure::User(EMPTY_PASSWORD@))
                } else {
                    Ok(password)
                }
            },
        }
    }
}

fn prefixed(prefix: &str, rest: &str) -> (r: String)
    ensures
        r@ == prefix@ + rest@,
{
    let mut out = prefix.to_string();
    out.append(rest);
    out
}

impl PromptBackend {
    /// The path of the tool.
    pub fn executable(&self) -> (r: &str)
        ensures
            r@ == self@.1,
    {
        match self {
            PromptBackend::Osascript(path) => path.as_str(),
            PromptBackend::Zenity(path) => path.as_str(),
            PromptBackend::Kdialog(path) => path.as_str(),
            PromptBackend::Yad(path) => path.as_str(),
        }
    }

    /// The arguments with which the tool shows that it works.
    pub fn smoke_test_args(&self) -> (r: Vec<String>)
        ensures
            text::texts(r@) == smoke_args(self@.0),
    {
        let mut args: Vec<String> = Vec::new();
        match self {
            PromptBackend::Osascript(_) => {
                args.push("-e".to_string());
                args.push("return \"ok\"".to_string());
            },
            _ => {
                args.push("--version".to_string());
            },
        }
        proof {
            assert(text::texts(args@) =~= smoke_args(self@.0));
        }
        args
    }

    /// Whether the tool works, by the outcome of running it.
    pub fn smoke_test_result(&self, output: AppResult<ProcessOutput>) -> (r: AppResult<()>)
        ensures
            r is Ok <==> (output matches Ok(left) && left.success),
            output matches Err(error) ==> r == Err::<(), AppError>(error),
            output is Ok ==> (r matches Err(error) ==> error@.text()
                == "Password dialog tool "@ + self@.1
                + " is installed but failed its startup check"@),
            match output {
                Err(error) => r matches Err(same) && same == error,
                Ok(left) => match r {
                    Ok(_) => left.success,
                    Err(error) => !left.success && error@ == Failure::User(
                        "Password dialog tool "@ + self@.1
                            + " is installed but failed its startup check"@,
                    ),
                },
            },
    {
        match output {
            Err(error) => Err(error),
            Ok(left) => {
                if left.success {
                    Ok(())
                } else {
                    Err(
                        AppError::told_parts(
                            "Password dialog tool ",
                            self.executable(),
                            " is installed but failed its startup check",
                        ),
                    )
                }
            },
        }
    }

    /// The arguments with which the tool shows a password dialog.
    pub fn ask_args(&self, title: &str, message: &str) -> (r: Vec<String>)
        ensures
            text::texts(r@) == dialog_args(self@.0, title@, message@),
    {
        let mut args: Vec<String> = Vec::new();
        match self {
            PromptBackend::Osascript(_) => {
                let mut script = "set response to display dialog \"".to_string();
                script.append(apple_script_escape(message).as_str());
                script.append("\" with title \"");
                script.append(apple_script_escape(title).as_str());
                script.append(
                    "\" default answer \"\" with hidden answer buttons {\"Cancel\", \"OK\"} default button \"OK\" cancel button \"Cancel\"\nreturn text returned of response",
                );
                args.push("-e".to_string());
                args.push(script);
            },
            PromptBackend::Zenity(_) => {
                args.push("--password".to_string());
                args.push(prefixed("--title=", title));
                args.push(prefixed("--text=", message));
            },
            PromptBackend::Kdialog(_) => {
                args.push("--title".to_string());
                args.push(title.to_string());
                args.push("--password".to_string());
                args.push(message.to_string());
            },
            PromptBackend::Yad(_) => {
                args.push("--entry".to_string());
                args.push("--hide-text".to_string());
                args.push(prefixed("--title=", title));
                args.push(prefixed("--text=", message));
            },
        }
        proof {
            assert(text::texts(args@) =~= dialog_args(self@.0, title@, message@));
        }
        args
    }
}

/// The password that a dialog answered.
pub fn password_from_dialog(output: &ProcessOutput) -> (r: AppResult<String>)
    ensures
        match r {
            Ok(password) => dialog_answer(output@) == Ok::<Seq<char>, Failure>(password@),
            Err(error) => dialog_answer(output@) == Err::<Seq<char>, Failure>(error@),
        },
{
    if !output.success {
        return Err(AppError::Cancelled);
    }
    match bytes::utf8(output.stdout.as_slice()) {
        None => Err(AppError::told(INVALID_ANSWER)),
        Some(answer) => {
            let held = text::chars_of(answer);
            let ends: [char; 2] = ['\r', '\n'];
            proof {
                assert(ends@ =~= seq!['\r', '\n']);
            }
            let password = text::trimmed_end_of(held.as_slice(), ends.as_slice());
            if password.len() == 0 {
                Err(AppError::told(EMPTY_PASSWORD))
            } else {
                Ok(text::string_of(password))
            }
        },
    }
}

// ---------------------------------------------------------------------------
// Finding a tool
// ---------------------------------------------------------------------------

/// Whether a graphical display is there, by the lengths of the two variables that name one.
pub open spec fn display_named(display: Option<usize>, wayland_display: Option<usize>) -> bool {
    (display matches Some(n) && n > 0) || (wayland_display matches Some(m) && m > 0)
}

/// Whether a graphical display is there: one of the two variables is set and not
/// empty.
pub fn has_display(display: Option<usize>, wayland_display: Option<usize>) -> (r: bool)
    ensures
        r == ((display matches Some(n) && n > 0) || (wayland_display matches Some(m) && m > 0)),
        r == display_named(display, wayland_display),
{
    let x = match display {
        Some(n) => n > 0,
        None => false,
    };
    let wayland = match wayland_display {
        Some(n) => n > 0,
        None => false,
    };
    x || wayland
}

/// The tools that a setting allows on Linux, in the order of preference.
pub open spec fn candidates(setting: PromptBackendSetting) -> Seq<DialogKind> {
    match setting {
        PromptBackendSetting::Auto => seq![
            DialogKind::Zenity,
            DialogKind::Kdialog,
            DialogKind::Yad,
        ],
        PromptBackendSetting::Zenity => seq![DialogKind::Zenity],
        PromptBackendSetting::Kdialog => seq![DialogKind::Kdialog],
        PromptBackendSetting::Yad => seq![DialogKind::Yad],
        PromptBackendSetting::Osascript => Seq::empty(),
    }
}

/// What is to be done next in the search for a tool.
#[derive(Clone, Debug)]
pub enum DiscoveryAction {
    /// Look for a command in the search path.
    Search(DialogKind),
    /// Run the tool with the arguments of its check.
    Test(PromptBackend),
    /// Use the tool; the search is over.
    Use(PromptBackend),
}

/// An action as contracts speak of it.
pub enum Discovering {
    Search(DialogKind),
    Test(DialogKind, Seq<char>),
    Use(DialogKind, Seq<char>),
}

impl View for DiscoveryAction {
    type V = Discovering;

    open spec fn view(&self) -> Discovering {
        match *self {
            DiscoveryAction::Search(kind) => Discovering::Search(kind),
            DiscoveryAction::Test(backend) => Discovering::Test(backend@.0, backend@.1),
            DiscoveryAction::Use(backend) => Discovering::Use(backend@.0, backend@.1),
        }
    }
}

/// What came of an action.
#[derive(Debug)]
pub enum DiscoveryEvent {
    /// The path at which the command was found, if it was.
    Searched(Option<String>),
    /// Whether the tool works.
    Tested(AppResult<()>),
}

/// An event as contracts speak of it.
pub enum Discovered {
    Searched(Option<Seq<char>>),
    Tested(Result<(), Failure>),
}

impl View for DiscoveryEvent {
    type V = Discovered;

    open spec fn view(&self) -> Discovered {
        match *self {
            DiscoveryEvent::Searched(Some(path)) => Discovered::Searched(Some(path@)),
            DiscoveryEvent::Searched(None) => Discovered::Searched(None),
            DiscoveryEvent::Tested(Ok(_)) => Discovered::Tested(Ok(())),
            DiscoveryEvent::Tested(Err(error)) => Discovered::Tested(Err(error@)),
        }
    }
}

/// The state of the search for a tool.
#[derive(Debug)]
pub struct Discovery {
    /// The tools to try.
    kinds: Vec<DialogKind>,
    /// Whether a tool that fails is passed over.
    lenient: bool,
    /// The tool that is tried now.
    current: usize,
    /// Where it was found, once it was.
    path: Option<String>,
}

/// The state of the search as contracts speak of it.
pub struct Search {
    pub kinds: Seq<DialogKind>,
    pub lenient: bool,
    pub current: int,
    pub path: Option<Seq<char>>,
}

impl View for Discovery {
    type V = Search;

    closed spec fn view(&self) -> Search {
        Search {
            kinds: self.kinds@,
            lenient: self.lenient,
            current: self.current as int,
            path: match self.path {
                Some(path) => Some(path@),
                None => None,
            },
        }
    }
}

impl Search {
    /// A tool is being tried.
    pub open spec fn wf(self) -> bool {
        0 <= self.current < self.kinds.len()
    }

    /// Goes on with the tool `i`, if there is one.
    pub open spec fn trying(self, i: int) -> Result<(Search, Discovering), Failure> {
        if 0 <= i < self.kinds.len() {
            Ok((Search { current: i, path: None, ..self }, Discovering::Search(self.kinds[i])))
        } else {
            Err(Failure::User(NO_DIALOG@))
        }
    }

    /// The state and the action that follow an event, or why the search fails.
    /// The first tool that is found and works is used. One that is found and
    /// fails ends the search, unless the search is lenient.
    pub open spec fn after(self, event: Discovered) -> Result<(Search, Discovering), Failure> {
        let kind = self.kinds[self.current];
        match (self.path, event) {
            (None, Discovered::Searched(Some(path))) => Ok(
                (Search { path: Some(path), ..self }, Discovering::Test(kind, path)),
            ),
            (None, Discovered::Searched(None)) => self.trying(self.current + 1),
            (Some(path), Discovered::Tested(Ok(_))) => Ok((self, Discovering::Use(kind, path))),
            (Some(_), Discovered::Tested(Err(failure))) => if self.lenient {
                self.trying(self.current + 1)
            } else {
                Err(failure)
            },
            _ => Err(Failure::Internal(UNEXPECTED@)),
        }
    }
}

/// How the search begins, or why it cannot.
pub open spec fn search_start(
    setting: PromptBackendSetting,
    platform: Platform,
    display: bool,
) -> Result<(Search, Discovering), Failure> {
    match platform {
        Platform::MacOs => if setting == PromptBackendSetting::Auto || setting
            == PromptBackendSetting::Osascript {
            Ok(
                (
                    Search {
                        kinds: seq![DialogKind::Osascript],
                        lenient: false,
                        current: 0,
                        path: Some(OSASCRIPT@),
                    },
                    Discovering::Test(DialogKind::Osascript, OSASCRIPT@),
                ),
            )
        } else {
            Err(Failure::User(NOT_ON_MACOS@))
        },
        Platform::Linux => if !display {
            Err(Failure::User(NO_DISPLAY@))
        } else if setting == PromptBackendSetting::Osascript {
            Err(Failure::User(ONLY_ON_MACOS@))
        } else {
            Ok(
                (
                    Search {
                        kinds: candidates(setting),
                        lenient: setting == PromptBackendSetting::Auto,
                        current: 0,
                        path: None,
                    },
                    Discovering::Search(candidates(setting)[0]),
                ),
            )
        },
        Platform::Other => Err(Failure::User(NO_PLATFORM@)),
    }
}

fn candidates_of(setting: PromptBackendSetting) -> (r: Vec<DialogKind>)
    ensures
        r@ == candidates(setting),
{
    let mut kinds: Vec<DialogKind> = Vec::new();
    match setting {
        PromptBackendSetting::Auto => {
            kinds.push(DialogKind::Zenity);
            kinds.push(DialogKind::Kdialog);
            kinds.push(DialogKind::Yad);
        },
        PromptBackendSetting::Zenity => {
            kinds.push(DialogKind::Zenity);
        },
        PromptBackendSetting::Kdialog => {
            kinds.push(DialogKind::Kdialog);
        },
        PromptBackendSetting::Yad => {
            kinds.push(DialogKind::Yad);
        },
        PromptBackendSetting::Osascript => {},
    }
    proof {
        assert(kinds@ =~= candidates(setting));
    }
    kinds
}

impl PromptBackend {
    /// Begins the search for a dialog tool.
    pub fn discover(setting: PromptBackendSetting, platform: Platform, display: bool) -> (r:
        AppResult<(Discovery, DiscoveryAction)>)
        ensures
            match r {
                Ok((discovery, action)) => discovery@.wf() && search_start(
                    setting,
                    platform,
                    display,
                ) == Ok::<(Search, Discovering), Failure>((discovery@, action@)),
                Err(error) => search_start(setting, platform, display) == Err::<
                    (Search, Discovering),
                    Failure,
                >(error@),
            },
    {
        match platform {
            Platform::MacOs => {
                if setting == PromptBackendSetting::Auto || setting
                    == PromptBackendSetting::Osascript {
                    let mut kinds: Vec<DialogKind> = Vec::new();
                    kinds.push(DialogKind::Osascript);
                    proof {
                        assert(kinds@ =~= seq![DialogKind::Osascript]);
                    }
                    Ok(
                        (
                            Discovery {
                                kinds,
                                lenient: false,
                                current: 0,
                                path: Some(OSASCRIPT.to_string()),
                            },
                            DiscoveryAction::Test(
                                PromptBackend::Osascript(OSASCRIPT.to_string()),
                            ),
                        ),
                    )
                } else {
                    Err(AppError::told(NOT_ON_MACOS))
                }
            },
            Platform::Linux => {
                if !display {
                    return Err(AppError::told(NO_DISPLAY));
                }
                if setting == PromptBackendSetting::Osascript {
                    return Err(AppError::told(ONLY_ON_MACOS));
                }
                let kinds = candidates_of(setting);
                let first = kinds[0];
                Ok(
                    (
                        Discovery {
                            kinds,
                            lenient: setting == PromptBackendSetting::Auto,
                            current: 0,
                            path: None,
                        },
                        DiscoveryAction::Search(first),
                    ),
                )
            },
            Platform::Other => Err(AppError::told(NO_PLATFORM)),
        }
    }
}

impl Discovery {
    fn go_on(&mut self) -> (r: AppResult<DiscoveryAction>)
        requires
            old(self)@.wf(),
        ensures
            match r {
                Ok(action) => final(self)@.wf() && old(self)@.trying(old(self)@.current + 1)
                    == Ok::<(Search, Discovering), Failure>((final(self)@, action@)),
                Err(error) => old(self)@.trying(old(self)@.current + 1) == Err::<
                    (Search, Discovering),
                    Failure,
                >(error@),
            },
    {
        if self.kinds.len() - self.current > 1 {
            self.current = self.current + 1;
            self.path = None;
            Ok(DiscoveryAction::Search(self.kinds[self.current]))
        } else {
            Err(AppError::told(NO_DIALOG))
        }
    }

    /// What to do after an event, or why the search fails.
    pub fn next(&mut self, event: DiscoveryEvent) -> (r: AppResult<DiscoveryAction>)
        requires
            old(self)@.wf(),
        ensures
            match r {
                Ok(action) => final(self)@.wf() && old(self)@.after(event@) == Ok::<
                    (Search, Discovering),
                    Failure,
                >((final(self)@, action@)),
                Err(error) => old(self)@.after(event@) == Err::<(Search, Discovering), Failure>(
                    error@,
                ),
            },
    {
        let kind = self.kinds[self.current];
        match event {
            DiscoveryEvent::Searched(found) => {
                if self.path.is_some() {
                    return Err(AppError::Internal(UNEXPECTED.to_string()));
                }
                match found {
                    Some(path) => {
                        let backend = kind.backend(path.clone());
                        self.path = Some(path);
                        Ok(DiscoveryAction::Test(backend))
                    },
                    None => self.go_on(),
                }
            },
            DiscoveryEvent::Tested(outcome) => match &self.path {
                None => Err(AppError::Internal(UNEXPECTED.to_string())),
                Some(path) => match outcome {
                    Ok(_) => Ok(DiscoveryAction::Use(kind.backend(path.clone()))),
                    Err(error) => {
                        if self.lenient {
                            self.go_on()
                        } else {
                            Err(error)
                        }
                    },
                },
            },
        }
    }
}

/// A tool is only used after it was found and has shown that it works.
pub proof fn law_only_working_tools_are_used(search: Search, event: Discovered)
    requires
        search.wf(),
    ensures
        search.after(event) matches Ok((_, Discovering::Use(kind, path))) ==> {
            &&& event matches Discovered::Tested(outcome) && outcome is Ok
            &&& search.path == Some(path)
            &&& kind == search.kinds[search.current]
        },
{
}

/// The search ends: every answer uses a tool, fails, tests the tool that was
/// found, or goes on to the next tool.
pub proof fn law_search_makes_progress(search: Search, event: Discovered)
    requires
        search.wf(),
    ensures
        search.after(event) matches Ok((next, action)) ==> {
            ||| action is Use
            ||| next.current > search.current
            ||| next.current == search.current && search.path is None && next.path is Some
        },
{
}

/// A tool that the user has chosen is the only one that is tried: the search never
/// falls back to another.
pub proof fn law_chosen_tools_have_no_fallback(
    setting: PromptBackendSetting,
    platform: Platform,
    display: bool,
)
    requires
        setting != PromptBackendSetting::Auto,
    ensures
        search_start(setting, platform, display) matches Ok((search, _)) ==> search.kinds.len() == 1
            && !search.lenient && search.trying(search.current + 1) is Err,
{
}

// ---------------------------------------------------------------------------
// What is promised of the dialogs
// ---------------------------------------------------------------------------

/// Inside a script, every backslash and every double quote gets a backslash before it,
/// and nothing else changes.
pub proof fn law_texts_are_escaped_letter_by_letter(a: Seq<char>, c: char, b: Seq<char>)
    ensures
        escaped(a + b) == escaped(a) + escaped(b),
        c == '\\' || c == '"' ==> escaped(seq![c]) == seq!['\\', c],
        c != '\\' && c != '"' ==> escaped(seq![c]) == seq![c],
        escaped(""@) == ""@,
    decreases b.len(),
{
    reveal_strlit("");
    assert(seq![c].drop_last() =~= Seq::<char>::empty());
    assert(escaped(seq![c].drop_last()) =~= Seq::<char>::empty());
    assert(Seq::<char>::empty().push('\\').push(c) =~= seq!['\\', c]);
    assert(Seq::<char>::empty().push(c) =~= seq![c]);
    if b.len() == 0 {
        assert(a + b =~= a);
        assert(escaped(a) + escaped(b) =~= escaped(a));
    } else {
        law_texts_are_escaped_letter_by_letter(a, c, b.drop_last());
        assert((a + b).drop_last() =~= a + b.drop_last());
        assert(escaped(a + b) =~= escaped(a) + escaped(b));
    }
}

/// Every tool is given the title and the message, and is told to hide what is typed.
pub proof fn law_dialogs_hide_what_is_typed(title: Seq<char>, message: Seq<char>)
    ensures
        ({
            let args = dialog_args(DialogKind::Zenity, title, message);
            &&& args.len() == 3
            &&& args[0] == "--password"@
            &&& args[1] == "--title="@ + title
            &&& args[2] == "--text="@ + message
        }),
        ({
            let args = dialog_args(DialogKind::Kdialog, title, message);
            &&& args.len() == 4
            &&& args[0] == "--title"@
            &&& args[1] == title
            &&& args[2] == "--password"@
            &&& args[3] == message
        }),
        ({
            let args = dialog_args(DialogKind::Yad, title, message);
            &&& args.len() == 4
            &&& args[0] == "--entry"@
            &&& args[1] == "--hide-text"@
            &&& args[2] == "--title="@ + title
            &&& args[3] == "--text="@ + message
        }),
        ({
            let args = dialog_args(DialogKind::Osascript, title, message);
            &&& args.len() == 2
            &&& args[0] == "-e"@
            &&& args[1] == "set response to display dialog \""@ + escaped(message)
                + "\" with title \""@ + escaped(title)
                + "\" default answer \"\" with hidden answer buttons {\"Cancel\", \"OK\"} default button \"OK\" cancel button \"Cancel\"\nreturn text returned of response"@
        }),
        forall|kind: DialogKind| #[trigger]
            smoke_args(kind) == if kind == DialogKind::Osascript {
                seq!["-e"@, "return \"ok\""@]
            } else {
                seq!["--version"@]
            },
{
}

/// What a dialog prints is the password with a line end behind it: the password comes
/// back whatever line ends are there, and spaces at its ends stay. An empty one is
/// refused. A dialog that fails was cancelled, whatever it printed.
pub proof fn law_typed_passwords_come_back(
    password: Seq<char>,
    ends: Seq<char>,
    stdout: Seq<u8>,
    stderr: Seq<u8>,
)
    requires
        password.len() > 0 ==> password.last() != '\n' && password.last() != '\r',
        forall|i: int| 0 <= i < ends.len() ==> #[trigger] ends[i] == '\n' || ends[i] == '\r',
    ensures
        dialog_answer(Left { success: false, stdout, stderr }) == Err::<Seq<char>, Failure>(
            Failure::Cancelled,
        ),
        dialog_answer(
            Left { success: true, stdout: vstd::utf8::encode_utf8(password + ends), stderr },
        ) == if password.len() > 0 {
            Ok::<Seq<char>, Failure>(password)
        } else {
            Err(Failure::User("Vault password must not be empty"@))
        },
        !vstd::utf8::valid_utf8(stdout) ==> dialog_answer(Left { success: true, stdout, stderr })
            == Err::<Seq<char>, Failure>(Failure::User("Password dialog returned invalid text"@)),
{
    let s = password + ends;
    let set = seq!['\r', '\n'];
    assert(set.contains(set[0]) && set.contains(set[1]));
    vstd::utf8::encode_utf8_decode_utf8(s);
    vstd::utf8::encode_utf8_valid_utf8(s);
    assert forall|k: int| s.len() - ends.len() <= k < s.len() implies text::among(set)(
        #[trigger] s[k],
    ) by {
        assert(s[k] == ends[k - password.len()]);
    }
    if password.len() > 0 {
        assert(s[password.len() - 1] == password.last());
    }
    text::lemma_suffix_len(s, text::among(set), ends.len() as int);
    assert(text::trim_end_of(s, set) =~= password);
}

/// The step of a search that follows an event.
pub open spec fn searched(before: Result<(Search, Discovering), Failure>, event: Discovered) -> Result<
    (Search, Discovering),
    Failure,
> {
    match before {
        Ok((search, _)) => search.after(event),
        Err(failure) => Err(failure),
    }
}

/// Whether a search goes on with an action.
pub open spec fn goes_on(step: Result<(Search, Discovering), Failure>, action: Discovering) -> bool {
    step matches Ok((_, next)) && next == action
}

/// Without a choice, the tools are tried on Linux in this order: zenity, kdialog, yad.
/// One that is missing or does not work is passed over. With none left, the user is told
/// what to install.
pub proof fn law_tools_are_tried_in_order(path: Seq<char>, failure: Failure)
    ensures
        ({
            let start = search_start(PromptBackendSetting::Auto, Platform::Linux, true);
            let missing = Discovered::Searched(None);
            let found = Discovered::Searched(Some(path));
            let works = Discovered::Tested(Ok(()));
            let fails = Discovered::Tested(Err(failure));
            let zenity = searched(start, found);
            let next = searched(start, missing);
            let kdialog = searched(next, found);
            let last = searched(next, missing);
            let yad = searched(last, found);
            let none = Err::<(Search, Discovering), Failure>(
                Failure::User(
                    "No working password dialog tool found; install zenity, kdialog, or yad, or configure ansibleVault.passwordFile"@,
                ),
            );
            &&& goes_on(start, Discovering::Search(DialogKind::Zenity))
            &&& goes_on(zenity, Discovering::Test(DialogKind::Zenity, path))
            &&& goes_on(searched(zenity, works), Discovering::Use(DialogKind::Zenity, path))
            &&& searched(zenity, fails) == next
            &&& goes_on(next, Discovering::Search(DialogKind::Kdialog))
            &&& goes_on(kdialog, Discovering::Test(DialogKind::Kdialog, path))
            &&& goes_on(searched(kdialog, works), Discovering::Use(DialogKind::Kdialog, path))
            &&& searched(kdialog, fails) == last
            &&& goes_on(last, Discovering::Search(DialogKind::Yad))
            &&& goes_on(yad, Discovering::Test(DialogKind::Yad, path))
            &&& goes_on(searched(yad, works), Discovering::Use(DialogKind::Yad, path))
            &&& searched(yad, fails) == none
            &&& searched(last, missing) == none
        }),
        DialogKind::Zenity.name_text() == "zenity"@,
        DialogKind::Kdialog.name_text() == "kdialog"@,
        DialogKind::Yad.name_text() == "yad"@,
        DialogKind::Osascript.name_text() == "osascript"@,
{
}

/// The tool that a setting chooses.
pub open spec fn chosen(setting: PromptBackendSetting) -> DialogKind {
    match setting {
        PromptBackendSetting::Zenity => DialogKind::Zenity,
        PromptBackendSetting::Kdialog => DialogKind::Kdialog,
        PromptBackendSetting::Yad => DialogKind::Yad,
        _ => DialogKind::Osascript,
    }
}

/// A chosen tool is looked for and tested. Where it is missing or fails, that is told, and
/// its own failure is passed on.
pub proof fn law_chosen_tools_are_tried_alone(
    setting: PromptBackendSetting,
    path: Seq<char>,
    failure: Failure,
)
    requires
        setting == PromptBackendSetting::Zenity || setting == PromptBackendSetting::Kdialog
            || setting == PromptBackendSetting::Yad,
    ensures
        ({
            let start = search_start(setting, Platform::Linux, true);
            let tested = searched(start, Discovered::Searched(Some(path)));
            &&& goes_on(start, Discovering::Search(chosen(setting)))
            &&& goes_on(tested, Discovering::Test(chosen(setting), path))
            &&& goes_on(
                searched(tested, Discovered::Tested(Ok(()))),
                Discovering::Use(chosen(setting), path),
            )
            &&& searched(tested, Discovered::Tested(Err(failure))) == Err::<
                (Search, Discovering),
                Failure,
            >(failure)
            &&& searched(start, Discovered::Searched(None)) is Err
        }),
{
}

/// Which dialogs a system has: on macOS there is one, in a fixed place, and no other can be
/// chosen. On Linux there has to be a display, and the one of macOS cannot be chosen. No
/// other system has any.
pub proof fn law_dialogs_depend_on_the_system(
    setting: PromptBackendSetting,
    display: bool,
    failure: Failure,
)
    ensures
        ({
            let mac = search_start(setting, Platform::MacOs, display);
            let path = "/usr/bin/osascript"@;
            if setting == PromptBackendSetting::Auto || setting == PromptBackendSetting::Osascript {
                &&& goes_on(mac, Discovering::Test(DialogKind::Osascript, path))
                &&& goes_on(
                    searched(mac, Discovered::Tested(Ok(()))),
                    Discovering::Use(DialogKind::Osascript, path),
                )
                &&& searched(mac, Discovered::Tested(Err(failure))) == Err::<
                    (Search, Discovering),
                    Failure,
                >(failure)
            } else {
                mac == Err::<(Search, Discovering), Failure>(
                    Failure::User("The selected prompt backend is not available on macOS"@),
                )
            }
        }),
        search_start(setting, Platform::Linux, false) == Err::<(Search, Discovering), Failure>(
            Failure::User(
                "Interactive password input requires DISPLAY or WAYLAND_DISPLAY; configure ansibleVault.passwordFile for headless use"@,
            ),
        ),
        search_start(PromptBackendSetting::Osascript, Platform::Linux, true) == Err::<
            (Search, Discovering),
            Failure,
        >(Failure::User("osascript is available on macOS only"@)),
        search_start(setting, Platform::Other, display) == Err::<(Search, Discovering), Failure>(
            Failure::User("Interactive password input is supported on macOS and Linux only"@),
        ),
{
}

/// Either variable is enough to name a display, and a variable that is empty is as good as
/// none.
pub proof fn law_either_variable_names_a_display(n: usize, other: Option<usize>)
    ensures
        n > 0 ==> display_named(Some(n), other) && display_named(other, Some(n)),
        display_named(Some(0), other) == display_named(None, other),
        display_named(other, Some(0)) == display_named(other, None),
        !display_named(None, None),
{
}

} // verus!
