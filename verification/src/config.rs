//! The settings of the language server.
use crate::error::AppError;
use crate::error::AppResult;
use crate::error::Failure;
use crate::paths;
use crate::text;
use vstd::prelude::*;

verus! {

pub const DEFAULT_EXECUTABLE: &'static str = "ansible-vault";

pub const SECTION: &'static str = "ansibleVault";

pub const INVALID_SETTINGS: &'static str = "Invalid ansibleVault settings: ";

pub const INVALID_VAULT_ID: &'static str =
    "ansibleVault.vaultId must be a non-empty label without '@'";

pub const EMPTY_PASSWORD_FILE: &'static str = "ansibleVault.passwordFile must not be empty";

pub const NO_HOME: &'static str = "Cannot resolve the home directory";

/// How to ask for the password.
#[derive(Clone, Copy, Debug, PartialEq, Eq, Structural)]
pub enum PromptBackendSetting {
    Auto,
    Osascript,
    Zenity,
    Kdialog,
    Yad,
}

impl Default for PromptBackendSetting {
    fn default() -> (r: PromptBackendSetting)
        ensures
            r == PromptBackendSetting::Auto,
    {
        PromptBackendSetting::Auto
    }
}

/// What the user has configured.
#[derive(Clone, Debug, PartialEq, Eq)]
pub struct Settings {
    /// The `ansible-vault` command: an absolute path, or a name to look for.
    pub executable: String,
    /// The file that holds the password, if it is not to be asked for.
    pub password_file: Option<String>,
    /// The label of the Vault ID.
    pub vault_id: Option<String>,
    /// How to ask for the password.
    pub prompt_backend: PromptBackendSetting,
}

/// Settings as contracts speak of them.
pub struct Configured {
    pub executable: Seq<char>,
    pub password_file: Option<Seq<char>>,
    pub vault_id: Option<Seq<char>>,
    pub prompt_backend: PromptBackendSetting,
}

/// The text of an optional string.
pub open spec fn shown(value: Option<String>) -> Option<Seq<char>> {
    match value {
        Some(text) => Some(text@),
        None => None,
    }
}

impl View for Settings {
    type V = Configured;

    open spec fn view(&self) -> Configured {
        Configured {
            executable: self.executable@,
            password_file: shown(self.password_file),
            vault_id: shown(self.vault_id),
            prompt_backend: self.prompt_backend,
        }
    }
}

/// The settings of a user who has configured nothing.
pub open spec fn default_settings() -> Configured {
    Configured {
        executable: DEFAULT_EXECUTABLE@,
        password_file: None,
        vault_id: None,
        prompt_backend: PromptBackendSetting::Auto,
    }
}

impl Default for Settings {
    fn default() -> (r: Settings)
        ensures
            r@ == default_settings(),
    {
        Settings {
            executable: DEFAULT_EXECUTABLE.to_string(),
            password_file: None,
            vault_id: None,
            prompt_backend: PromptBackendSetting::Auto,
        }
    }
}

// ---------------------------------------------------------------------------
// Reading settings
// ---------------------------------------------------------------------------

/// A JSON value.
#[verifier::external_type_specification]
#[verifier::external_body]
pub struct ExJson(serde_json::Value);

/// The members of a JSON object; none for any other JSON value.
pub uninterp spec fn json_members(value: serde_json::Value) -> Map<Seq<char>, serde_json::Value>;

/// Looks for a member with `serde_json::Value::get`. Claimed: it is found exactly
/// where the value is an object that has it, and a copy of it is returned.
#[verifier::external_body]
fn json_member(value: &serde_json::Value, name: &str) -> (r: Option<serde_json::Value>)
    ensures
        match r {
            Some(member) => json_members(*value).contains_key(name@) && member == json_members(
                *value,
            )[name@],
            None => !json_members(*value).contains_key(name@),
        },
{
    value.get(name).cloned()
}

/// The part of the configuration that holds the settings: the member named after
/// the server where there is one, and the whole configuration otherwise.
pub fn settings_section(value: serde_json::Value) -> (r: serde_json::Value)
    ensures
        json_members(value).contains_key("ansibleVault"@) ==> r == json_members(
            value,
        )["ansibleVault"@],
        !json_members(value).contains_key("ansibleVault"@) ==> r == value,
        r == if json_members(value).contains_key(SECTION@) {
            json_members(value)[SECTION@]
        } else {
            value
        },
{
    match json_member(&value, SECTION) {
        Some(section) => section,
        None => value,
    }
}

/// A usable label of a Vault ID: visible, and without an at sign, which separates
/// the label from the password source.
pub open spec fn usable_vault_id(id: Seq<char>) -> bool {
    text::trim(id).len() > 0 && !id.contains('@')
}

/// The settings that are in force once a configuration has been read, or why it
/// is refused. `read` is what reading it gave: nothing where there is none, and
/// otherwise the settings or the reason why it cannot be read.
pub open spec fn accepted(read: Option<Result<Configured, Seq<char>>>) -> Result<
    Configured,
    Failure,
> {
    match read {
        None => Ok(default_settings()),
        Some(Err(reason)) => Err(Failure::User(INVALID_SETTINGS@ + reason)),
        Some(Ok(settings)) => match settings.vault_id {
            Some(id) => if usable_vault_id(id) {
                Ok(settings)
            } else {
                Err(Failure::User(INVALID_VAULT_ID@))
            },
            None => Ok(settings),
        },
    }
}

/// Where the configured password file lies, or why that cannot be told. `home` is
/// the user's home directory, if it is known.
pub open spec fn password_path(
    configured: Option<Seq<char>>,
    worktree_root: Seq<char>,
    home: Option<Seq<char>>,
) -> Result<Option<Seq<char>>, Failure> {
    match configured {
        None => Ok(None),
        Some(path) => if text::trim(path).len() == 0 {
            Err(Failure::User(EMPTY_PASSWORD_FILE@))
        } else if path == "~"@ {
            match home {
                Some(directory) => Ok(Some(paths::joined_path(worktree_root, directory))),
                None => Err(Failure::User(NO_HOME@)),
            }
        } else if text::starts_with(path, "~/"@) {
            match home {
                Some(directory) => Ok(
                    Some(
                        paths::joined_path(
                            worktree_root,
                            paths::joined_path(directory, path.skip(2)),
                        ),
                    ),
                ),
                None => Err(Failure::User(NO_HOME@)),
            }
        } else {
            Ok(Some(paths::joined_path(worktree_root, path)))
        },
    }
}

/// Whether a path that was looked for is the one that a specification gives.
pub open spec fn same_path(
    result: AppResult<Option<String>>,
    wanted: Result<Option<Seq<char>>, Failure>,
) -> bool {
    match (result, wanted) {
        (Ok(path), Ok(expected)) => shown(path) == expected,
        (Err(error), Err(failure)) => error@ == failure,
        _ => false,
    }
}

/// The user's home directory by `dirs::home_dir`, where it is known and is text.
/// It depends on the environment, and nothing is claimed of it.
#[verifier::external_body]
fn home_directory() -> (r: Option<String>) {
    dirs::home_dir().and_then(|path| path.to_str().map(|text| text.to_string()))
}

impl Settings {
    /// The settings that are in force once a configuration has been read.
    pub fn from_lsp_value(read: Option<Result<Settings, String>>) -> (r: AppResult<Settings>)
        ensures
            ({
                let wanted = accepted(
                    match read {
                        None => None,
                        Some(Ok(settings)) => Some(Ok(settings@)),
                        Some(Err(reason)) => Some(Err(reason@)),
                    },
                );
                match r {
                    Ok(settings) => wanted == Ok::<Configured, Failure>(settings@),
                    Err(error) => wanted == Err::<Configured, Failure>(error@),
                }
            }),
    {
        match read {
            None => Ok(Settings::default()),
            Some(Err(reason)) => {
                let mut message = INVALID_SETTINGS.to_string();
                message.append(reason.as_str());
                Err(AppError::User(message))
            },
            Some(Ok(settings)) => {
                let usable = match &settings.vault_id {
                    Some(id) => {
                        let chars = text::chars_of(id.as_str());
                        text::trimmed(chars.as_slice()).len() > 0 && !text::holds(
                            chars.as_slice(),
                            '@',
                        )
                    },
                    None => true,
                };
                if usable {
                    Ok(settings)
                } else {
                    Err(AppError::told(INVALID_VAULT_ID))
                }
            },
        }
    }

    /// Where the configured password file lies, given the home directory.
    pub fn resolve_password_file_from(&self, worktree_root: &str, home: Option<String>) -> (r:
        AppResult<Option<String>>)
        ensures
            same_path(r, password_path(self@.password_file, worktree_root@, shown(home))),
    {
        let configured = match &self.password_file {
            None => {
                return Ok(None);
            },
            Some(path) => path,
        };
        let held = text::chars_of(configured.as_str());
        let chars: &[char] = held.as_slice();
        if text::trimmed(chars).len() == 0 {
            return Err(AppError::told(EMPTY_PASSWORD_FILE));
        }
        proof {
            reveal_strlit("~/");
        }
        let home_prefix = text::chars_of("~/");
        let expanded = if text::is_str(chars, "~") {
            match home {
                Some(directory) => directory,
                None => {
                    return Err(AppError::told(NO_HOME));
                },
            }
        } else if text::has_prefix(chars, home_prefix.as_slice()) {
            match home {
                Some(directory) => {
                    proof {
                        assert(chars@.subrange(2, chars@.len() as int) =~= chars@.skip(2));
                    }
                    let rest = text::string_of(&chars[2..chars.len()]);
                    paths::join_path(directory.as_str(), rest.as_str())
                },
                None => {
                    return Err(AppError::told(NO_HOME));
                },
            }
        } else {
            configured.clone()
        };
        Ok(Some(paths::join_path(worktree_root, expanded.as_str())))
    }

    /// Where the configured password file lies. A path that begins with `~` is
    /// taken from the home directory, any other relative path from the worktree.
    pub fn resolve_password_file(&self, worktree_root: &str) -> (r: AppResult<Option<String>>)
        ensures
            exists|home: Option<Seq<char>>|
                same_path(
                    r,
                    #[trigger] password_path(self@.password_file, worktree_root@, home),
                ),
    {
        let home = home_directory();
        let ghost known = shown(home);
        let r = self.resolve_password_file_from(worktree_root, home);
        proof {
            assert(same_path(r, password_path(self@.password_file, worktree_root@, known)));
        }
        r
    }
}

/// The home directory plays a part only where the configured path begins with
/// `~`.
pub proof fn law_home_matters_only_behind_a_tilde(
    configured: Seq<char>,
    worktree_root: Seq<char>,
    home: Option<Seq<char>>,
)
    requires
        configured.len() > 0,
        configured[0] != '~',
    ensures
        password_path(Some(configured), worktree_root, home) == password_path(
            Some(configured),
            worktree_root,
            None,
        ),
{
    reveal_strlit("~");
    reveal_strlit("~/");
    if text::starts_with(configured, "~/"@) {
        assert(configured.take(2)[0] == '~');
    }
}

/// A password file is looked for at an absolute path wherever the worktree has one.
pub proof fn law_password_path_is_absolute(
    configured: Seq<char>,
    worktree_root: Seq<char>,
    home: Option<Seq<char>>,
)
    requires
        paths::absolute(worktree_root),
    ensures
        password_path(Some(configured), worktree_root, home) matches Ok(Some(path))
            ==> paths::absolute(path),
{
}

/// Where a configured password file lies: at the path itself where that is absolute, in
/// the home directory where it begins with a tilde, and else in the worktree. No file is
/// configured by nothing, and a blank path is refused.
pub proof fn law_password_files_are_looked_for_where_they_are_configured(
    path: Seq<char>,
    rest: Seq<char>,
    root: Seq<char>,
    home: Seq<char>,
    known: Option<Seq<char>>,
)
    requires
        path.len() > 0,
        !text::white_space(path[0]),
        path[0] != '~',
        root.len() > 0,
        root.last() != '/',
        home.len() > 0,
        home[0] == '/',
        home.last() != '/',
        rest.len() > 0,
        rest[0] != '/',
    ensures
        path[0] == '/' ==> password_path(Some(path), root, known) == Ok::<
            Option<Seq<char>>,
            Failure,
        >(Some(path)),
        path[0] != '/' ==> password_path(Some(path), root, known) == Ok::<
            Option<Seq<char>>,
            Failure,
        >(Some(root + "/"@ + path)),
        password_path(Some("~"@), root, Some(home)) == Ok::<Option<Seq<char>>, Failure>(Some(home)),
        password_path(Some("~/"@ + rest), root, Some(home)) == Ok::<Option<Seq<char>>, Failure>(
            Some(home + "/"@ + rest),
        ),
        password_path(Some("~"@), root, None) == Err::<Option<Seq<char>>, Failure>(
            Failure::User("Cannot resolve the home directory"@),
        ),
        password_path(Some("~/"@ + rest), root, None) == Err::<Option<Seq<char>>, Failure>(
            Failure::User("Cannot resolve the home directory"@),
        ),
        password_path(None, root, known) == Ok::<Option<Seq<char>>, Failure>(None),
{
    reveal_strlit("~");
    reveal_strlit("~/");
    reveal_strlit("/");
    assert("/"@ =~= seq!['/']);
    text::lemma_trim_empty(path);
    text::lemma_trim_empty("~"@);
    assert(!text::white_space("~"@[0]));
    assert("~"@ != path);
    let far = "~/"@ + rest;
    text::lemma_trim_empty(far);
    assert(!text::white_space(far[0]));
    assert(far.take(2) =~= "~/"@);
    assert(far.skip(2) =~= rest);
    assert(far.len() > 2);
    assert(path.len() >= 2 ==> path.take(2)[0] == path[0]);
    let inner = home + "/"@ + rest;
    assert(inner[0] == home[0]);
}

/// A tilde before a name is part of the name.
pub proof fn law_only_a_tilde_alone_means_home(
    name: Seq<char>,
    root: Seq<char>,
    home: Option<Seq<char>>,
)
    requires
        name.len() > 0,
        name[0] != '/',
        root.len() > 0,
        root.last() != '/',
    ensures
        password_path(Some("~"@ + name), root, home) == Ok::<Option<Seq<char>>, Failure>(
            Some(root + "/~"@ + name),
        ),
{
    reveal_strlit("~");
    reveal_strlit("~/");
    reveal_strlit("/~");
    let path = "~"@ + name;
    text::lemma_trim_empty(path);
    assert(path[0] == '~');
    assert(!text::white_space(path[0]));
    assert(path.take(2)[1] == name[0]);
    assert("~/"@[1] == '/');
    assert(root + seq!['/'] + path =~= root + "/~"@ + name);
}

/// A blank path is no path.
pub proof fn law_blank_password_files_are_refused(
    path: Seq<char>,
    root: Seq<char>,
    home: Option<Seq<char>>,
)
    requires
        forall|i: int| 0 <= i < path.len() ==> text::white_space(#[trigger] path[i]),
    ensures
        password_path(Some(path), root, home) == Err::<Option<Seq<char>>, Failure>(
            Failure::User("ansibleVault.passwordFile must not be empty"@),
        ),
{
    text::lemma_trim_empty(path);
}

/// Settings are taken as they are read, unless a Vault ID is configured whose label is
/// blank or holds an at sign. Without a configuration the defaults are in force: the
/// command `ansible-vault`, no password file, no Vault ID, and any dialog.
pub proof fn law_settings_are_taken_as_they_are(settings: Configured, reason: Seq<char>)
    ensures
        ({
            let bad = settings.vault_id matches Some(id) && (id.contains('@') || forall|i: int|
                0 <= i < id.len() ==> text::white_space(#[trigger] id[i]));
            &&& !bad ==> accepted(Some(Ok(settings))) == Ok::<Configured, Failure>(settings)
            &&& bad ==> accepted(Some(Ok(settings))) == Err::<Configured, Failure>(
                Failure::User("ansibleVault.vaultId must be a non-empty label without '@'"@),
            )
        }),
        accepted(Some(Err(reason))) == Err::<Configured, Failure>(
            Failure::User("Invalid ansibleVault settings: "@ + reason),
        ),
        accepted(None) matches Ok(found) && found.executable == "ansible-vault"@
            && found.password_file is None && found.vault_id is None && found.prompt_backend
            == PromptBackendSetting::Auto,
{
    if let Some(id) = settings.vault_id {
        text::lemma_trim_empty(id);
    }
}

} // verus!
