//! The checks before an operation: is `ansible-vault` there and fit for it, can
//! the file be replaced, and where does the password come from.
//!
//! The checks alternate with work outside of this library. `Preflight` holds
//! where they stand; it names the next piece of work, is told what came of it,
//! and goes on or gives the reason why the operation cannot be done.
use crate::bytes;
use crate::config;
use crate::config::Configured;
use crate::config::PromptBackendSetting;
use crate::config::Settings;
use crate::error::AppError;
use crate::error::AppResult;
use crate::error::Failure;
use crate::operation::Operation;
use crate::paths;
use crate::process::Left;
use crate::process::ProcessOutput;
use crate::prompt::DialogKind;
use crate::prompt::PromptBackend;
use crate::text;
use crate::vault;
use crate::vault::FileFacts;
use vstd::prelude::*;

verus! {

pub const UNSUPPORTED_SYSTEM: &'static str = "Ansible Vault extension supports macOS and Linux only";

pub const EMPTY_EXECUTABLE: &'static str = "ansibleVault.executable must not be empty";

pub const RELATIVE_EXECUTABLE: &'static str =
    "ansibleVault.executable must be an absolute path or a command name from PATH";

pub const NO_TARGET: &'static str = "A saved file:// document is required for this operation";

pub const NO_PARENT: &'static str = "The target file has no parent directory";

pub const DOES_NOT_START: &'static str =
    "ansible-vault was found but failed to start; check its Python environment and temporary-directory configuration";

pub const UNEXPECTED: &'static str = "unexpected answer during the preflight checks";

// ---------------------------------------------------------------------------
// The command
// ---------------------------------------------------------------------------

/// Where the configured command is to be found.
#[derive(Clone, Debug, PartialEq, Eq)]
pub enum ExecutableChoice {
    /// At this path.
    At(String),
    /// By this name, in the search path.
    InPath(String),
}

/// A choice as contracts speak of it.
pub enum Choice {
    At(Seq<char>),
    InPath(Seq<char>),
}

impl View for ExecutableChoice {
    type V = Choice;

    open spec fn view(&self) -> Choice {
        match *self {
            ExecutableChoice::At(path) => Choice::At(path@),
            ExecutableChoice::InPath(name) => Choice::InPath(name@),
        }
    }
}

/// Where a configured command is to be found: an absolute path at that path, a
/// bare name in the search path. Any other relative path is refused.
pub open spec fn executable_choice(configured: Seq<char>) -> Result<Choice, Failure> {
    if text::trim(configured).len() == 0 {
        Err(Failure::User(EMPTY_EXECUTABLE@))
    } else if paths::absolute(configured) {
        Ok(Choice::At(configured))
    } else if paths::components(configured).len() > 1 {
        Err(Failure::User(RELATIVE_EXECUTABLE@))
    } else {
        Ok(Choice::InPath(configured))
    }
}

pub fn resolve_executable(configured: &str) -> (r: AppResult<ExecutableChoice>)
    ensures
        match r {
            Ok(choice) => executable_choice(configured@) == Ok::<Choice, Failure>(choice@),
            Err(error) => executable_choice(configured@) == Err::<Choice, Failure>(error@),
        },
{
    let held = text::chars_of(configured);
    if text::trimmed(held.as_slice()).len() == 0 {
        Err(AppError::told(EMPTY_EXECUTABLE))
    } else if paths::is_absolute(configured) {
        Ok(ExecutableChoice::At(configured.to_string()))
    } else if paths::components_of(held.as_slice()).len() > 1 {
        Err(AppError::told(RELATIVE_EXECUTABLE))
    } else {
        Ok(ExecutableChoice::InPath(configured.to_string()))
    }
}

/// Why a command that was looked for in the search path cannot be used.
pub open spec fn not_found(name: Seq<char>) -> Failure {
    Failure::User(
        "Cannot find '"@ + name
            + "' in PATH; install ansible-core or configure ansibleVault.executable"@,
    )
}

/// Why the file at a path cannot be run, if it cannot.
pub open spec fn executable_failure(path: Seq<char>, found: Result<FileFacts, Seq<char>>) -> Option<
    Failure,
> {
    match found {
        Err(reason) => Some(
            Failure::User("Cannot access ansible-vault at "@ + path + (": "@ + reason)),
        ),
        Ok(facts) => if !facts.regular {
            Some(Failure::User(path + " is not a regular file"@))
        } else if facts.mode & 0o111 == 0 {
            Some(Failure::User(path + " is not executable"@))
        } else {
            None
        },
    }
}

/// Refuses a command that is no regular file or that nobody may run.
pub fn validate_executable(path: &str, found: &Result<FileFacts, String>) -> (r: AppResult<()>)
    ensures
        match r {
            Ok(_) => executable_failure(path@, facts_of(*found)) is None,
            Err(error) => executable_failure(path@, facts_of(*found)) == Some(error@),
        },
{
    match found {
        Err(reason) => {
            let mut rest = ": ".to_string();
            rest.append(reason.as_str());
            Err(AppError::told_parts("Cannot access ansible-vault at ", path, rest.as_str()))
        },
        Ok(facts) => {
            if !facts.regular {
                Err(AppError::told_pair(path, " is not a regular file"))
            } else if facts.mode & 0o111 == 0 {
                Err(AppError::told_pair(path, " is not executable"))
            } else {
                Ok(())
            }
        },
    }
}

/// What the file system says of a file, or why it does not, as contracts speak of
/// it.
pub open spec fn facts_of(found: Result<FileFacts, String>) -> Result<FileFacts, Seq<char>> {
    match found {
        Ok(facts) => Ok(facts),
        Err(reason) => Err(reason@),
    }
}

// ---------------------------------------------------------------------------
// Options
// ---------------------------------------------------------------------------

/// The options of `ansible-vault` that an operation needs.
pub open spec fn needed_options(operation: Operation, has_vault_id: bool) -> Seq<Seq<char>> {
    let source = if has_vault_id {
        seq!["--vault-id"@]
    } else {
        seq!["--vault-password-file"@]
    };
    match operation {
        Operation::EncryptFile => source + seq!["--output"@],
        Operation::DecryptFile => source + seq!["--output"@],
        Operation::EncryptValue => source + seq!["--stdin-name"@],
        Operation::DecryptValue => source,
    }
}

/// The texts of a list of string slices.
pub open spec fn strs(v: Seq<&str>) -> Seq<Seq<char>> {
    Seq::new(v.len(), |i: int| v[i]@)
}

/// The options of `ansible-vault` that an operation needs.
pub fn required_options(operation: Operation, has_vault_id: bool) -> (r: Vec<&'static str>)
    ensures
        strs(r@) == needed_options(operation, has_vault_id),
{
    let mut options: Vec<&'static str> = Vec::new();
    if has_vault_id {
        options.push("--vault-id");
    } else {
        options.push("--vault-password-file");
    }
    if operation.is_on_file() {
        options.push("--output");
    }
    if operation == Operation::EncryptValue {
        options.push("--stdin-name");
    }
    proof {
        assert(strs(options@) =~= needed_options(operation, has_vault_id));
    }
    options
}

/// The first of the options from `i` on that a help text does not mention.
pub open spec fn missing_option(options: Seq<Seq<char>>, help: Seq<u8>, i: int) -> Option<
    Seq<char>,
>
    decreases options.len() - i,
{
    if i < 0 || i >= options.len() {
        None
    } else if !bytes::contains_word(help, options[i]) {
        Some(options[i])
    } else {
        missing_option(options, help, i + 1)
    }
}

/// Why `ansible-vault` is not fit for an operation, if it is not, by the help text
/// of the operation's command.
pub open spec fn help_failure(operation: Operation, has_vault_id: bool, help: Left) -> Option<
    Failure,
> {
    let command = operation.subcommand_text();
    if !help.success {
        Some(
            Failure::User(
                "ansible-vault does not provide a working '"@ + command + "' command"@,
            ),
        )
    } else {
        match missing_option(needed_options(operation, has_vault_id), help.stdout + help.stderr, 0) {
            Some(option) => Some(
                Failure::User(
                    "The installed ansible-vault '"@ + command + (
                    "' command does not support required option "@ + option),
                ),
            ),
            None => None,
        }
    }
}

fn joined_bytes(a: &Vec<u8>, b: &Vec<u8>) -> (r: Vec<u8>)
    ensures
        r@ == a@ + b@,
{
    let mut out: Vec<u8> = Vec::new();
    for i in 0..a.len()
        invariant
            out@ == a@.take(i as int),
    {
        out.push(a[i]);
    }
    for i in 0..b.len()
        invariant
            out@ == a@ + b@.take(i as int),
    {
        out.push(b[i]);
    }
    proof {
        assert(b@.take(b@.len() as int) =~= b@);
    }
    out
}

/// Refuses an `ansible-vault` whose help text does not mention every option that
/// the operation needs.
pub fn validate_help(operation: Operation, has_vault_id: bool, help: &ProcessOutput) -> (r:
    AppResult<()>)
    ensures
        match r {
            Ok(_) => help_failure(operation, has_vault_id, help@) is None,
            Err(error) => help_failure(operation, has_vault_id, help@) == Some(error@),
        },
{
    if !help.success {
        return Err(
            AppError::told_parts(
                "ansible-vault does not provide a working '",
                operation.subcommand(),
                "' command",
            ),
        );
    }
    let whole = joined_bytes(&help.stdout, &help.stderr);
    let options = required_options(operation, has_vault_id);
    let ghost all = needed_options(operation, has_vault_id);
    for i in 0..options.len()
        invariant
            all == needed_options(operation, has_vault_id),
            strs(options@) == all,
            help.success,
            whole@ == help@.stdout + help@.stderr,
            missing_option(all, whole@, 0) == missing_option(all, whole@, i as int),
    {
        proof {
            assert(all[i as int] == options@[i as int]@);
        }
        if !bytes::has_word(whole.as_slice(), options[i]) {
            let mut rest = "' command does not support required option ".to_string();
            rest.append(options[i]);
            return Err(
                AppError::told_parts(
                    "The installed ansible-vault '",
                    operation.subcommand(),
                    rest.as_str(),
                ),
            );
        }
    }
    Ok(())
}

// ---------------------------------------------------------------------------
// The password source
// ---------------------------------------------------------------------------

/// Where the password comes from.
#[derive(Clone, Debug)]
pub enum PasswordProvider {
    /// From this file.
    File(String),
    /// From the user.
    Prompt(PromptBackend),
}

/// A password source as contracts speak of it.
pub enum PasswordSource {
    File(Seq<char>),
    Prompt(DialogKind, Seq<char>),
}

impl View for PasswordProvider {
    type V = PasswordSource;

    open spec fn view(&self) -> PasswordSource {
        match *self {
            PasswordProvider::File(path) => PasswordSource::File(path@),
            PasswordProvider::Prompt(backend) => PasswordSource::Prompt(backend@.0, backend@.1),
        }
    }
}

/// What reading the first byte of a password file gave: an outer error where the
/// file cannot be opened, an inner one where it cannot be read, and otherwise
/// whether there is a byte.
pub type FirstByte = Result<Result<bool, String>, String>;

/// The sentence about a password file.
pub open spec fn about_password_file(path: Seq<char>, what: Seq<char>) -> Failure {
    Failure::User("Password file "@ + path + what)
}

/// Why a password file cannot be used, if it cannot, by what kind of file it is.
pub open spec fn password_file_failure(path: Seq<char>, found: Result<FileFacts, Seq<char>>) -> Option<
    Failure,
> {
    match found {
        Err(reason) => Some(Failure::Filesystem(reason)),
        Ok(facts) => if !facts.regular {
            Some(about_password_file(path, " is not a regular file"@))
        } else {
            None
        },
    }
}

/// Why a password file cannot be used, if it cannot, by its first byte.
pub open spec fn password_read_failure(path: Seq<char>, read: FirstByte) -> Option<Failure> {
    match read {
        Err(reason) => Some(about_password_file(path, " is not readable: "@ + reason@)),
        Ok(Err(reason)) => Some(Failure::Filesystem(reason@)),
        Ok(Ok(false)) => Some(about_password_file(path, " is empty"@)),
        Ok(Ok(true)) => None,
    }
}

/// The warning about a password file that others may read or write.
pub open spec fn exposed_warning(path: Seq<char>) -> Seq<char> {
    "Password file "@ + path + " is readable or writable by group/other users"@
}

/// Refuses a password file that is not a regular file.
pub fn validate_password_file(path: &str, found: &Result<FileFacts, String>) -> (r: AppResult<()>)
    ensures
        match r {
            Ok(_) => password_file_failure(path@, facts_of(*found)) is None,
            Err(error) => password_file_failure(path@, facts_of(*found)) == Some(error@),
        },
{
    match found {
        Err(reason) => Err(AppError::Filesystem(reason.clone())),
        Ok(facts) => {
            if !facts.regular {
                Err(AppError::told_parts("Password file ", path, " is not a regular file"))
            } else {
                Ok(())
            }
        },
    }
}

/// Refuses a password file that cannot be read or is empty.
pub fn validate_password_read(path: &str, read: &FirstByte) -> (r: AppResult<()>)
    ensures
        match r {
            Ok(_) => password_read_failure(path@, *read) is None,
            Err(error) => password_read_failure(path@, *read) == Some(error@),
        },
{
    match read {
        Err(reason) => {
            let mut rest = " is not readable: ".to_string();
            rest.append(reason.as_str());
            Err(AppError::told_parts("Password file ", path, rest.as_str()))
        },
        Ok(Err(reason)) => Err(AppError::Filesystem(reason.clone())),
        Ok(Ok(false)) => Err(AppError::told_parts("Password file ", path, " is empty")),
        Ok(Ok(true)) => Ok(()),
    }
}

// ---------------------------------------------------------------------------
// The run of the checks
// ---------------------------------------------------------------------------

/// What is to be done next.
#[derive(Clone, Debug)]
pub enum PreflightAction {
    /// Look for a command in the search path.
    FindInPath(String),
    /// Ask the file system about the command, through links.
    InspectExecutable(String),
    /// Make a private working directory.
    CreateWorkDirectory,
    /// Ask the file system about the target, not through links.
    InspectTarget(String),
    /// Open the target for reading.
    OpenTarget(String),
    /// Make a temporary file in the target's directory and remove it.
    ProbeDirectory(String),
    /// Run the command with these arguments.
    Run(String, Vec<String>),
    /// Resolve the path of the password file.
    LocatePasswordFile(String),
    /// Ask the file system about the password file.
    InspectPasswordFile(String),
    /// Open the password file and read a byte.
    ReadPasswordFile(String),
    /// Look for a dialog tool.
    DiscoverPrompt(PromptBackendSetting),
    /// The checks are done: the command, the password source and the warnings.
    Ready(String, PasswordProvider, Vec<String>),
}

/// An action as contracts speak of it.
pub enum Acting {
    FindInPath(Seq<char>),
    InspectExecutable(Seq<char>),
    CreateWorkDirectory,
    InspectTarget(Seq<char>),
    OpenTarget(Seq<char>),
    ProbeDirectory(Seq<char>),
    Run(Seq<char>, Seq<Seq<char>>),
    LocatePasswordFile(Seq<char>),
    InspectPasswordFile(Seq<char>),
    ReadPasswordFile(Seq<char>),
    DiscoverPrompt(PromptBackendSetting),
    Ready(Seq<char>, PasswordSource, Seq<Seq<char>>),
}

impl View for PreflightAction {
    type V = Acting;

    open spec fn view(&self) -> Acting {
        match *self {
            PreflightAction::FindInPath(name) => Acting::FindInPath(name@),
            PreflightAction::InspectExecutable(path) => Acting::InspectExecutable(path@),
            PreflightAction::CreateWorkDirectory => Acting::CreateWorkDirectory,
            PreflightAction::InspectTarget(path) => Acting::InspectTarget(path@),
            PreflightAction::OpenTarget(path) => Acting::OpenTarget(path@),
            PreflightAction::ProbeDirectory(path) => Acting::ProbeDirectory(path@),
            PreflightAction::Run(path, args) => Acting::Run(path@, text::texts(args@)),
            PreflightAction::LocatePasswordFile(path) => Acting::LocatePasswordFile(path@),
            PreflightAction::InspectPasswordFile(path) => Acting::InspectPasswordFile(path@),
            PreflightAction::ReadPasswordFile(path) => Acting::ReadPasswordFile(path@),
            PreflightAction::DiscoverPrompt(setting) => Acting::DiscoverPrompt(setting),
            PreflightAction::Ready(path, source, warnings) => Acting::Ready(
                path@,
                source@,
                text::texts(warnings@),
            ),
        }
    }
}

/// What came of an action.
#[derive(Debug)]
pub enum PreflightEvent {
    /// Where the command was found, if it was.
    Found(Option<String>),
    /// What the file system says, or why it does not.
    Inspected(Result<FileFacts, String>),
    /// Whether the working directory was made.
    WorkDirectory(Result<(), String>),
    /// Whether the target was opened.
    Opened(Result<(), String>),
    /// Whether a file can be made in the target's directory.
    Probed(Result<(), String>),
    /// What the command left behind.
    Ran(AppResult<ProcessOutput>),
    /// Where the password file is, or why it cannot be reached.
    Located(Result<String, String>),
    /// Whether the password file has a byte.
    Read(FirstByte),
    /// The dialog tool, or why there is none.
    Prompt(AppResult<PromptBackend>),
}

/// Which answer is awaited.
#[derive(Clone, Copy, Debug, PartialEq, Eq, Structural)]
pub enum Stage {
    Find,
    InspectExecutable,
    WorkDirectory,
    InspectTarget,
    OpenTarget,
    ProbeDirectory,
    Version,
    Help,
    LocatePassword,
    InspectPassword,
    ReadPassword,
    Prompt,
    Done,
}

/// Where the checks stand.
#[derive(Debug)]
pub struct Preflight {
    stage: Stage,
    operation: Operation,
    has_vault_id: bool,
    prompt_backend: PromptBackendSetting,
    /// The command, as configured and then where it was found.
    executable: String,
    /// The file to work on.
    target: Option<String>,
    /// Whether nobody may write the target.
    unwritable: bool,
    /// Where the password file is configured to be, or why that cannot be told.
    password: AppResult<Option<String>>,
    /// Where the password file is.
    canonical: String,
    /// Whether others may read or write the password file.
    exposed: bool,
}

/// Where the checks stand, as contracts speak of it.
pub struct Checks {
    pub stage: Stage,
    pub operation: Operation,
    pub has_vault_id: bool,
    pub prompt_backend: PromptBackendSetting,
    pub executable: Seq<char>,
    pub target: Option<Seq<char>>,
    pub unwritable: bool,
    pub password: Result<Option<Seq<char>>, Failure>,
    pub canonical: Seq<char>,
    pub exposed: bool,
}

/// A configured place, as contracts speak of it.
pub open spec fn place_of(place: AppResult<Option<String>>) -> Result<Option<Seq<char>>, Failure> {
    match place {
        Ok(path) => Ok(config::shown(path)),
        Err(error) => Err(error@),
    }
}

impl View for Preflight {
    type V = Checks;

    closed spec fn view(&self) -> Checks {
        Checks {
            stage: self.stage,
            operation: self.operation,
            has_vault_id: self.has_vault_id,
            prompt_backend: self.prompt_backend,
            executable: self.executable@,
            target: config::shown(self.target),
            unwritable: self.unwritable,
            password: place_of(self.password),
            canonical: self.canonical@,
            exposed: self.exposed,
        }
    }
}

/// Where the checks stand next and what is to be done, or why they fail.
pub type Outcome = Result<(Checks, Acting), Failure>;

impl Checks {
    /// The command starts: its version is asked for.
    pub open spec fn ask_version(self) -> Outcome {
        Ok(
            (
                Checks { stage: Stage::Version, ..self },
                Acting::Run(self.executable, seq!["--version"@]),
            ),
        )
    }

    /// Behind the working directory: a file operation needs a file, a value
    /// operation does not look at one.
    pub open spec fn ask_target(self) -> Outcome {
        if self.operation.on_file() {
            match self.target {
                Some(path) => Ok(
                    (Checks { stage: Stage::InspectTarget, ..self }, Acting::InspectTarget(path)),
                ),
                None => Err(Failure::User(NO_TARGET@)),
            }
        } else {
            self.ask_version()
        }
    }

    /// Behind the inspection of the target.
    pub open spec fn target_inspected(self, found: Result<FileFacts, Seq<char>>) -> Outcome {
        let path = self.target->0;
        match found {
            Err(reason) => Err(
                Failure::User("Cannot access target file "@ + path + (": "@ + reason)),
            ),
            Ok(facts) => if facts.symlink {
                Err(Failure::User(vault::SYMLINK@))
            } else if !facts.regular {
                Err(Failure::User(vault::NOT_REGULAR@))
            } else {
                Ok(
                    (
                        Checks {
                            stage: Stage::OpenTarget,
                            unwritable: facts.unwritable(),
                            ..self
                        },
                        Acting::OpenTarget(path),
                    ),
                )
            },
        }
    }

    /// Behind the opening of the target.
    pub open spec fn target_opened(self, opened: Result<(), Seq<char>>) -> Outcome {
        match opened {
            Err(reason) => Err(
                Failure::User("The target file is not readable: "@ + reason),
            ),
            Ok(_) => if self.unwritable {
                Err(Failure::User(vault::READ_ONLY@))
            } else {
                match paths::parent(self.target->0) {
                    Some(directory) => Ok(
                        (
                            Checks { stage: Stage::ProbeDirectory, ..self },
                            Acting::ProbeDirectory(directory),
                        ),
                    ),
                    None => Err(Failure::User(NO_PARENT@)),
                }
            },
        }
    }

    /// Behind the probe of the target's directory.
    pub open spec fn directory_probed(self, probed: Result<(), Seq<char>>) -> Outcome {
        match probed {
            Err(reason) => Err(
                Failure::User(
                    "The target directory "@ + paths::parent(self.target->0)->0 + (
                    " is not writable: "@ + reason),
                ),
            ),
            Ok(_) => self.ask_version(),
        }
    }

    /// Behind the run that asks for the version.
    pub open spec fn version_known(self, ran: Result<Left, Failure>) -> Outcome {
        match ran {
            Err(failure) => Err(failure),
            Ok(output) => if !output.success {
                Err(Failure::User(DOES_NOT_START@))
            } else {
                Ok(
                    (
                        Checks { stage: Stage::Help, ..self },
                        Acting::Run(
                            self.executable,
                            seq![self.operation.subcommand_text(), "--help"@],
                        ),
                    ),
                )
            },
        }
    }

    /// Behind the run that asks for help: only here the password source is looked
    /// at.
    pub open spec fn help_known(self, ran: Result<Left, Failure>) -> Outcome {
        match ran {
            Err(failure) => Err(failure),
            Ok(output) => match help_failure(self.operation, self.has_vault_id, output) {
                Some(failure) => Err(failure),
                None => match self.password {
                    Err(failure) => Err(failure),
                    Ok(Some(path)) => Ok(
                        (
                            Checks { stage: Stage::LocatePassword, ..self },
                            Acting::LocatePasswordFile(path),
                        ),
                    ),
                    Ok(None) => Ok(
                        (
                            Checks { stage: Stage::Prompt, ..self },
                            Acting::DiscoverPrompt(self.prompt_backend),
                        ),
                    ),
                },
            },
        }
    }

    /// Behind the resolution of the password file's path.
    pub open spec fn password_located(self, located: Result<Seq<char>, Seq<char>>) -> Outcome {
        match located {
            Err(reason) => Err(
                Failure::User(
                    "Cannot access password file "@ + (self.password->Ok_0)->0 + (": "@ + reason),
                ),
            ),
            Ok(path) => Ok(
                (
                    Checks { stage: Stage::InspectPassword, canonical: path, ..self },
                    Acting::InspectPasswordFile(path),
                ),
            ),
        }
    }

    /// Behind the inspection of the password file.
    pub open spec fn password_inspected(self, found: Result<FileFacts, Seq<char>>) -> Outcome {
        match password_file_failure(self.canonical, found) {
            Some(failure) => Err(failure),
            None => Ok(
                (
                    Checks {
                        stage: Stage::ReadPassword,
                        exposed: (found->Ok_0).mode & 0o077 != 0,
                        ..self
                    },
                    Acting::ReadPasswordFile(self.canonical),
                ),
            ),
        }
    }

    /// Behind the first byte of the password file.
    pub open spec fn password_read(self, read: FirstByte) -> Outcome {
        match password_read_failure(self.canonical, read) {
            Some(failure) => Err(failure),
            None => Ok(
                (
                    Checks { stage: Stage::Done, ..self },
                    Acting::Ready(
                        self.executable,
                        PasswordSource::File(self.canonical),
                        if self.exposed {
                            seq![exposed_warning(self.canonical)]
                        } else {
                            Seq::empty()
                        },
                    ),
                ),
            ),
        }
    }

    /// What follows an event.
    pub open spec fn after(self, event: PreflightEvent) -> Outcome {
        match (self.stage, event) {
            (Stage::Find, PreflightEvent::Found(None)) => Err(not_found(self.executable)),
            (Stage::Find, PreflightEvent::Found(Some(path))) => Ok(
                (
                    Checks { stage: Stage::InspectExecutable, executable: path@, ..self },
                    Acting::InspectExecutable(path@),
                ),
            ),
            (
                Stage::InspectExecutable,
                PreflightEvent::Inspected(found),
            ) => match executable_failure(self.executable, facts_of(found)) {
                Some(failure) => Err(failure),
                None => Ok(
                    (Checks { stage: Stage::WorkDirectory, ..self }, Acting::CreateWorkDirectory),
                ),
            },
            (Stage::WorkDirectory, PreflightEvent::WorkDirectory(Err(reason))) => Err(
                Failure::Filesystem(reason@),
            ),
            (Stage::WorkDirectory, PreflightEvent::WorkDirectory(Ok(_))) => self.ask_target(),
            (Stage::InspectTarget, PreflightEvent::Inspected(found)) => self.target_inspected(
                facts_of(found),
            ),
            (Stage::OpenTarget, PreflightEvent::Opened(opened)) => self.target_opened(
                done_of(opened),
            ),
            (Stage::ProbeDirectory, PreflightEvent::Probed(probed)) => self.directory_probed(
                done_of(probed),
            ),
            (Stage::Version, PreflightEvent::Ran(ran)) => self.version_known(left_of(ran)),
            (Stage::Help, PreflightEvent::Ran(ran)) => self.help_known(left_of(ran)),
            (Stage::LocatePassword, PreflightEvent::Located(Ok(path))) => self.password_located(
                Ok(path@),
            ),
            (Stage::LocatePassword, PreflightEvent::Located(Err(reason))) => self.password_located(
                Err(reason@),
            ),
            (Stage::InspectPassword, PreflightEvent::Inspected(found)) => self.password_inspected(
                facts_of(found),
            ),
            (Stage::ReadPassword, PreflightEvent::Read(read)) => self.password_read(read),
            (Stage::Prompt, PreflightEvent::Prompt(Ok(backend))) => Ok(
                (
                    Checks { stage: Stage::Done, ..self },
                    Acting::Ready(
                        self.executable,
                        PasswordSource::Prompt(backend@.0, backend@.1),
                        Seq::empty(),
                    ),
                ),
            ),
            (Stage::Prompt, PreflightEvent::Prompt(Err(error))) => Err(error@),
            _ => Err(Failure::Internal(UNEXPECTED@)),
        }
    }

    /// What the stage says of the other parts.
    pub open spec fn wf(self) -> bool {
        &&& (self.stage == Stage::InspectTarget || self.stage == Stage::OpenTarget || self.stage
            == Stage::ProbeDirectory) ==> self.target is Some
        &&& self.stage == Stage::ProbeDirectory ==> paths::parent(self.target->0) is Some
        &&& self.stage == Stage::LocatePassword ==> self.password matches Ok(Some(_))
    }
}

/// Whether something was done, or why not, as contracts speak of it.
pub open spec fn done_of(done: Result<(), String>) -> Result<(), Seq<char>> {
    match done {
        Ok(_) => Ok(()),
        Err(reason) => Err(reason@),
    }
}

/// What a run left behind, or why it did not run, as contracts speak of it.
pub open spec fn left_of(ran: AppResult<ProcessOutput>) -> Result<Left, Failure> {
    match ran {
        Ok(output) => Ok(output@),
        Err(error) => Err(error@),
    }
}

/// Whether a step was made as a specification says.
pub open spec fn stepped(
    result: AppResult<PreflightAction>,
    state: Checks,
    wanted: Outcome,
) -> bool {
    match result {
        Ok(action) => wanted == Ok::<(Checks, Acting), Failure>((state, action@)),
        Err(error) => wanted == Err::<(Checks, Acting), Failure>(error@),
    }
}

/// How the checks begin, or why they cannot.
pub open spec fn checks_start(
    settings: Configured,
    operation: Operation,
    target: Option<Seq<char>>,
    password: Result<Option<Seq<char>>, Failure>,
    supported: bool,
) -> Outcome {
    let checks = Checks {
        stage: Stage::Find,
        operation,
        has_vault_id: settings.vault_id is Some,
        prompt_backend: settings.prompt_backend,
        executable: settings.executable,
        target,
        unwritable: false,
        password,
        canonical: Seq::empty(),
        exposed: false,
    };
    if !supported {
        Err(Failure::User(UNSUPPORTED_SYSTEM@))
    } else {
        match executable_choice(settings.executable) {
            Err(failure) => Err(failure),
            Ok(Choice::InPath(name)) => Ok((checks, Acting::FindInPath(name))),
            Ok(Choice::At(path)) => Ok(
                (
                    Checks { stage: Stage::InspectExecutable, ..checks },
                    Acting::InspectExecutable(path),
                ),
            ),
        }
    }
}

impl Preflight {
    /// Begins the checks, given where the password file is configured to be.
    pub fn begin(
        settings: &Settings,
        operation: Operation,
        target_file: Option<String>,
        password: AppResult<Option<String>>,
        supported: bool,
    ) -> (r: AppResult<(Preflight, PreflightAction)>)
        ensures
            ({
                let wanted = checks_start(
                    settings@,
                    operation,
                    config::shown(target_file),
                    place_of(password),
                    supported,
                );
                match r {
                    Ok((preflight, action)) => preflight@.wf() && wanted == Ok::<
                        (Checks, Acting),
                        Failure,
                    >((preflight@, action@)),
                    Err(error) => wanted == Err::<(Checks, Acting), Failure>(error@),
                }
            }),
    {
        if !supported {
            return Err(AppError::told(UNSUPPORTED_SYSTEM));
        }
        let choice = match resolve_executable(settings.executable.as_str()) {
            Err(error) => {
                return Err(error);
            },
            Ok(choice) => choice,
        };
        let empty = String::new();
        proof {
            assert(empty@ =~= Seq::<char>::empty());
        }
        let mut preflight = Preflight {
            stage: Stage::Find,
            operation,
            has_vault_id: settings.vault_id.is_some(),
            prompt_backend: settings.prompt_backend,
            executable: settings.executable.clone(),
            target: target_file,
            unwritable: false,
            password,
            canonical: empty,
            exposed: false,
        };
        match choice {
            ExecutableChoice::InPath(name) => Ok((preflight, PreflightAction::FindInPath(name))),
            ExecutableChoice::At(path) => {
                preflight.stage = Stage::InspectExecutable;
                Ok((preflight, PreflightAction::InspectExecutable(path)))
            },
        }
    }

    /// Begins the checks.
    pub fn validate_environment(
        settings: &Settings,
        operation: Operation,
        worktree_root: &str,
        target_file: Option<String>,
        supported: bool,
    ) -> (r: AppResult<(Preflight, PreflightAction)>)
        ensures
            exists|home: Option<Seq<char>>|
                ({
                    let wanted = checks_start(
                        settings@,
                        operation,
                        config::shown(target_file),
                        #[trigger] config::password_path(
                            settings@.password_file,
                            worktree_root@,
                            home,
                        ),
                        supported,
                    );
                    match r {
                        Ok((preflight, action)) => preflight@.wf() && wanted == Ok::<
                            (Checks, Acting),
                            Failure,
                        >((preflight@, action@)),
                        Err(error) => wanted == Err::<(Checks, Acting), Failure>(error@),
                    }
                }),
    {
        let password = settings.resolve_password_file(worktree_root);
        proof {
            let home = choose|home: Option<Seq<char>>|
                config::same_path(
                    password,
                    #[trigger] config::password_path(
                        settings@.password_file,
                        worktree_root@,
                        home,
                    ),
                );
            assert(place_of(password) == config::password_path(
                settings@.password_file,
                worktree_root@,
                home,
            ));
        }
        Preflight::begin(settings, operation, target_file, password, supported)
    }

    fn ask_version(&mut self) -> (r: AppResult<PreflightAction>)
        ensures
            stepped(r, final(self)@, old(self)@.ask_version()),
    {
        self.stage = Stage::Version;
        let mut args: Vec<String> = Vec::new();
        args.push("--version".to_string());
        proof {
            assert(text::texts(args@) =~= seq!["--version"@]);
        }
        Ok(PreflightAction::Run(self.executable.clone(), args))
    }

    fn ask_target(&mut self) -> (r: AppResult<PreflightAction>)
        ensures
            stepped(r, final(self)@, old(self)@.ask_target()),
    {
        if self.operation.is_on_file() {
            match &self.target {
                Some(path) => {
                    let action = PreflightAction::InspectTarget(path.clone());
                    self.stage = Stage::InspectTarget;
                    Ok(action)
                },
                None => Err(AppError::told(NO_TARGET)),
            }
        } else {
            self.ask_version()
        }
    }

    fn target_inspected(&mut self, found: Result<FileFacts, String>) -> (r: AppResult<
        PreflightAction,
    >)
        requires
            old(self)@.target is Some,
        ensures
            stepped(r, final(self)@, old(self)@.target_inspected(facts_of(found))),
    {
        let path = match &self.target {
            Some(path) => path.clone(),
            None => String::new(),
        };
        match found {
            Err(reason) => {
                let mut rest = ": ".to_string();
                rest.append(reason.as_str());
                Err(
                    AppError::told_parts("Cannot access target file ", path.as_str(), rest.as_str()),
                )
            },
            Ok(facts) => {
                if facts.symlink {
                    Err(AppError::told(vault::SYMLINK))
                } else if !facts.regular {
                    Err(AppError::told(vault::NOT_REGULAR))
                } else {
                    self.stage = Stage::OpenTarget;
                    self.unwritable = facts.is_unwritable();
                    Ok(PreflightAction::OpenTarget(path))
                }
            },
        }
    }

    fn target_opened(&mut self, opened: Result<(), String>) -> (r: AppResult<PreflightAction>)
        requires
            old(self)@.target is Some,
        ensures
            stepped(r, final(self)@, old(self)@.target_opened(done_of(opened))),
    {
        match opened {
            Err(reason) => Err(
                AppError::told_pair("The target file is not readable: ", reason.as_str()),
            ),
            Ok(_) => {
                if self.unwritable {
                    return Err(AppError::told(vault::READ_ONLY));
                }
                let directory = match &self.target {
                    Some(path) => paths::parent_of(path.as_str()),
                    None => None,
                };
                match directory {
                    Some(directory) => {
                        self.stage = Stage::ProbeDirectory;
                        Ok(PreflightAction::ProbeDirectory(directory))
                    },
                    None => Err(AppError::told(NO_PARENT)),
                }
            },
        }
    }

    fn directory_probed(&mut self, probed: Result<(), String>) -> (r: AppResult<PreflightAction>)
        requires
            old(self)@.target is Some,
            paths::parent(old(self)@.target->0) is Some,
        ensures
            stepped(r, final(self)@, old(self)@.directory_probed(done_of(probed))),
    {
        match probed {
            Err(reason) => {
                let directory = match &self.target {
                    Some(path) => paths::parent_of(path.as_str()),
                    None => None,
                };
                let mut rest = " is not writable: ".to_string();
                rest.append(reason.as_str());
                let name = match directory {
                    Some(directory) => directory,
                    None => String::new(),
                };
                Err(AppError::told_parts("The target directory ", name.as_str(), rest.as_str()))
            },
            Ok(_) => self.ask_version(),
        }
    }

    fn version_known(&mut self, ran: AppResult<ProcessOutput>) -> (r: AppResult<PreflightAction>)
        ensures
            stepped(r, final(self)@, old(self)@.version_known(left_of(ran))),
    {
        match ran {
            Err(error) => Err(error),
            Ok(output) => {
                if !output.success {
                    return Err(AppError::told(DOES_NOT_START));
                }
                self.stage = Stage::Help;
                let mut args: Vec<String> = Vec::new();
                args.push(self.operation.subcommand().to_string());
                args.push("--help".to_string());
                proof {
                    assert(text::texts(args@) =~= seq![
                        self@.operation.subcommand_text(),
                        "--help"@,
                    ]);
                }
                Ok(PreflightAction::Run(self.executable.clone(), args))
            },
        }
    }

    fn help_known(&mut self, ran: AppResult<ProcessOutput>) -> (r: AppResult<PreflightAction>)
        ensures
            stepped(r, final(self)@, old(self)@.help_known(left_of(ran))),
    {
        let output = match ran {
            Err(error) => {
                return Err(error);
            },
            Ok(output) => output,
        };
        match validate_help(self.operation, self.has_vault_id, &output) {
            Err(error) => Err(error),
            Ok(_) => match &self.password {
                Err(error) => Err(copied(error)),
                Ok(Some(path)) => {
                    let action = PreflightAction::LocatePasswordFile(path.clone());
                    self.stage = Stage::LocatePassword;
                    Ok(action)
                },
                Ok(None) => {
                    self.stage = Stage::Prompt;
                    Ok(PreflightAction::DiscoverPrompt(self.prompt_backend))
                },
            },
        }
    }

    fn password_located(&mut self, located: Result<String, String>) -> (r: AppResult<
        PreflightAction,
    >)
        requires
            old(self)@.password matches Ok(Some(_)),
        ensures
            stepped(
                r,
                final(self)@,
                old(self)@.password_located(
                    match located {
                        Ok(path) => Ok(path@),
                        Err(reason) => Err(reason@),
                    },
                ),
            ),
    {
        match located {
            Err(reason) => {
                let path = match &self.password {
                    Ok(Some(path)) => path.clone(),
                    _ => String::new(),
                };
                let mut rest = ": ".to_string();
                rest.append(reason.as_str());
                Err(
                    AppError::told_parts(
                        "Cannot access password file ",
                        path.as_str(),
                        rest.as_str(),
                    ),
                )
            },
            Ok(path) => {
                self.stage = Stage::InspectPassword;
                self.canonical = path.clone();
                Ok(PreflightAction::InspectPasswordFile(path))
            },
        }
    }

    fn password_inspected(&mut self, found: Result<FileFacts, String>) -> (r: AppResult<
        PreflightAction,
    >)
        ensures
            stepped(r, final(self)@, old(self)@.password_inspected(facts_of(found))),
    {
        match validate_password_file(self.canonical.as_str(), &found) {
            Err(error) => Err(error),
            Ok(_) => {
                let exposed = match &found {
                    Ok(facts) => facts.mode & 0o077 != 0,
                    Err(_) => false,
                };
                self.stage = Stage::ReadPassword;
                self.exposed = exposed;
                Ok(PreflightAction::ReadPasswordFile(self.canonical.clone()))
            },
        }
    }

    fn password_read(&mut self, read: FirstByte) -> (r: AppResult<PreflightAction>)
        ensures
            stepped(r, final(self)@, old(self)@.password_read(read)),
    {
        match validate_password_read(self.canonical.as_str(), &read) {
            Err(error) => Err(error),
            Ok(_) => {
                let mut warnings: Vec<String> = Vec::new();
                if self.exposed {
                    let mut warning = "Password file ".to_string();
                    warning.append(self.canonical.as_str());
                    warning.append(" is readable or writable by group/other users");
                    warnings.push(warning);
                }
                proof {
                    assert(text::texts(warnings@) =~= if self@.exposed {
                        seq![exposed_warning(self@.canonical)]
                    } else {
                        Seq::empty()
                    });
                }
                self.stage = Stage::Done;
                Ok(
                    PreflightAction::Ready(
                        self.executable.clone(),
                        PasswordProvider::File(self.canonical.clone()),
                        warnings,
                    ),
                )
            },
        }
    }

    /// What to do after an event, or why the operation cannot be done.
    pub fn next(&mut self, event: PreflightEvent) -> (r: AppResult<PreflightAction>)
        requires
            old(self)@.wf(),
        ensures
            stepped(r, final(self)@, old(self)@.after(event)),
            r is Ok ==> final(self)@.wf(),
    {
        match (self.stage, event) {
            (Stage::Find, PreflightEvent::Found(None)) => Err(
                AppError::told_parts(
                    "Cannot find '",
                    self.executable.as_str(),
                    "' in PATH; install ansible-core or configure ansibleVault.executable",
                ),
            ),
            (Stage::Find, PreflightEvent::Found(Some(path))) => {
                self.stage = Stage::InspectExecutable;
                self.executable = path.clone();
                Ok(PreflightAction::InspectExecutable(path))
            },
            (Stage::InspectExecutable, PreflightEvent::Inspected(found)) => {
                match validate_executable(self.executable.as_str(), &found) {
                    Err(error) => Err(error),
                    Ok(_) => {
                        self.stage = Stage::WorkDirectory;
                        Ok(PreflightAction::CreateWorkDirectory)
                    },
                }
            },
            (Stage::WorkDirectory, PreflightEvent::WorkDirectory(Err(reason))) => Err(
                AppError::Filesystem(reason),
            ),
            (Stage::WorkDirectory, PreflightEvent::WorkDirectory(Ok(_))) => self.ask_target(),
            (Stage::InspectTarget, PreflightEvent::Inspected(found)) => self.target_inspected(found),
            (Stage::OpenTarget, PreflightEvent::Opened(opened)) => self.target_opened(opened),
            (Stage::ProbeDirectory, PreflightEvent::Probed(probed)) => self.directory_probed(
                probed,
            ),
            (Stage::Version, PreflightEvent::Ran(ran)) => self.version_known(ran),
            (Stage::Help, PreflightEvent::Ran(ran)) => self.help_known(ran),
            (Stage::LocatePassword, PreflightEvent::Located(located)) => self.password_located(
                located,
            ),
            (Stage::InspectPassword, PreflightEvent::Inspected(found)) => self.password_inspected(
                found,
            ),
            (Stage::ReadPassword, PreflightEvent::Read(read)) => self.password_read(read),
            (Stage::Prompt, PreflightEvent::Prompt(Ok(backend))) => {
                self.stage = Stage::Done;
                let warnings: Vec<String> = Vec::new();
                proof {
                    assert(text::texts(warnings@) =~= Seq::<Seq<char>>::empty());
                }
                Ok(
                    PreflightAction::Ready(
                        self.executable.clone(),
                        PasswordProvider::Prompt(backend),
                        warnings,
                    ),
                )
            },
            (Stage::Prompt, PreflightEvent::Prompt(Err(error))) => Err(error),
            _ => Err(AppError::Internal(UNEXPECTED.to_string())),
        }
    }
}

/// A copy of an error.
pub fn copied(error: &AppError) -> (r: AppError)
    ensures
        r@ == error@,
{
    match error {
        AppError::User(message) => AppError::User(message.clone()),
        AppError::Cancelled => AppError::Cancelled,
        AppError::Timeout => AppError::Timeout,
        AppError::StaleDocument => AppError::StaleDocument,
        AppError::VaultRejected => AppError::VaultRejected,
        AppError::Filesystem(message) => AppError::Filesystem(message.clone()),
        AppError::Internal(message) => AppError::Internal(message.clone()),
    }
}

// ---------------------------------------------------------------------------
// Laws
// ---------------------------------------------------------------------------

/// How far the checks have come.
pub open spec fn rank(stage: Stage) -> int {
    match stage {
        Stage::Find => 0,
        Stage::InspectExecutable => 1,
        Stage::WorkDirectory => 2,
        Stage::InspectTarget => 3,
        Stage::OpenTarget => 4,
        Stage::ProbeDirectory => 5,
        Stage::Version => 6,
        Stage::Help => 7,
        Stage::LocatePassword => 8,
        Stage::InspectPassword => 9,
        Stage::ReadPassword => 10,
        Stage::Prompt => 11,
        Stage::Done => 12,
    }
}

/// Every answer brings the checks further or ends them, and what they are about
/// stays the same.
pub proof fn law_checks_advance(checks: Checks, event: PreflightEvent)
    ensures
        checks.after(event) matches Ok((next, _)) ==> {
            &&& rank(next.stage) > rank(checks.stage)
            &&& next.operation == checks.operation
            &&& next.has_vault_id == checks.has_vault_id
            &&& next.prompt_backend == checks.prompt_backend
            &&& next.target == checks.target
            &&& next.password == checks.password
        },
{
}

/// The password source is looked at only once `ansible-vault` has shown that it
/// has every option that the operation needs, and that is asked only once it has
/// shown that it starts.
pub proof fn law_password_comes_last(checks: Checks, event: PreflightEvent)
    ensures
        checks.after(event) matches Ok((next, _)) ==> {
            &&& next.stage == Stage::LocatePassword || next.stage == Stage::Prompt
                ==> checks.stage == Stage::Help && (event matches PreflightEvent::Ran(Ok(output))
                && help_failure(checks.operation, checks.has_vault_id, output@) is None)
            &&& next.stage == Stage::Help ==> checks.stage == Stage::Version && (
            event matches PreflightEvent::Ran(Ok(output)) && output.success)
        },
{
}

/// The checks end well only with a password file that was read and is not empty,
/// or with a dialog tool.
pub proof fn law_ready_has_a_password_source(checks: Checks, event: PreflightEvent)
    ensures
        checks.after(event) matches Ok((_, Acting::Ready(executable, source, _))) ==> {
            &&& executable == checks.executable
            &&& match source {
                PasswordSource::File(path) => path == checks.canonical && checks.stage
                    == Stage::ReadPassword && event == PreflightEvent::Read(Ok(Ok(true))),
                PasswordSource::Prompt(kind, path) => checks.stage == Stage::Prompt && (
                event matches PreflightEvent::Prompt(Ok(backend)) && backend@ == (kind, path)),
            }
        },
{
}

/// A file operation goes on to `ansible-vault` itself only where the target is a
/// regular file, no link, can be read and written, and lies in a directory in
/// which files can be made.
pub proof fn law_target_is_checked(checks: Checks, event: PreflightEvent)
    requires
        checks.operation.on_file(),
    ensures
        checks.after(event) matches Ok((next, _)) ==> {
            &&& next.stage == Stage::Version ==> checks.stage == Stage::ProbeDirectory && (
            event matches PreflightEvent::Probed(probed) && probed is Ok)
            &&& next.stage == Stage::ProbeDirectory ==> checks.stage == Stage::OpenTarget
                && !checks.unwritable && (event matches PreflightEvent::Opened(opened)
                && opened is Ok)
            &&& next.stage == Stage::OpenTarget ==> checks.stage == Stage::InspectTarget && (
            event matches PreflightEvent::Inspected(Ok(facts)) && !facts.symlink && facts.regular
                && next.unwritable == facts.unwritable())
        },
{
}

/// A configured password file is never silently replaced by a dialog: the user is
/// asked only where none is configured.
pub proof fn law_configured_files_have_no_fallback(checks: Checks, event: PreflightEvent)
    ensures
        checks.after(event) matches Ok((next, _)) ==> next.stage == Stage::Prompt
            ==> checks.password == Ok::<Option<Seq<char>>, Failure>(None),
{
}

// ---------------------------------------------------------------------------
// What is promised of the checks
// ---------------------------------------------------------------------------

/// An absolute path names the command itself, a bare name is looked for in the search
/// path, and a relative path of two names or more is refused, as is a blank one.
pub proof fn law_commands_are_paths_or_names(names: Seq<Seq<char>>, blank: Seq<char>)
    requires
        names.len() > 0,
        forall|i: int| 0 <= i < names.len() ==> paths::plain_name(#[trigger] names[i]),
        !text::white_space(names[0][0]),
        forall|i: int| 0 <= i < blank.len() ==> text::white_space(#[trigger] blank[i]),
    ensures
        executable_choice(paths::path_of(true, names)) == Ok::<Choice, Failure>(
            Choice::At(paths::path_of(true, names)),
        ),
        names.len() == 1 ==> executable_choice(paths::path_of(false, names)) == Ok::<
            Choice,
            Failure,
        >(Choice::InPath(names[0])),
        names.len() > 1 ==> executable_choice(paths::path_of(false, names)) == Err::<
            Choice,
            Failure,
        >(
            Failure::User(
                "ansibleVault.executable must be an absolute path or a command name from PATH"@,
            ),
        ),
        executable_choice(blank) == Err::<Choice, Failure>(
            Failure::User("ansibleVault.executable must not be empty"@),
        ),
{
    paths::law_components_are_the_names(true, names);
    paths::law_components_are_the_names(false, names);
    paths::lemma_path_parts(true, names);
    paths::lemma_path_parts(false, names);
    text::lemma_trim_empty(paths::path_of(true, names));
    text::lemma_trim_empty(paths::path_of(false, names));
    text::lemma_trim_empty(blank);
    assert(!text::white_space('/'));
}

/// A command can be run where it is a regular file that its owner, its group or others may
/// execute.
pub proof fn law_commands_can_be_run(path: Seq<char>, facts: FileFacts, reason: Seq<char>)
    ensures
        executable_failure(path, Err(reason)) == Some(
            Failure::User("Cannot access ansible-vault at "@ + path + (": "@ + reason)),
        ),
        executable_failure(path, Ok(facts)) == if !facts.regular {
            Some(Failure::User(path + " is not a regular file"@))
        } else if facts.mode & 0o100 == 0 && facts.mode & 0o010 == 0 && facts.mode & 0o001 == 0 {
            Some(Failure::User(path + " is not executable"@))
        } else {
            None::<Failure>
        },
{
    let m = facts.mode;
    assert((m & 0o111 == 0) == (m & 0o100 == 0 && m & 0o010 == 0 && m & 0o001 == 0)) by (bit_vector);
}

/// The options that are asked for before an operation are those that it then passes.
pub proof fn law_options_are_asked_for_before_they_are_passed(
    vault_id: Option<Seq<char>>,
    password_file: Seq<char>,
    output: Seq<char>,
    input: Seq<char>,
)
    ensures
        ({
            let args = vault::encrypt_args(vault_id, password_file);
            needed_options(Operation::EncryptValue, vault_id is Some) == seq![args[1], args[3]]
        }),
        ({
            let args = vault::view_args(vault_id, password_file, input);
            needed_options(Operation::DecryptValue, vault_id is Some) == seq![args[1]]
        }),
        forall|operation: Operation|
            operation == Operation::EncryptFile || operation == Operation::DecryptFile ==> {
                let args = vault::file_args(operation, vault_id, password_file, output, input);
                #[trigger] needed_options(operation, vault_id is Some) == seq![args[1], args[3]]
            },
{
    vault::law_every_command_gets_the_vault_id(vault_id, password_file, output, input);
    assert forall|operation: Operation|
        operation == Operation::EncryptFile || operation == Operation::DecryptFile implies ({
        let args = vault::file_args(operation, vault_id, password_file, output, input);
        #[trigger] needed_options(operation, vault_id is Some) == seq![args[1], args[3]]
    }) by {
        let args = vault::file_args(operation, vault_id, password_file, output, input);
        assert(needed_options(operation, vault_id is Some) =~= seq![args[1], args[3]]);
    }
    let args = vault::encrypt_args(vault_id, password_file);
    assert(needed_options(Operation::EncryptValue, vault_id is Some) =~= seq![args[1], args[3]]);
    let args = vault::view_args(vault_id, password_file, input);
    assert(needed_options(Operation::DecryptValue, vault_id is Some) =~= seq![args[1]]);
}

/// Whether a word stands at a place of a help text.
pub open spec fn stands_at(help: Seq<u8>, word: Seq<char>, i: int) -> bool {
    &&& 0 <= i
    &&& i + word.len() <= help.len()
    &&& forall|k: int| 0 <= k < word.len() ==> (help[i + k] as char) == #[trigger] word[k]
}

/// Whether a help text mentions a word.
pub open spec fn shows_word(help: Seq<u8>, word: Seq<char>) -> bool {
    exists|i: int| #[trigger] stands_at(help, word, i)
}

proof fn lemma_shows_word(help: Seq<u8>, word: Seq<char>)
    ensures
        shows_word(help, word) == bytes::contains_word(help, word),
{
    if shows_word(help, word) {
        let i = choose|i: int| #[trigger] stands_at(help, word, i);
        assert(bytes::word_at(help, word, i));
    }
    if bytes::contains_word(help, word) {
        let i = choose|i: int|
            0 <= i <= help.len() - word.len() && #[trigger] bytes::word_at(help, word, i);
        assert(stands_at(help, word, i));
    }
}

proof fn lemma_missing(options: Seq<Seq<char>>, help: Seq<u8>, i: int, k: int)
    requires
        0 <= i <= k <= options.len(),
        forall|j: int| i <= j < k ==> shows_word(help, #[trigger] options[j]),
        k < options.len() ==> !shows_word(help, options[k]),
    ensures
        missing_option(options, help, i) == if k < options.len() {
            Some(options[k])
        } else {
            None
        },
    decreases k - i,
{
    if i < options.len() {
        lemma_shows_word(help, options[i]);
        if i < k {
            assert(shows_word(help, options[i]));
            lemma_missing(options, help, i + 1, k);
        }
    }
}

/// A command is fit for an operation exactly where its help succeeds and mentions every
/// option that the operation needs, on either output. The first option that it does not
/// mention is named.
pub proof fn law_help_mentions_every_option(
    operation: Operation,
    has_vault_id: bool,
    help: Left,
    k: int,
)
    requires
        0 <= k <= needed_options(operation, has_vault_id).len(),
        forall|j: int|
            0 <= j < k ==> shows_word(
                help.stdout + help.stderr,
                #[trigger] needed_options(operation, has_vault_id)[j],
            ),
        k < needed_options(operation, has_vault_id).len() ==> !shows_word(
            help.stdout + help.stderr,
            needed_options(operation, has_vault_id)[k],
        ),
    ensures
        ({
            let command = match operation {
                Operation::EncryptFile => "encrypt"@,
                Operation::DecryptFile => "decrypt"@,
                Operation::EncryptValue => "encrypt_string"@,
                Operation::DecryptValue => "view"@,
            };
            let options = needed_options(operation, has_vault_id);
            help_failure(operation, has_vault_id, help) == if !help.success {
                Some(
                    Failure::User(
                        "ansible-vault does not provide a working '"@ + command + "' command"@,
                    ),
                )
            } else if k < options.len() {
                Some(
                    Failure::User(
                        "The installed ansible-vault '"@ + command + (
                        "' command does not support required option "@ + options[k]),
                    ),
                )
            } else {
                None::<Failure>
            }
        }),
{
    lemma_missing(needed_options(operation, has_vault_id), help.stdout + help.stderr, 0, k);
}

/// The step of the checks that follows an event.
pub open spec fn then_came(before: Outcome, event: PreflightEvent) -> Outcome {
    match before {
        Ok((checks, _)) => checks.after(event),
        Err(failure) => Err(failure),
    }
}

/// Whether the checks ask for an action.
pub open spec fn asks(step: Outcome, action: Acting) -> bool {
    step matches Ok((_, next)) && next == action
}

/// What the checks of a file operation ask for where nothing is wrong, one after the
/// other: the command is found and looked at, a directory to work in is made, the file is
/// looked at and opened and its directory is probed, the command shows that it starts and
/// what it can do, and only then the password file is looked for, looked at and read. A
/// password file that its group or others may read, write or execute is warned of.
pub proof fn law_checks_come_in_order(
    settings: Configured,
    operation: Operation,
    target: Seq<char>,
    directory: Seq<char>,
    password: Seq<char>,
    found: String,
    command: FileFacts,
    file: FileFacts,
    version: ProcessOutput,
    help: ProcessOutput,
    located: String,
    secret: FileFacts,
)
    requires
        executable_choice(settings.executable) == Ok::<Choice, Failure>(
            Choice::InPath(settings.executable),
        ),
        operation == Operation::EncryptFile || operation == Operation::DecryptFile,
        paths::parent(target) == Some(directory),
        executable_failure(found@, Ok(command)) is None,
        vault::target_failure(file) is None,
        version.success,
        help_failure(operation, settings.vault_id is Some, help@) is None,
        secret.regular,
    ensures
        ({
            let start = checks_start(settings, operation, Some(target), Ok(Some(password)), true);
            let looked = then_came(start, PreflightEvent::Found(Some(found)));
            let work = then_came(looked, PreflightEvent::Inspected(Ok(command)));
            let inspect = then_came(work, PreflightEvent::WorkDirectory(Ok(())));
            let open = then_came(inspect, PreflightEvent::Inspected(Ok(file)));
            let probe = then_came(open, PreflightEvent::Opened(Ok(())));
            let starts = then_came(probe, PreflightEvent::Probed(Ok(())));
            let helps = then_came(starts, PreflightEvent::Ran(Ok(version)));
            let locate = then_came(helps, PreflightEvent::Ran(Ok(help)));
            let seen = then_came(locate, PreflightEvent::Located(Ok(located)));
            let read = then_came(seen, PreflightEvent::Inspected(Ok(secret)));
            let ready = then_came(read, PreflightEvent::Read(Ok(Ok(true))));
            let word = if operation == Operation::EncryptFile {
                "encrypt"@
            } else {
                "decrypt"@
            };
            let private = secret.mode & 0o070 == 0 && secret.mode & 0o007 == 0;
            &&& asks(start, Acting::FindInPath(settings.executable))
            &&& asks(looked, Acting::InspectExecutable(found@))
            &&& asks(work, Acting::CreateWorkDirectory)
            &&& asks(inspect, Acting::InspectTarget(target))
            &&& asks(open, Acting::OpenTarget(target))
            &&& asks(probe, Acting::ProbeDirectory(directory))
            &&& asks(starts, Acting::Run(found@, seq!["--version"@]))
            &&& asks(helps, Acting::Run(found@, seq![word, "--help"@]))
            &&& asks(locate, Acting::LocatePasswordFile(password))
            &&& asks(seen, Acting::InspectPasswordFile(located@))
            &&& asks(read, Acting::ReadPasswordFile(located@))
            &&& asks(
                ready,
                Acting::Ready(
                    found@,
                    PasswordSource::File(located@),
                    if private {
                        Seq::empty()
                    } else {
                        seq![
                            "Password file "@ + located@
                                + " is readable or writable by group/other users"@,
                        ]
                    },
                ),
            )
        }),
{
    let m = secret.mode;
    assert((m & 0o077 == 0) == (m & 0o070 == 0 && m & 0o007 == 0)) by (bit_vector);
}

/// What the checks of a value ask for: no file is looked at, and without a configured
/// password file a dialog is looked for. A command with an absolute path is not searched.
pub proof fn law_values_need_no_file(
    settings: Configured,
    operation: Operation,
    target: Option<Seq<char>>,
    command: FileFacts,
    version: ProcessOutput,
    help: ProcessOutput,
    backend: PromptBackend,
)
    requires
        executable_choice(settings.executable) == Ok::<Choice, Failure>(
            Choice::At(settings.executable),
        ),
        operation == Operation::EncryptValue || operation == Operation::DecryptValue,
        executable_failure(settings.executable, Ok(command)) is None,
        version.success,
        help_failure(operation, settings.vault_id is Some, help@) is None,
    ensures
        ({
            let start = checks_start(settings, operation, target, Ok(None), true);
            let work = then_came(start, PreflightEvent::Inspected(Ok(command)));
            let starts = then_came(work, PreflightEvent::WorkDirectory(Ok(())));
            let helps = then_came(starts, PreflightEvent::Ran(Ok(version)));
            let search = then_came(helps, PreflightEvent::Ran(Ok(help)));
            let ready = then_came(search, PreflightEvent::Prompt(Ok(backend)));
            let word = if operation == Operation::EncryptValue {
                "encrypt_string"@
            } else {
                "view"@
            };
            &&& asks(start, Acting::InspectExecutable(settings.executable))
            &&& asks(work, Acting::CreateWorkDirectory)
            &&& asks(starts, Acting::Run(settings.executable, seq!["--version"@]))
            &&& asks(helps, Acting::Run(settings.executable, seq![word, "--help"@]))
            &&& asks(search, Acting::DiscoverPrompt(settings.prompt_backend))
            &&& asks(
                ready,
                Acting::Ready(
                    settings.executable,
                    PasswordSource::Prompt(backend@.0, backend@.1),
                    Seq::empty(),
                ),
            )
        }),
{
}

/// How the checks tell what is wrong: in which step, and in which words.
pub proof fn law_checks_tell_what_is_wrong(
    checks: Checks,
    settings: Configured,
    operation: Operation,
    password: Result<Option<Seq<char>>, Failure>,
    reason: String,
    facts: FileFacts,
    output: ProcessOutput,
    error: AppError,
)
    ensures
        checks_start(settings, operation, checks.target, password, false) == Err::<
            (Checks, Acting),
            Failure,
        >(Failure::User("Ansible Vault extension supports macOS and Linux only"@)),
        checks.stage == Stage::Find ==> checks.after(PreflightEvent::Found(None)) == Err::<
            (Checks, Acting),
            Failure,
        >(
            Failure::User(
                "Cannot find '"@ + checks.executable
                    + "' in PATH; install ansible-core or configure ansibleVault.executable"@,
            ),
        ),
        checks.stage == Stage::WorkDirectory ==> checks.after(
            PreflightEvent::WorkDirectory(Err(reason)),
        ) == Err::<(Checks, Acting), Failure>(Failure::Filesystem(reason@)),
        checks.stage == Stage::WorkDirectory && checks.operation == Operation::EncryptFile
            && checks.target is None ==> checks.after(PreflightEvent::WorkDirectory(Ok(())))
            == Err::<(Checks, Acting), Failure>(
            Failure::User("A saved file:// document is required for this operation"@),
        ),
        checks.stage == Stage::WorkDirectory && checks.operation == Operation::DecryptFile
            && checks.target is None ==> checks.after(PreflightEvent::WorkDirectory(Ok(())))
            == Err::<(Checks, Acting), Failure>(
            Failure::User("A saved file:// document is required for this operation"@),
        ),
        checks.stage == Stage::InspectTarget && checks.target is Some ==> checks.after(
            PreflightEvent::Inspected(Err(reason)),
        ) == Err::<(Checks, Acting), Failure>(
            Failure::User(
                "Cannot access target file "@ + checks.target->0 + (": "@ + reason@),
            ),
        ),
        checks.stage == Stage::InspectTarget && facts.symlink ==> checks.after(
            PreflightEvent::Inspected(Ok(facts)),
        ) == Err::<(Checks, Acting), Failure>(
            Failure::User("Symlinked Vault files are not supported"@),
        ),
        checks.stage == Stage::InspectTarget && !facts.symlink && !facts.regular ==> checks.after(
            PreflightEvent::Inspected(Ok(facts)),
        ) == Err::<(Checks, Acting), Failure>(
            Failure::User("Only regular files can be encrypted or decrypted"@),
        ),
        checks.stage == Stage::InspectTarget && !facts.symlink && facts.regular ==> (checks.after(
            PreflightEvent::Inspected(Ok(facts)),
        ) matches Ok((next, _)) && (next.after(PreflightEvent::Opened(Ok(()))) == Err::<
            (Checks, Acting),
            Failure,
        >(Failure::User("The target file is read-only"@)) || !facts.readonly && facts.mode & 0o222
            != 0)),
        checks.stage == Stage::OpenTarget ==> checks.after(PreflightEvent::Opened(Err(reason)))
            == Err::<(Checks, Acting), Failure>(
            Failure::User("The target file is not readable: "@ + reason@),
        ),
        checks.stage == Stage::OpenTarget && checks.unwritable ==> checks.after(
            PreflightEvent::Opened(Ok(())),
        ) == Err::<(Checks, Acting), Failure>(Failure::User("The target file is read-only"@)),
        checks.stage == Stage::ProbeDirectory && checks.target is Some && paths::parent(
            checks.target->0,
        ) is Some ==> checks.after(PreflightEvent::Probed(Err(reason))) == Err::<
            (Checks, Acting),
            Failure,
        >(
            Failure::User(
                "The target directory "@ + paths::parent(checks.target->0)->0 + (
                " is not writable: "@ + reason@),
            ),
        ),
        checks.stage == Stage::Version || checks.stage == Stage::Help ==> checks.after(
            PreflightEvent::Ran(Err(error)),
        ) == Err::<(Checks, Acting), Failure>(error@),
        checks.stage == Stage::Version && !output.success ==> checks.after(
            PreflightEvent::Ran(Ok(output)),
        ) == Err::<(Checks, Acting), Failure>(
            Failure::User(
                "ansible-vault was found but failed to start; check its Python environment and temporary-directory configuration"@,
            ),
        ),
{
}

/// How the checks tell what is wrong with the password file.
pub proof fn law_checks_tell_what_is_wrong_with_the_password_file(
    checks: Checks,
    path: Seq<char>,
    reason: String,
    facts: FileFacts,
    output: ProcessOutput,
    error: AppError,
)
    ensures
        checks.stage == Stage::Help && help_failure(
            checks.operation,
            checks.has_vault_id,
            output@,
        ) is None && checks.password is Err ==> checks.after(PreflightEvent::Ran(Ok(output)))
            == Err::<(Checks, Acting), Failure>(checks.password->Err_0),
        checks.stage == Stage::LocatePassword && checks.password == Ok::<
            Option<Seq<char>>,
            Failure,
        >(Some(path)) ==> checks.after(PreflightEvent::Located(Err(reason))) == Err::<
            (Checks, Acting),
            Failure,
        >(Failure::User("Cannot access password file "@ + path + (": "@ + reason@))),
        checks.stage == Stage::InspectPassword ==> checks.after(
            PreflightEvent::Inspected(Err(reason)),
        ) == Err::<(Checks, Acting), Failure>(Failure::Filesystem(reason@)),
        checks.stage == Stage::InspectPassword && !facts.regular ==> checks.after(
            PreflightEvent::Inspected(Ok(facts)),
        ) == Err::<(Checks, Acting), Failure>(
            Failure::User("Password file "@ + checks.canonical + " is not a regular file"@),
        ),
        checks.stage == Stage::ReadPassword ==> checks.after(PreflightEvent::Read(Err(reason)))
            == Err::<(Checks, Acting), Failure>(
            Failure::User(
                "Password file "@ + checks.canonical + (" is not readable: "@ + reason@),
            ),
        ),
        checks.stage == Stage::ReadPassword ==> checks.after(PreflightEvent::Read(Ok(Err(reason))))
            == Err::<(Checks, Acting), Failure>(Failure::Filesystem(reason@)),
        checks.stage == Stage::ReadPassword ==> checks.after(PreflightEvent::Read(Ok(Ok(false))))
            == Err::<(Checks, Acting), Failure>(
            Failure::User("Password file "@ + checks.canonical + " is empty"@),
        ),
        checks.stage == Stage::Prompt ==> checks.after(PreflightEvent::Prompt(Err(error))) == Err::<
            (Checks, Acting),
            Failure,
        >(error@),
{
}

/// A file that lies in no directory cannot be replaced.
pub proof fn law_targets_need_a_directory(checks: Checks)
    requires
        checks.stage == Stage::OpenTarget,
        !checks.unwritable,
        checks.target matches Some(path) && (path == "/"@ || path == ""@),
    ensures
        checks.after(PreflightEvent::Opened(Ok(()))) == Err::<(Checks, Acting), Failure>(
            Failure::User("The target file has no parent directory"@),
        ),
{
    reveal_strlit("a");
    reveal_strlit(".");
    assert("a"@[0] != "."@[0]);
    assert(!"a"@.contains('/'));
    paths::law_relative_paths_have_parents("a"@, "a"@);
}

} // verus!
