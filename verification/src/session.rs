//! One operation from the click to its end.
//!
//! `Session` holds where an operation stands. It names the next piece of work, is
//! told what came of it, and goes on or gives the reason why the operation ends.
//! Whatever happens in between, nothing is written unless the document and the
//! file are still those that the operation started from.
use crate::bytes;
use crate::config::Configured;
use crate::config::Settings;
use crate::digest;
use crate::document;
use crate::document::Document;
use crate::document::Range;
use crate::error::AppError;
use crate::error::AppResult;
use crate::error::Failure;
use crate::operation::ActionOperation;
use crate::operation::Operation;
use crate::operation;
use crate::paths;
use crate::preflight;
use crate::process;
use crate::process::Left;
use crate::process::ProcessOutput;
use crate::text;
use crate::vault;
use crate::vault::FileFacts;
use crate::writing;
use crate::yaml;
use crate::yaml::Found;
use vstd::prelude::*;

verus! {

pub const NOT_OPEN: &'static str = "The document is no longer open";

pub const HAS_HEADER: &'static str = "The file already has an Ansible Vault header";

pub const HAS_NO_HEADER: &'static str = "The file has no valid Ansible Vault header";

pub const NOT_SAVED: &'static str = "This action requires a saved file:// document";

pub const INVALID_VALUE_HEADER: &'static str =
    "The !vault value has an invalid header; expected $ANSIBLE_VAULT;1.1;AES256 or a valid Vault 1.2 header";

pub const COMPLETED: &'static str = "Ansible Vault file operation completed";

pub const NOT_REFRESHED: &'static str =
    "The file was updated on disk, but the Zed buffer has not refreshed yet; reload the file before editing";

pub const UNEXPECTED: &'static str = "unexpected answer during the operation";

/// How long to wait for the editor to notice the new file, in milliseconds.
pub const REFRESH_DELAY: u64 = 750;

// ---------------------------------------------------------------------------
// What the operation works on
// ---------------------------------------------------------------------------

/// What an operation works on: a file, or a value of the document.
pub enum Target {
    File(Seq<char>),
    Value(Found),
}

/// What an operation works on, or why it cannot be done. A file is encrypted only
/// if it neither has a valid Vault header nor begins with the marker of one, and
/// decrypted only if it has a valid header. A value is decrypted only if its header
/// is valid.
pub open spec fn target_of(
    action: ActionOperation,
    s: Seq<char>,
    range: Range,
    path: Option<Seq<char>>,
) -> Result<Target, Failure> {
    match action {
        ActionOperation::EncryptFile => if vault::vault_file(s) || text::starts_with(
            s,
            crate::header::VAULT_MARKER@,
        ) {
            Err(Failure::User(HAS_HEADER@))
        } else {
            match path {
                Some(file) => Ok(Target::File(file)),
                None => Err(Failure::User(NOT_SAVED@)),
            }
        },
        ActionOperation::DecryptFile => if !vault::vault_file(s) {
            Err(Failure::User(HAS_NO_HEADER@))
        } else {
            match path {
                Some(file) => Ok(Target::File(file)),
                None => Err(Failure::User(NOT_SAVED@)),
            }
        },
        ActionOperation::EncryptValue => match yaml::found_scalar(s, range) {
            Ok(found) => Ok(Target::Value(found)),
            Err(failure) => Err(failure),
        },
        ActionOperation::DecryptValue => match yaml::found_vault(s, range) {
            Ok(found) => if vault::vault_file(found.content) {
                Ok(Target::Value(found))
            } else {
                Err(Failure::User(INVALID_VALUE_HEADER@))
            },
            Err(failure) => Err(failure),
        },
    }
}

/// The worktree from which relative settings are taken.
pub open spec fn root_of(path: Option<Seq<char>>, roots: Seq<Seq<char>>) -> Seq<char> {
    match path {
        Some(file) => paths::worktree(file, roots),
        None => if roots.len() > 0 {
            roots[0]
        } else {
            "."@
        },
    }
}

fn root_for(path: &Option<String>, roots: &Vec<String>) -> (r: String)
    ensures
        r@ == root_of(crate::config::shown(*path), text::texts(roots@)),
{
    match path {
        Some(file) => paths::worktree_for(file.as_str(), roots),
        None => {
            if roots.len() > 0 {
                proof {
                    assert(text::texts(roots@)[0] == roots@[0]@);
                }
                roots[0].clone()
            } else {
                ".".to_string()
            }
        },
    }
}

// ---------------------------------------------------------------------------
// Actions and events
// ---------------------------------------------------------------------------

/// What is to be done next.
#[derive(Debug)]
pub enum SessionAction {
    /// Look the document up.
    ReadDocument,
    /// Look the settings up.
    ReadSettings,
    /// Run the preflight checks for a worktree and a file.
    Preflight(String, Option<String>),
    /// Get a file with the password.
    ObtainPassword,
    /// Ask the file system about the target, not through links.
    InspectTarget(String),
    /// Read the target.
    ReadTarget(String),
    /// Write these bytes to a private temporary file.
    StageInput(Vec<u8>),
    /// Reserve a name for the result in this directory.
    ReserveOutput(String),
    /// Run `ansible-vault` with these arguments, variables and this input.
    Run(Vec<String>, Vec<(String, String)>, Option<Vec<u8>>),
    /// Read the result.
    ReadOutput,
    /// Put the result in the place of the target.
    Replace(String),
    /// Give the editor time, and look the document up.
    AwaitRefresh,
    /// Tell the user that the operation is done.
    Inform(String),
    /// Warn the user that the editor shows an old text.
    Warn(String),
    /// Offer an edit of the document in this version.
    Edit(Range, String, i32),
}

/// An action as contracts speak of it.
pub enum Doing {
    ReadDocument,
    ReadSettings,
    Preflight(Seq<char>, Option<Seq<char>>),
    ObtainPassword,
    InspectTarget(Seq<char>),
    ReadTarget(Seq<char>),
    StageInput(Seq<u8>),
    ReserveOutput(Seq<char>),
    Run(Seq<Seq<char>>, Seq<(Seq<char>, Seq<char>)>, Option<Seq<u8>>),
    ReadOutput,
    Replace(Seq<char>),
    AwaitRefresh,
    Inform(Seq<char>),
    Warn(Seq<char>),
    Edit(Range, Seq<char>, i32),
}

impl View for SessionAction {
    type V = Doing;

    open spec fn view(&self) -> Doing {
        match *self {
            SessionAction::ReadDocument => Doing::ReadDocument,
            SessionAction::ReadSettings => Doing::ReadSettings,
            SessionAction::Preflight(root, target) => Doing::Preflight(
                root@,
                crate::config::shown(target),
            ),
            SessionAction::ObtainPassword => Doing::ObtainPassword,
            SessionAction::InspectTarget(path) => Doing::InspectTarget(path@),
            SessionAction::ReadTarget(path) => Doing::ReadTarget(path@),
            SessionAction::StageInput(content) => Doing::StageInput(content@),
            SessionAction::ReserveOutput(directory) => Doing::ReserveOutput(directory@),
            SessionAction::Run(args, variables, Some(input)) => Doing::Run(
                text::texts(args@),
                process::pairs(variables@),
                Some(input@),
            ),
            SessionAction::Run(args, variables, None) => Doing::Run(
                text::texts(args@),
                process::pairs(variables@),
                None,
            ),
            SessionAction::ReadOutput => Doing::ReadOutput,
            SessionAction::Replace(path) => Doing::Replace(path@),
            SessionAction::AwaitRefresh => Doing::AwaitRefresh,
            SessionAction::Inform(message) => Doing::Inform(message@),
            SessionAction::Warn(message) => Doing::Warn(message@),
            SessionAction::Edit(range, replacement, version) => Doing::Edit(
                range,
                replacement@,
                version,
            ),
        }
    }
}

/// What came of an action.
#[derive(Debug)]
pub enum SessionEvent {
    /// The document, if it is open.
    Document(Option<Document>),
    /// The settings, and why the latest configuration was refused, if it was.
    Settings(Settings, Option<String>),
    /// The directory in which Ansible may work, or why a preflight check failed.
    Checked(AppResult<String>),
    /// The path of the file with the password.
    Password(AppResult<String>),
    /// What the file system says, or why it does not.
    Inspected(Result<FileFacts, String>),
    /// What was read, or why it was not.
    Content(Result<Vec<u8>, String>),
    /// The path of a file that was made, or why it was not.
    Staged(AppResult<String>),
    /// What the command left behind.
    Ran(AppResult<ProcessOutput>),
    /// Whether the target was replaced.
    Replaced(AppResult<()>),
}

/// Which answer is awaited.
#[derive(Clone, Copy, Debug, PartialEq, Eq, Structural)]
pub enum Stage {
    Open,
    Settings,
    Preflight,
    Password,
    StageValue,
    RunValue,
    Attach,
    PrepareInspect,
    PrepareRead,
    StageFile,
    Reserve,
    RunFile,
    ReadOutput,
    Reread,
    Recheck,
    CommitInspect,
    CommitRead,
    Replace,
    Refresh,
    Over,
}

/// The stages of work on a file.
pub open spec fn file_stage(stage: Stage) -> bool {
    ||| stage == Stage::PrepareInspect
    ||| stage == Stage::PrepareRead
    ||| stage == Stage::StageFile
    ||| stage == Stage::Reserve
    ||| stage == Stage::RunFile
    ||| stage == Stage::ReadOutput
    ||| stage == Stage::Reread
    ||| stage == Stage::Recheck
    ||| stage == Stage::CommitInspect
    ||| stage == Stage::CommitRead
    ||| stage == Stage::Replace
    ||| stage == Stage::Refresh
}

/// The stages of work on a value.
pub open spec fn value_stage(stage: Stage) -> bool {
    stage == Stage::StageValue || stage == Stage::RunValue || stage == Stage::Attach
}

fn is_file_stage(stage: Stage) -> (r: bool)
    ensures
        r == file_stage(stage),
{
    stage == Stage::PrepareInspect || stage == Stage::PrepareRead || stage == Stage::StageFile
        || stage == Stage::Reserve || stage == Stage::RunFile || stage == Stage::ReadOutput || stage
        == Stage::Reread || stage == Stage::Recheck || stage == Stage::CommitInspect || stage
        == Stage::CommitRead || stage == Stage::Replace || stage == Stage::Refresh
}

/// Where an operation stands.
#[derive(Debug)]
pub struct Session {
    stage: Stage,
    action: ActionOperation,
    version: i32,
    range: Range,
    /// The file of the document.
    path: Option<String>,
    roots: Vec<String>,
    /// The text that the operation started from.
    initial: String,
    settings: Settings,
    /// The bytes of the value in the document.
    start: usize,
    end: usize,
    /// What the value says, or its payload.
    content: String,
    indent: String,
    /// The directory in which Ansible may work.
    work_directory: String,
    /// The files with the password and with the input of the run.
    password: String,
    input: String,
    original_hash: [u8; 32],
    result_hash: [u8; 32],
    /// What is to stand in the place of the value.
    replacement: String,
}

/// Where an operation stands, as contracts speak of it.
pub struct Operating {
    pub stage: Stage,
    pub action: ActionOperation,
    pub version: i32,
    pub range: Range,
    pub path: Option<Seq<char>>,
    pub roots: Seq<Seq<char>>,
    pub initial: Seq<char>,
    pub settings: Configured,
    pub start: int,
    pub end: int,
    pub content: Seq<char>,
    pub indent: Seq<char>,
    pub work_directory: Seq<char>,
    pub password: Seq<char>,
    pub input: Seq<char>,
    pub original_hash: Seq<u8>,
    pub result_hash: Seq<u8>,
    pub replacement: Seq<char>,
}

impl View for Session {
    type V = Operating;

    closed spec fn view(&self) -> Operating {
        Operating {
            stage: self.stage,
            action: self.action,
            version: self.version,
            range: self.range,
            path: crate::config::shown(self.path),
            roots: text::texts(self.roots@),
            initial: self.initial@,
            settings: self.settings@,
            start: self.start as int,
            end: self.end as int,
            content: self.content@,
            indent: self.indent@,
            work_directory: self.work_directory@,
            password: self.password@,
            input: self.input@,
            original_hash: self.original_hash@,
            result_hash: self.result_hash@,
            replacement: self.replacement@,
        }
    }
}

/// Where the operation stands next and what is to be done, or why it ends.
pub type Outcome = Result<(Operating, Doing), Failure>;

/// Whether a document is the one that an operation started from.
pub open spec fn unchanged(current: Option<Document>, version: i32, initial: Seq<char>) -> bool {
    current matches Some(document) && document.version == version && document.text@ == initial
}

/// What an operation makes of the output of its run: the text that is to stand in
/// the place of the value.
pub open spec fn replacement_of(
    action: ActionOperation,
    stdout: Seq<u8>,
    indent: Seq<char>,
) -> Result<Seq<char>, Failure> {
    if action == ActionOperation::EncryptValue {
        match bytes::utf8_text(stdout) {
            None => Err(Failure::User(vault::INVALID_TEXT@)),
            Some(s) => match vault::encrypted_payload(s) {
                None => Err(Failure::User(writing::INVALID_ENCRYPTED@)),
                Some(payload) => match writing::encrypted_value(payload, indent) {
                    None => Err(Failure::User(writing::INVALID_ENCRYPTED@)),
                    Some(value) => Ok(value),
                },
            },
        }
    } else {
        match bytes::utf8_text(stdout) {
            None => Err(Failure::User(vault::NOT_UTF8_VALUE@)),
            Some(s) => Ok(writing::plaintext_value(vault::without_display_end(s), indent)),
        }
    }
}

impl Operating {
    /// The operation of `ansible-vault`.
    pub open spec fn operation(self) -> Operation {
        operation::operation_of(self.action)
    }

    pub open spec fn at(self, stage: Stage, doing: Doing) -> Outcome {
        Ok((Operating { stage, ..self }, doing))
    }

    /// The document was looked up for the first time.
    pub open spec fn opened(self, current: Option<Document>) -> Outcome {
        match current {
            None => Err(Failure::User(NOT_OPEN@)),
            Some(document) => if document.version != self.version {
                Err(Failure::StaleDocument)
            } else {
                Operating { initial: document.text@, ..self }.at(
                    Stage::Settings,
                    Doing::ReadSettings,
                )
            },
        }
    }

    /// The settings are known: what the operation works on is looked for, and the
    /// checks follow.
    pub open spec fn settled(self, settings: Configured, error: Option<Seq<char>>) -> Outcome {
        match error {
            Some(message) => Err(Failure::User(message)),
            None => match target_of(self.action, self.initial, self.range, self.path) {
                Err(failure) => Err(failure),
                Ok(Target::File(path)) => Operating { settings, ..self }.at(
                    Stage::Preflight,
                    Doing::Preflight(root_of(self.path, self.roots), Some(path)),
                ),
                Ok(Target::Value(found)) => Operating {
                    settings,
                    start: found.start,
                    end: found.end,
                    content: found.content,
                    indent: found.continuation_indent,
                    ..self
                }.at(
                    Stage::Preflight,
                    Doing::Preflight(root_of(self.path, self.roots), None),
                ),
            },
        }
    }

    /// The password is at hand.
    pub open spec fn unlocked(self, password: Seq<char>) -> Outcome {
        let next = Operating { password, ..self };
        match self.action {
            ActionOperation::EncryptValue => next.at(
                Stage::RunValue,
                Doing::Run(
                    vault::encrypt_args(self.settings.vault_id, password),
                    process::environment(self.work_directory),
                    Some(vstd::utf8::encode_utf8(self.content)),
                ),
            ),
            ActionOperation::DecryptValue => next.at(
                Stage::StageValue,
                Doing::StageInput(vstd::utf8::encode_utf8(self.content)),
            ),
            _ => next.at(Stage::PrepareInspect, Doing::InspectTarget(self.path->0)),
        }
    }

    /// The run on a value is over.
    pub open spec fn value_made(self, ran: Result<Left, Failure>) -> Outcome {
        match ran {
            Err(failure) => Err(failure),
            Ok(output) => match vault::run_failure(output) {
                Some(failure) => Err(failure),
                None => match replacement_of(self.action, output.stdout, self.indent) {
                    Err(failure) => Err(failure),
                    Ok(replacement) => Operating { replacement, ..self }.at(
                        Stage::Attach,
                        Doing::ReadDocument,
                    ),
                },
            },
        }
    }

    /// The document was looked up again: the edit is offered only if it has not
    /// changed.
    pub open spec fn attached(self, current: Option<Document>) -> Outcome {
        if unchanged(current, self.version, self.initial) {
            self.at(
                Stage::Over,
                Doing::Edit(
                    Range {
                        start: document::truncated(
                            document::position_at(self.initial, self.start),
                        ),
                        end: document::truncated(document::position_at(self.initial, self.end)),
                    },
                    self.replacement,
                    self.version,
                ),
            )
        } else {
            Err(Failure::StaleDocument)
        }
    }

    /// The file system was asked about the target.
    pub open spec fn inspected(
        self,
        found: Result<FileFacts, Seq<char>>,
        stage: Stage,
    ) -> Outcome {
        match found {
            Err(reason) => Err(Failure::Filesystem(reason)),
            Ok(facts) => match vault::target_failure(facts) {
                Some(failure) => Err(failure),
                None => self.at(stage, Doing::ReadTarget(self.path->0)),
            },
        }
    }

    /// The target was read for the first time: it has to hold what the editor
    /// shows.
    pub open spec fn prepared(self, disk: Seq<u8>) -> Outcome {
        match vault::disk_failure(disk, self.initial) {
            Some(failure) => Err(failure),
            None => Operating { original_hash: digest::sha256_digest(disk), ..self }.at(
                Stage::StageFile,
                Doing::StageInput(disk),
            ),
        }
    }

    /// The input of the run is in place.
    pub open spec fn input_staged(self, input: Seq<char>) -> Outcome {
        match paths::parent(self.path->0) {
            None => Err(Failure::User(preflight::NO_PARENT@)),
            Some(directory) => Operating { input, ..self }.at(
                Stage::Reserve,
                Doing::ReserveOutput(directory),
            ),
        }
    }

    /// The name of the result is reserved.
    pub open spec fn output_reserved(self, output: Seq<char>) -> Outcome {
        self.at(
            Stage::RunFile,
            Doing::Run(
                vault::file_args(
                    self.operation(),
                    self.settings.vault_id,
                    self.password,
                    output,
                    self.input,
                ),
                process::environment(self.work_directory),
                None,
            ),
        )
    }

    /// The run on a file is over.
    pub open spec fn file_made(self, ran: Result<Left, Failure>) -> Outcome {
        match ran {
            Err(failure) => Err(failure),
            Ok(output) => match vault::run_failure(output) {
                Some(failure) => Err(failure),
                None => self.at(Stage::ReadOutput, Doing::ReadOutput),
            },
        }
    }

    /// The result was read.
    pub open spec fn output_read(self, result: Seq<u8>) -> Outcome {
        match bytes::utf8_text(result) {
            None => Err(Failure::User(vault::NOT_UTF8_RESULT@)),
            Some(_) => Operating { result_hash: digest::sha256_digest(result), ..self }.at(
                Stage::Reread,
                Doing::ReadDocument,
            ),
        }
    }

    /// The document was looked up again.
    pub open spec fn reread(self, current: Option<Document>) -> Outcome {
        if unchanged(current, self.version, self.initial) {
            self.at(Stage::Recheck, Doing::ReadTarget(self.path->0))
        } else {
            Err(Failure::StaleDocument)
        }
    }

    /// The target was read again: it has to be what it was.
    pub open spec fn rechecked(self, disk: Seq<u8>, stage: Stage, doing: Doing) -> Outcome {
        if digest::sha256_digest(disk) == self.original_hash {
            self.at(stage, doing)
        } else {
            Err(Failure::User(vault::CHANGED_ON_DISK@))
        }
    }

    /// The editor had time to notice the new file.
    pub open spec fn refreshed(self, current: Option<Document>) -> Outcome {
        if current matches Some(document) && digest::sha256_digest(
            vstd::utf8::encode_utf8(document.text@),
        ) == self.result_hash {
            self.at(Stage::Over, Doing::Inform(COMPLETED@))
        } else {
            self.at(Stage::Over, Doing::Warn(NOT_REFRESHED@))
        }
    }

    /// What follows an event while the operation works on a file.
    pub open spec fn after_in_file(self, event: SessionEvent) -> Outcome {
        match (self.stage, event) {
            (Stage::PrepareInspect, SessionEvent::Inspected(found)) => self.inspected(
                preflight::facts_of(found),
                Stage::PrepareRead,
            ),
            (Stage::PrepareRead, SessionEvent::Content(Err(reason))) => Err(
                Failure::Filesystem(reason@),
            ),
            (Stage::PrepareRead, SessionEvent::Content(Ok(disk))) => self.prepared(disk@),
            (Stage::StageFile, SessionEvent::Staged(Err(error))) => Err(error@),
            (Stage::StageFile, SessionEvent::Staged(Ok(path))) => self.input_staged(path@),
            (Stage::Reserve, SessionEvent::Staged(Err(error))) => Err(error@),
            (Stage::Reserve, SessionEvent::Staged(Ok(path))) => self.output_reserved(path@),
            (Stage::RunFile, SessionEvent::Ran(ran)) => self.file_made(preflight::left_of(ran)),
            (Stage::ReadOutput, SessionEvent::Content(Err(reason))) => Err(
                Failure::Filesystem(reason@),
            ),
            (Stage::ReadOutput, SessionEvent::Content(Ok(result))) => self.output_read(result@),
            (Stage::Reread, SessionEvent::Document(current)) => self.reread(current),
            (Stage::Recheck, SessionEvent::Content(Err(reason))) => Err(
                Failure::Filesystem(reason@),
            ),
            (Stage::Recheck, SessionEvent::Content(Ok(disk))) => self.rechecked(
                disk@,
                Stage::CommitInspect,
                Doing::InspectTarget(self.path->0),
            ),
            (Stage::CommitInspect, SessionEvent::Inspected(found)) => self.inspected(
                preflight::facts_of(found),
                Stage::CommitRead,
            ),
            (Stage::CommitRead, SessionEvent::Content(Err(reason))) => Err(
                Failure::Filesystem(reason@),
            ),
            (Stage::CommitRead, SessionEvent::Content(Ok(disk))) => self.rechecked(
                disk@,
                Stage::Replace,
                Doing::Replace(self.path->0),
            ),
            (Stage::Replace, SessionEvent::Replaced(Err(error))) => Err(error@),
            (Stage::Replace, SessionEvent::Replaced(Ok(_))) => self.at(
                Stage::Refresh,
                Doing::AwaitRefresh,
            ),
            (Stage::Refresh, SessionEvent::Document(current)) => self.refreshed(current),
            _ => Err(Failure::Internal(UNEXPECTED@)),
        }
    }

    /// What follows an event before that, and while the operation works on a value.
    pub open spec fn after_outside_file(self, event: SessionEvent) -> Outcome {
        match (self.stage, event) {
            (Stage::Open, SessionEvent::Document(current)) => self.opened(current),
            (Stage::Settings, SessionEvent::Settings(settings, error)) => self.settled(
                settings@,
                crate::config::shown(error),
            ),
            (Stage::Preflight, SessionEvent::Checked(Err(error))) => Err(error@),
            (Stage::Preflight, SessionEvent::Checked(Ok(work_directory))) => Operating {
                work_directory: work_directory@,
                ..self
            }.at(Stage::Password, Doing::ObtainPassword),
            (Stage::Password, SessionEvent::Password(Err(error))) => Err(error@),
            (Stage::Password, SessionEvent::Password(Ok(path))) => self.unlocked(path@),
            (Stage::StageValue, SessionEvent::Staged(Err(error))) => Err(error@),
            (Stage::StageValue, SessionEvent::Staged(Ok(path))) => Operating {
                input: path@,
                ..self
            }.at(
                Stage::RunValue,
                Doing::Run(
                    vault::view_args(self.settings.vault_id, self.password, path@),
                    process::environment(self.work_directory),
                    None,
                ),
            ),
            (Stage::RunValue, SessionEvent::Ran(ran)) => self.value_made(preflight::left_of(ran)),
            (Stage::Attach, SessionEvent::Document(current)) => self.attached(current),
            _ => Err(Failure::Internal(UNEXPECTED@)),
        }
    }

    /// What follows an event.
    pub open spec fn after(self, event: SessionEvent) -> Outcome {
        if file_stage(self.stage) {
            self.after_in_file(event)
        } else {
            self.after_outside_file(event)
        }
    }

    /// Whether the operation has found what it works on.
    pub open spec fn aimed(self) -> bool {
        !(self.stage == Stage::Open || self.stage == Stage::Settings)
    }

    /// What the stage says of the other parts: a file operation has a file, and a
    /// value operation has whole characters of the text.
    pub open spec fn wf(self) -> bool {
        &&& self.aimed() ==> if self.operation().on_file() {
            self.path is Some
        } else {
            yaml::placed(self.initial, self.start, self.end)
        }
        &&& file_stage(self.stage) ==> self.operation().on_file()
        &&& value_stage(self.stage) ==> !self.operation().on_file()
    }
}

/// How an operation begins.
pub open spec fn session_start(
    action: ActionOperation,
    version: i32,
    range: Range,
    path: Option<Seq<char>>,
    roots: Seq<Seq<char>>,
) -> Operating {
    Operating {
        stage: Stage::Open,
        action,
        version,
        range,
        path,
        roots,
        initial: Seq::empty(),
        settings: crate::config::default_settings(),
        start: 0,
        end: 0,
        content: Seq::empty(),
        indent: Seq::empty(),
        work_directory: Seq::empty(),
        password: Seq::empty(),
        input: Seq::empty(),
        original_hash: Seq::new(32, |i: int| 0u8),
        result_hash: Seq::new(32, |i: int| 0u8),
        replacement: Seq::empty(),
    }
}

/// Whether a step was made as a specification says.
pub open spec fn stepped(
    result: AppResult<SessionAction>,
    state: Operating,
    wanted: Outcome,
) -> bool {
    match result {
        Ok(action) => wanted == Ok::<(Operating, Doing), Failure>((state, action@)),
        Err(error) => wanted == Err::<(Operating, Doing), Failure>(error@),
    }
}

fn empty_text() -> (r: String)
    ensures
        r@ == Seq::<char>::empty(),
{
    let r = String::new();
    proof {
        assert(r@ =~= Seq::<char>::empty());
    }
    r
}

fn encoded(text: &str) -> (r: Vec<u8>)
    ensures
        r@ == vstd::utf8::encode_utf8(text@),
{
    let held: &[u8] = text.as_bytes();
    let mut out: Vec<u8> = Vec::new();
    for i in 0..held.len()
        invariant
            out@ == held@.take(i as int),
    {
        out.push(held[i]);
    }
    out
}

fn is_unchanged(current: &Option<Document>, version: i32, initial: &str) -> (r: bool)
    ensures
        r == unchanged(*current, version, initial@),
{
    match current {
        Some(document) => document.version == version && text::same_str(
            document.text.as_str(),
            initial,
        ),
        None => false,
    }
}

/// What is to stand in the place of a value, by the output of the run.
pub fn make_replacement(action: ActionOperation, stdout: &[u8], indent: &str) -> (r: AppResult<
    String,
>)
    ensures
        match r {
            Ok(replacement) => replacement_of(action, stdout@, indent@) == Ok::<
                Seq<char>,
                Failure,
            >(replacement@),
            Err(error) => replacement_of(action, stdout@, indent@) == Err::<Seq<char>, Failure>(
                error@,
            ),
        },
{
    if action == ActionOperation::EncryptValue {
        match vault::parse_encrypt_string(stdout) {
            Err(error) => Err(error),
            Ok(payload) => writing::format_encrypted_value(payload.as_str(), indent),
        }
    } else {
        match vault::decrypted_value(stdout) {
            Err(error) => Err(error),
            Ok(plaintext) => Ok(writing::format_plaintext_value(plaintext.as_str(), indent)),
        }
    }
}

impl Session {
    /// Begins an operation on a document.
    pub fn perform_action(
        action: ActionOperation,
        version: i32,
        range: Range,
        path: Option<String>,
        roots: Vec<String>,
    ) -> (r: (Session, SessionAction))
        ensures
            r.0@ == session_start(
                action,
                version,
                range,
                crate::config::shown(path),
                text::texts(roots@),
            ),
            r.0@.wf(),
            r.1@ == Doing::ReadDocument,
    {
        let session = Session {
            stage: Stage::Open,
            action,
            version,
            range,
            path,
            roots,
            initial: empty_text(),
            settings: Settings::default(),
            start: 0,
            end: 0,
            content: empty_text(),
            indent: empty_text(),
            work_directory: empty_text(),
            password: empty_text(),
            input: empty_text(),
            original_hash: [0u8;32],
            result_hash: [0u8;32],
            replacement: empty_text(),
        };
        proof {
            assert(session@.original_hash =~= Seq::new(32, |i: int| 0u8));
            assert(session@.result_hash =~= Seq::new(32, |i: int| 0u8));
        }
        (session, SessionAction::ReadDocument)
    }

    fn at(&mut self, stage: Stage, action: SessionAction) -> (r: AppResult<SessionAction>)
        ensures
            stepped(r, final(self)@, old(self)@.at(stage, action@)),
    {
        self.stage = stage;
        Ok(action)
    }

    fn target_path(&self) -> (r: String)
        requires
            self@.path is Some,
        ensures
            r@ == self@.path->0,
    {
        match &self.path {
            Some(path) => path.clone(),
            None => String::new(),
        }
    }

    fn opened(&mut self, current: Option<Document>) -> (r: AppResult<SessionAction>)
        ensures
            stepped(r, final(self)@, old(self)@.opened(current)),
    {
        match current {
            None => Err(AppError::told(NOT_OPEN)),
            Some(document) => {
                if document.version != self.version {
                    return Err(AppError::StaleDocument);
                }
                self.initial = document.text;
                self.at(Stage::Settings, SessionAction::ReadSettings)
            },
        }
    }

    fn aims_at_file(&mut self, settings: Settings) -> (r: AppResult<SessionAction>)
        ensures
            match old(self)@.path {
                Some(path) => stepped(
                    r,
                    final(self)@,
                    Operating { settings: settings@, ..old(self)@ }.at(
                        Stage::Preflight,
                        Doing::Preflight(root_of(old(self)@.path, old(self)@.roots), Some(path)),
                    ),
                ),
                None => r matches Err(error) && error@ == Failure::User(NOT_SAVED@),
            },
    {
        let target = match &self.path {
            None => {
                return Err(AppError::told(NOT_SAVED));
            },
            Some(path) => path.clone(),
        };
        let root = root_for(&self.path, &self.roots);
        self.settings = settings;
        self.at(Stage::Preflight, SessionAction::Preflight(root, Some(target)))
    }

    fn aims_at_value(
        &mut self,
        settings: Settings,
        start: usize,
        end: usize,
        content: String,
        indent: String,
    ) -> (r: AppResult<SessionAction>)
        ensures
            stepped(
                r,
                final(self)@,
                Operating {
                    settings: settings@,
                    start: start as int,
                    end: end as int,
                    content: content@,
                    indent: indent@,
                    ..old(self)@
                }.at(
                    Stage::Preflight,
                    Doing::Preflight(root_of(old(self)@.path, old(self)@.roots), None),
                ),
            ),
    {
        let root = root_for(&self.path, &self.roots);
        self.settings = settings;
        self.start = start;
        self.end = end;
        self.content = content;
        self.indent = indent;
        self.at(Stage::Preflight, SessionAction::Preflight(root, None))
    }

    fn settled(&mut self, settings: Settings, error: Option<String>) -> (r: AppResult<
        SessionAction,
    >)
        ensures
            stepped(
                r,
                final(self)@,
                old(self)@.settled(settings@, crate::config::shown(error)),
            ),
            r is Ok ==> final(self)@.wf(),
    {
        if let Some(message) = error {
            return Err(AppError::User(message));
        }
        match self.action {
            ActionOperation::EncryptFile => {
                let held = text::chars_of(self.initial.as_str());
                let marker = text::chars_of(crate::header::VAULT_MARKER);
                if vault::is_vault_file(self.initial.as_str()) || text::has_prefix(
                    held.as_slice(),
                    marker.as_slice(),
                ) {
                    return Err(AppError::told(HAS_HEADER));
                }
                self.aims_at_file(settings)
            },
            ActionOperation::DecryptFile => {
                if !vault::is_vault_file(self.initial.as_str()) {
                    return Err(AppError::told(HAS_NO_HEADER));
                }
                self.aims_at_file(settings)
            },
            ActionOperation::EncryptValue => {
                match yaml::find_scalar(self.initial.as_str(), self.range) {
                    Err(error) => Err(error),
                    Ok(target) => self.aims_at_value(
                        settings,
                        target.start,
                        target.end,
                        target.plaintext,
                        target.continuation_indent,
                    ),
                }
            },
            ActionOperation::DecryptValue => {
                match yaml::find_vault(self.initial.as_str(), self.range) {
                    Err(error) => Err(error),
                    Ok(target) => {
                        if !vault::is_vault_file(target.vault_text.as_str()) {
                            return Err(AppError::told(INVALID_VALUE_HEADER));
                        }
                        self.aims_at_value(
                            settings,
                            target.start,
                            target.end,
                            target.vault_text,
                            target.continuation_indent,
                        )
                    },
                }
            },
        }
    }

    fn unlocked(&mut self, password: String) -> (r: AppResult<SessionAction>)
        requires
            old(self)@.operation().on_file() ==> old(self)@.path is Some,
        ensures
            stepped(r, final(self)@, old(self)@.unlocked(password@)),
    {
        match self.action {
            ActionOperation::EncryptValue => {
                let args = vault::encrypt_value_args(&self.settings, password.as_str());
                let variables = process::variables(self.work_directory.as_str());
                let input = encoded(self.content.as_str());
                self.password = password;
                self.at(Stage::RunValue, SessionAction::Run(args, variables, Some(input)))
            },
            ActionOperation::DecryptValue => {
                let input = encoded(self.content.as_str());
                self.password = password;
                self.at(Stage::StageValue, SessionAction::StageInput(input))
            },
            _ => {
                let path = self.target_path();
                self.password = password;
                self.at(Stage::PrepareInspect, SessionAction::InspectTarget(path))
            },
        }
    }

    fn value_made(&mut self, ran: AppResult<ProcessOutput>) -> (r: AppResult<SessionAction>)
        ensures
            stepped(r, final(self)@, old(self)@.value_made(preflight::left_of(ran))),
    {
        let output = match ran {
            Err(error) => {
                return Err(error);
            },
            Ok(output) => output,
        };
        let output = match vault::checked_output(output) {
            Err(error) => {
                return Err(error);
            },
            Ok(output) => output,
        };
        match make_replacement(self.action, output.stdout.as_slice(), self.indent.as_str()) {
            Err(error) => Err(error),
            Ok(replacement) => {
                self.replacement = replacement;
                self.at(Stage::Attach, SessionAction::ReadDocument)
            },
        }
    }

    fn attached(&mut self, current: Option<Document>) -> (r: AppResult<SessionAction>)
        requires
            yaml::placed(old(self)@.initial, old(self)@.start, old(self)@.end),
        ensures
            stepped(r, final(self)@, old(self)@.attached(current)),
    {
        if !is_unchanged(&current, self.version, self.initial.as_str()) {
            return Err(AppError::StaleDocument);
        }
        let range = document::byte_range_to_lsp(self.initial.as_str(), self.start, self.end);
        let replacement = self.replacement.clone();
        let version = self.version;
        self.at(Stage::Over, SessionAction::Edit(range, replacement, version))
    }

    fn inspected(&mut self, found: Result<FileFacts, String>, stage: Stage) -> (r: AppResult<
        SessionAction,
    >)
        requires
            old(self)@.path is Some,
        ensures
            stepped(r, final(self)@, old(self)@.inspected(preflight::facts_of(found), stage)),
    {
        match found {
            Err(reason) => Err(AppError::Filesystem(reason)),
            Ok(facts) => match vault::validate_target_file(facts) {
                Err(error) => Err(error),
                Ok(_) => {
                    let path = self.target_path();
                    self.at(stage, SessionAction::ReadTarget(path))
                },
            },
        }
    }

    fn prepared(&mut self, disk: Vec<u8>) -> (r: AppResult<SessionAction>)
        ensures
            stepped(r, final(self)@, old(self)@.prepared(disk@)),
    {
        match vault::original_hash(disk.as_slice(), self.initial.as_str()) {
            Err(error) => Err(error),
            Ok(hash) => {
                self.original_hash = hash;
                self.at(Stage::StageFile, SessionAction::StageInput(disk))
            },
        }
    }

    fn input_staged(&mut self, input: String) -> (r: AppResult<SessionAction>)
        requires
            old(self)@.path is Some,
        ensures
            stepped(r, final(self)@, old(self)@.input_staged(input@)),
    {
        let path = self.target_path();
        match paths::parent_of(path.as_str()) {
            None => Err(AppError::told(preflight::NO_PARENT)),
            Some(directory) => {
                self.input = input;
                self.at(Stage::Reserve, SessionAction::ReserveOutput(directory))
            },
        }
    }

    fn output_reserved(&mut self, output: String) -> (r: AppResult<SessionAction>)
        requires
            old(self)@.operation().on_file(),
        ensures
            stepped(r, final(self)@, old(self)@.output_reserved(output@)),
    {
        let operation = Operation::from(self.action);
        match vault::file_operation_args(
            operation,
            &self.settings,
            self.password.as_str(),
            output.as_str(),
            self.input.as_str(),
        ) {
            Err(error) => Err(error),
            Ok(args) => {
                let variables = process::variables(self.work_directory.as_str());
                self.at(Stage::RunFile, SessionAction::Run(args, variables, None))
            },
        }
    }

    fn file_made(&mut self, ran: AppResult<ProcessOutput>) -> (r: AppResult<SessionAction>)
        ensures
            stepped(r, final(self)@, old(self)@.file_made(preflight::left_of(ran))),
    {
        match ran {
            Err(error) => Err(error),
            Ok(output) => match vault::checked_output(output) {
                Err(error) => Err(error),
                Ok(_) => self.at(Stage::ReadOutput, SessionAction::ReadOutput),
            },
        }
    }

    fn output_read(&mut self, result: Vec<u8>) -> (r: AppResult<SessionAction>)
        ensures
            stepped(r, final(self)@, old(self)@.output_read(result@)),
    {
        match vault::result_hash(result.as_slice()) {
            Err(error) => Err(error),
            Ok(hash) => {
                self.result_hash = hash;
                self.at(Stage::Reread, SessionAction::ReadDocument)
            },
        }
    }

    fn reread(&mut self, current: Option<Document>) -> (r: AppResult<SessionAction>)
        requires
            old(self)@.path is Some,
        ensures
            stepped(r, final(self)@, old(self)@.reread(current)),
    {
        if !is_unchanged(&current, self.version, self.initial.as_str()) {
            return Err(AppError::StaleDocument);
        }
        let path = self.target_path();
        self.at(Stage::Recheck, SessionAction::ReadTarget(path))
    }

    fn rechecked(&mut self, disk: Vec<u8>, stage: Stage, action: SessionAction) -> (r: AppResult<
        SessionAction,
    >)
        ensures
            stepped(r, final(self)@, old(self)@.rechecked(disk@, stage, action@)),
    {
        match vault::check_unchanged(disk.as_slice(), &self.original_hash) {
            Err(error) => Err(error),
            Ok(_) => self.at(stage, action),
        }
    }

    fn refreshed(&mut self, current: Option<Document>) -> (r: AppResult<SessionAction>)
        ensures
            stepped(r, final(self)@, old(self)@.refreshed(current)),
    {
        let seen = match &current {
            Some(document) => {
                let hash = digest::hash_bytes(document.text.as_str().as_bytes());
                digest::same_hash(&hash, &self.result_hash)
            },
            None => false,
        };
        if seen {
            self.at(Stage::Over, SessionAction::Inform(COMPLETED.to_string()))
        } else {
            self.at(Stage::Over, SessionAction::Warn(NOT_REFRESHED.to_string()))
        }
    }

    fn next_in_file(&mut self, event: SessionEvent) -> (r: AppResult<SessionAction>)
        requires
            old(self)@.wf(),
            file_stage(old(self)@.stage),
        ensures
            stepped(r, final(self)@, old(self)@.after_in_file(event)),
            r is Ok ==> final(self)@.wf(),
    {
        match (self.stage, event) {
            (Stage::PrepareInspect, SessionEvent::Inspected(found)) => {
                self.inspected(found, Stage::PrepareRead)
            },
            (Stage::PrepareRead, SessionEvent::Content(Err(reason))) => Err(
                AppError::Filesystem(reason),
            ),
            (Stage::PrepareRead, SessionEvent::Content(Ok(disk))) => self.prepared(disk),
            (Stage::StageFile, SessionEvent::Staged(Err(error))) => Err(error),
            (Stage::StageFile, SessionEvent::Staged(Ok(path))) => self.input_staged(path),
            (Stage::Reserve, SessionEvent::Staged(Err(error))) => Err(error),
            (Stage::Reserve, SessionEvent::Staged(Ok(path))) => self.output_reserved(path),
            (Stage::RunFile, SessionEvent::Ran(ran)) => self.file_made(ran),
            (Stage::ReadOutput, SessionEvent::Content(Err(reason))) => Err(
                AppError::Filesystem(reason),
            ),
            (Stage::ReadOutput, SessionEvent::Content(Ok(result))) => self.output_read(result),
            (Stage::Reread, SessionEvent::Document(current)) => self.reread(current),
            (Stage::Recheck, SessionEvent::Content(Err(reason))) => Err(
                AppError::Filesystem(reason),
            ),
            (Stage::Recheck, SessionEvent::Content(Ok(disk))) => {
                let path = self.target_path();
                self.rechecked(disk, Stage::CommitInspect, SessionAction::InspectTarget(path))
            },
            (Stage::CommitInspect, SessionEvent::Inspected(found)) => {
                self.inspected(found, Stage::CommitRead)
            },
            (Stage::CommitRead, SessionEvent::Content(Err(reason))) => Err(
                AppError::Filesystem(reason),
            ),
            (Stage::CommitRead, SessionEvent::Content(Ok(disk))) => {
                let path = self.target_path();
                self.rechecked(disk, Stage::Replace, SessionAction::Replace(path))
            },
            (Stage::Replace, SessionEvent::Replaced(Err(error))) => Err(error),
            (Stage::Replace, SessionEvent::Replaced(Ok(_))) => self.at(
                Stage::Refresh,
                SessionAction::AwaitRefresh,
            ),
            (Stage::Refresh, SessionEvent::Document(current)) => self.refreshed(current),
            _ => Err(AppError::Internal(UNEXPECTED.to_string())),
        }
    }

    fn next_outside_file(&mut self, event: SessionEvent) -> (r: AppResult<SessionAction>)
        requires
            old(self)@.wf(),
            !file_stage(old(self)@.stage),
        ensures
            stepped(r, final(self)@, old(self)@.after_outside_file(event)),
            r is Ok ==> final(self)@.wf(),
    {
        match (self.stage, event) {
            (Stage::Open, SessionEvent::Document(current)) => self.opened(current),
            (Stage::Settings, SessionEvent::Settings(settings, error)) => self.settled(
                settings,
                error,
            ),
            (Stage::Preflight, SessionEvent::Checked(Err(error))) => Err(error),
            (Stage::Preflight, SessionEvent::Checked(Ok(work_directory))) => {
                self.work_directory = work_directory;
                self.at(Stage::Password, SessionAction::ObtainPassword)
            },
            (Stage::Password, SessionEvent::Password(Err(error))) => Err(error),
            (Stage::Password, SessionEvent::Password(Ok(path))) => self.unlocked(path),
            (Stage::StageValue, SessionEvent::Staged(Err(error))) => Err(error),
            (Stage::StageValue, SessionEvent::Staged(Ok(path))) => {
                let args = vault::decrypt_value_args(
                    &self.settings,
                    self.password.as_str(),
                    path.as_str(),
                );
                let variables = process::variables(self.work_directory.as_str());
                self.input = path;
                self.at(Stage::RunValue, SessionAction::Run(args, variables, None))
            },
            (Stage::RunValue, SessionEvent::Ran(ran)) => self.value_made(ran),
            (Stage::Attach, SessionEvent::Document(current)) => self.attached(current),
            _ => Err(AppError::Internal(UNEXPECTED.to_string())),
        }
    }

    /// What to do after an event, or why the operation ends.
    pub fn next(&mut self, event: SessionEvent) -> (r: AppResult<SessionAction>)
        requires
            old(self)@.wf(),
        ensures
            stepped(r, final(self)@, old(self)@.after(event)),
            r is Ok ==> final(self)@.wf(),
    {
        if is_file_stage(self.stage) {
            self.next_in_file(event)
        } else {
            self.next_outside_file(event)
        }
    }
}

// ---------------------------------------------------------------------------
// Laws
// ---------------------------------------------------------------------------

/// How far an operation has come.
pub open spec fn rank(stage: Stage) -> int {
    match stage {
        Stage::Open => 0,
        Stage::Settings => 1,
        Stage::Preflight => 2,
        Stage::Password => 3,
        Stage::StageValue => 4,
        Stage::RunValue => 5,
        Stage::Attach => 6,
        Stage::PrepareInspect => 7,
        Stage::PrepareRead => 8,
        Stage::StageFile => 9,
        Stage::Reserve => 10,
        Stage::RunFile => 11,
        Stage::ReadOutput => 12,
        Stage::Reread => 13,
        Stage::Recheck => 14,
        Stage::CommitInspect => 15,
        Stage::CommitRead => 16,
        Stage::Replace => 17,
        Stage::Refresh => 18,
        Stage::Over => 19,
    }
}

/// Every answer brings an operation further or ends it, and what it is about stays
/// the same; so does the text that it started from, once that is known.
pub proof fn law_operations_advance(operating: Operating, event: SessionEvent)
    ensures
        operating.after(event) matches Ok((next, _)) ==> {
            &&& rank(next.stage) > rank(operating.stage)
            &&& next.action == operating.action
            &&& next.version == operating.version
            &&& next.range == operating.range
            &&& next.path == operating.path
            &&& next.roots == operating.roots
            &&& operating.stage != Stage::Open ==> next.initial == operating.initial
            &&& operating.stage != Stage::PrepareRead ==> next.original_hash
                == operating.original_hash
        },
{
}

/// The password is asked for only once the checks have succeeded, and
/// `ansible-vault` is run only once the password is at hand.
pub proof fn law_password_follows_the_checks(operating: Operating, event: SessionEvent)
    ensures
        operating.after(event) matches Ok((_, Doing::ObtainPassword)) ==> operating.stage
            == Stage::Preflight && (event matches SessionEvent::Checked(checked) && checked is Ok),
        operating.after(event) matches Ok((next, _)) ==> (next.stage == Stage::RunValue
            || next.stage == Stage::StageValue || next.stage == Stage::PrepareInspect)
            ==> operating.stage == Stage::Password || operating.stage == Stage::StageValue,
{
}

/// An edit is offered only for the very text and version that the operation
/// started from.
pub proof fn law_stale_documents_are_not_edited(operating: Operating, event: SessionEvent)
    ensures
        operating.after(event) matches Ok((_, Doing::Edit(_, replacement, version))) ==> {
            &&& operating.stage == Stage::Attach
            &&& event matches SessionEvent::Document(current) && unchanged(
                current,
                operating.version,
                operating.initial,
            )
            &&& replacement == operating.replacement
            &&& version == operating.version
        },
{
}

/// A document that has changed or was closed ends the operation with the advice to
/// try again.
pub proof fn law_changes_end_the_operation(operating: Operating, current: Option<Document>)
    requires
        operating.stage == Stage::Attach || operating.stage == Stage::Reread,
        !unchanged(current, operating.version, operating.initial),
    ensures
        operating.after(SessionEvent::Document(current)) == Err::<(Operating, Doing), Failure>(
            Failure::StaleDocument,
        ),
{
}

/// A file is replaced only right after its bytes were found to be those that the
/// operation started from. Before that, it was found to be no link, regular and
/// writable; before that, its bytes were found right once already; before that,
/// the document was found unchanged; before that, the result was found to be text;
/// and before that, `ansible-vault` has succeeded.
pub proof fn law_files_are_replaced_only_after_all_checks(
    operating: Operating,
    event: SessionEvent,
)
    requires
        operating.wf(),
    ensures
        operating.after(event) matches Ok((next, doing)) ==> {
            &&& doing matches Doing::Replace(path) ==> operating.stage == Stage::CommitRead
                && operating.path == Some(path)
            &&& next.stage == Stage::Replace ==> operating.stage == Stage::CommitRead && (
            event matches SessionEvent::Content(Ok(disk)) && digest::sha256_digest(disk@)
                == operating.original_hash)
            &&& next.stage == Stage::CommitRead ==> operating.stage == Stage::CommitInspect && (
            event matches SessionEvent::Inspected(Ok(facts)) && vault::target_failure(facts) is None)
            &&& next.stage == Stage::CommitInspect ==> operating.stage == Stage::Recheck && (
            event matches SessionEvent::Content(Ok(disk)) && digest::sha256_digest(disk@)
                == operating.original_hash)
            &&& next.stage == Stage::Recheck ==> operating.stage == Stage::Reread && (
            event matches SessionEvent::Document(current) && unchanged(
                current,
                operating.version,
                operating.initial,
            ))
            &&& next.stage == Stage::Reread ==> operating.stage == Stage::ReadOutput && (
            event matches SessionEvent::Content(Ok(result)) && bytes::utf8_text(result@) is Some)
            &&& next.stage == Stage::ReadOutput ==> operating.stage == Stage::RunFile && (
            event matches SessionEvent::Ran(Ok(output)) && output.success)
        },
{
}

/// What is handed to `ansible-vault` of a file is exactly what lies on disk, and it
/// is the text that the editor shows.
pub proof fn law_only_saved_files_are_processed(operating: Operating, event: SessionEvent)
    requires
        operating.stage == Stage::PrepareRead,
    ensures
        operating.after(event) matches Ok((next, Doing::StageInput(content))) ==> {
            &&& event matches SessionEvent::Content(Ok(disk)) && content == disk@
            &&& bytes::utf8_text(content) == Some(operating.initial)
            &&& next.original_hash == digest::sha256_digest(content)
        },
{
}

/// A file that begins with the Vault marker is never encrypted again, and a file or
/// a value is only decrypted where its header is valid.
pub proof fn law_headers_decide(
    s: Seq<char>,
    range: Range,
    path: Option<Seq<char>>,
)
    ensures
        target_of(ActionOperation::EncryptFile, s, range, path) is Ok ==> !vault::vault_file(s)
            && !text::starts_with(s, crate::header::VAULT_MARKER@),
        target_of(ActionOperation::DecryptFile, s, range, path) is Ok ==> vault::vault_file(s),
        target_of(ActionOperation::DecryptValue, s, range, path) matches Ok(target) ==> (
        target matches Target::Value(found) && vault::vault_file(found.content)),
{
}

/// Decrypting a value with a damaged header ends with the advice to correct it, and
/// changes nothing.
pub proof fn law_damaged_values_stay_as_they_are(
    operating: Operating,
    settings: Settings,
    found: Found,
)
    requires
        operating.stage == Stage::Settings,
        operating.action == ActionOperation::DecryptValue,
        yaml::found_vault(operating.initial, operating.range) == Ok::<Found, Failure>(found),
        !vault::vault_file(found.content),
    ensures
        operating.after(SessionEvent::Settings(settings, None)) == Err::<
            (Operating, Doing),
            Failure,
        >(Failure::User(INVALID_VALUE_HEADER@)),
{
}

/// A run gets the value to encrypt as its input and never as an argument or a
/// variable. Its arguments are fixed words, the label of the Vault ID, and the paths
/// of files; its variables name the directory in which it may work.
pub proof fn law_runs_get_secrets_as_input(operating: Operating, event: SessionEvent)
    ensures
        operating.after(event) matches Ok((_, Doing::Run(args, variables, input))) ==> {
            let vault_id = operating.settings.vault_id;
            &&& variables == process::environment(operating.work_directory)
            &&& {
                ||| event matches SessionEvent::Password(Ok(path)) && args == vault::encrypt_args(
                    vault_id,
                    path@,
                ) && input == Some(vstd::utf8::encode_utf8(operating.content))
                ||| event matches SessionEvent::Staged(Ok(path)) && args == vault::view_args(
                    vault_id,
                    operating.password,
                    path@,
                ) && input is None
                ||| event matches SessionEvent::Staged(Ok(path)) && args == vault::file_args(
                    operating.operation(),
                    vault_id,
                    operating.password,
                    path@,
                    operating.input,
                ) && input is None
            }
        },
{
}

/// Two operations that differ only in what they keep secret run the same command
/// with the same arguments and the same variables. Where the run has an input, it is
/// the secret value, and nothing else of the run tells the two apart.
pub proof fn law_secrets_reach_a_run_as_input_alone(
    operating: Operating,
    other_text: Seq<char>,
    other_value: Seq<char>,
    event: SessionEvent,
)
    ensures
        operating.after(event) matches Ok((_, Doing::Run(args, variables, input))) ==> {
            let other = Operating { initial: other_text, content: other_value, ..operating };
            &&& other.after(event) matches Ok((_, Doing::Run(other_args, other_variables, other_input)))
            &&& other_args == args
            &&& other_variables == variables
            &&& input == None::<Seq<u8>> ==> other_input == None::<Seq<u8>>
            &&& input is Some ==> input == Some(vstd::utf8::encode_utf8(operating.content))
                && other_input == Some(vstd::utf8::encode_utf8(other_value))
        },
{
}

/// A sentence that stands in the program and says nothing of what a run wrote.
pub open spec fn fixed_sentence(failure: Failure) -> bool {
    ||| failure == Failure::VaultRejected
    ||| failure == Failure::User(vault::UNSUPPORTED@)
    ||| failure == Failure::User(vault::FAILED@)
    ||| failure == Failure::User(vault::INVALID_TEXT@)
    ||| failure == Failure::User(vault::NOT_UTF8_VALUE@)
    ||| failure == Failure::User(writing::INVALID_ENCRYPTED@)
}

/// What a run of `ansible-vault` wrote is never shown: where the operation ends
/// because of it, the user reads one of a few fixed sentences.
pub proof fn law_output_is_never_shown(operating: Operating, output: ProcessOutput)
    requires
        operating.stage == Stage::RunValue || operating.stage == Stage::RunFile,
    ensures
        operating.after(SessionEvent::Ran(Ok(output))) matches Err(failure) ==> fixed_sentence(
            failure,
        ),
{
}

// ---------------------------------------------------------------------------
// Whole operations
// ---------------------------------------------------------------------------

/// The step of an operation that follows an event.
pub open spec fn then_came(before: Outcome, event: SessionEvent) -> Outcome {
    match before {
        Ok((operating, _)) => operating.after(event),
        Err(failure) => Err(failure),
    }
}

/// Whether an operation asks for a piece of work.
pub open spec fn asks(step: Outcome, doing: Doing) -> bool {
    step matches Ok((_, next)) && next == doing
}

/// Whether a run is asked for with the given words, with the directory for Ansible's own
/// files as its only variable, and with the given input.
pub open spec fn runs(
    step: Outcome,
    words: Seq<Seq<char>>,
    work_directory: Seq<char>,
    input: Option<Seq<u8>>,
) -> bool {
    asks(step, Doing::Run(words, seq![("ANSIBLE_LOCAL_TEMP"@, work_directory)], input))
}

/// The words by which a run is told where the password is.
pub open spec fn password_words(vault_id: Option<Seq<char>>, password: Seq<char>) -> Seq<
    Seq<char>,
> {
    match vault_id {
        Some(id) => seq!["--vault-id"@, id + "@"@ + password],
        None => seq!["--vault-password-file"@, password],
    }
}

/// An operation on a file from its first step to its run: the document is looked up, then
/// the settings, the checks are made for the file and its worktree, the password is
/// obtained, the file is looked at and read, its bytes are staged, a place for the result
/// is reserved beside it, and `ansible-vault` is run on the staged bytes.
pub proof fn law_file_operations_reach_their_run(
    action: ActionOperation,
    document: Document,
    range: Range,
    path: Seq<char>,
    directory: Seq<char>,
    roots: Seq<Seq<char>>,
    settings: Settings,
    work: String,
    password: String,
    facts: FileFacts,
    disk: Vec<u8>,
    input: String,
    output: String,
) -> (last: Outcome)
    requires
        action == ActionOperation::EncryptFile || action == ActionOperation::DecryptFile,
        target_of(action, document.text@, range, Some(path)) is Ok,
        paths::parent(path) == Some(directory),
        vault::target_failure(facts) is None,
        disk@ == vstd::utf8::encode_utf8(document.text@),
    ensures
        ({
            let start = session_start(action, document.version, range, Some(path), roots);
            let opened = start.after(SessionEvent::Document(Some(document)));
            let settled = then_came(opened, SessionEvent::Settings(settings, None));
            let checked = then_came(settled, SessionEvent::Checked(Ok(work)));
            let unlocked = then_came(checked, SessionEvent::Password(Ok(password)));
            let seen = then_came(unlocked, SessionEvent::Inspected(Ok(facts)));
            let read = then_came(seen, SessionEvent::Content(Ok(disk)));
            let staged = then_came(read, SessionEvent::Staged(Ok(input)));
            let reserved = then_came(staged, SessionEvent::Staged(Ok(output)));
            let word = if action == ActionOperation::EncryptFile {
                "encrypt"@
            } else {
                "decrypt"@
            };
            &&& asks(opened, Doing::ReadSettings)
            &&& asks(settled, Doing::Preflight(paths::worktree(path, roots), Some(path)))
            &&& asks(checked, Doing::ObtainPassword)
            &&& asks(unlocked, Doing::InspectTarget(path))
            &&& asks(seen, Doing::ReadTarget(path))
            &&& asks(read, Doing::StageInput(disk@))
            &&& asks(staged, Doing::ReserveOutput(directory))
            &&& runs(
                reserved,
                seq![word] + password_words(settings@.vault_id, password@) + seq![
                    "--output"@,
                    output@,
                    input@,
                ],
                work@,
                None,
            )
            &&& last == reserved
            &&& last matches Ok((operating, _)) && operating.stage == Stage::RunFile
                && operating.version == document.version && operating.initial == document.text@
                && operating.path == Some(path) && operating.original_hash
                == digest::sha256_digest(disk@)
        }),
{
    reveal_strlit("@");
    assert("@"@ =~= seq!['@']);
    vault::law_files_are_what_the_editor_shows(disk@, document.text@);
    let start = session_start(action, document.version, range, Some(path), roots);
    let opened = start.after(SessionEvent::Document(Some(document)));
    let settled = then_came(opened, SessionEvent::Settings(settings, None));
    let checked = then_came(settled, SessionEvent::Checked(Ok(work)));
    let unlocked = then_came(checked, SessionEvent::Password(Ok(password)));
    let seen = then_came(unlocked, SessionEvent::Inspected(Ok(facts)));
    let read = then_came(seen, SessionEvent::Content(Ok(disk)));
    let staged = then_came(read, SessionEvent::Staged(Ok(input)));
    let reserved = then_came(staged, SessionEvent::Staged(Ok(output)));
    let word = if action == ActionOperation::EncryptFile {
        "encrypt"@
    } else {
        "decrypt"@
    };
    assert(vault::password_args(settings@.vault_id, password@) =~= password_words(
        settings@.vault_id,
        password@,
    ));
    reserved
}

/// An operation on a file from its run to its end: the result is read, the document and
/// the file are found unchanged, the file is looked at and read once more and only then
/// replaced, and the user is told that the operation is complete where the editor shows
/// the result, and warned where it does not.
pub proof fn law_file_operations_end_with_a_replacement(
    operating: Operating,
    path: Seq<char>,
    output: ProcessOutput,
    result: Vec<u8>,
    document: Document,
    disk: Vec<u8>,
    facts: FileFacts,
    shown: Document,
)
    requires
        operating.stage == Stage::RunFile,
        operating.path == Some(path),
        output.success,
        vstd::utf8::valid_utf8(result@),
        document.version == operating.version,
        document.text@ == operating.initial,
        operating.original_hash == digest::sha256_digest(disk@),
        vault::target_failure(facts) is None,
    ensures
        ({
            let made = operating.after(SessionEvent::Ran(Ok(output)));
            let read = then_came(made, SessionEvent::Content(Ok(result)));
            let same = then_came(read, SessionEvent::Document(Some(document)));
            let again = then_came(same, SessionEvent::Content(Ok(disk)));
            let seen = then_came(again, SessionEvent::Inspected(Ok(facts)));
            let kept = then_came(seen, SessionEvent::Content(Ok(disk)));
            let replaced = then_came(kept, SessionEvent::Replaced(Ok(())));
            let done = Doing::Inform("Ansible Vault file operation completed"@);
            let warned = Doing::Warn(
                "The file was updated on disk, but the Zed buffer has not refreshed yet; reload the file before editing"@,
            );
            &&& asks(made, Doing::ReadOutput)
            &&& asks(read, Doing::ReadDocument)
            &&& asks(same, Doing::ReadTarget(path))
            &&& asks(again, Doing::InspectTarget(path))
            &&& asks(seen, Doing::ReadTarget(path))
            &&& asks(kept, Doing::Replace(path))
            &&& asks(replaced, Doing::AwaitRefresh)
            &&& asks(then_came(replaced, SessionEvent::Document(None)), warned)
            &&& vstd::utf8::encode_utf8(shown.text@) == result@ ==> asks(
                then_came(replaced, SessionEvent::Document(Some(shown))),
                done,
            )
            &&& digest::sha256_digest(vstd::utf8::encode_utf8(shown.text@))
                != digest::sha256_digest(result@) ==> asks(
                then_came(replaced, SessionEvent::Document(Some(shown))),
                warned,
            )
        }),
{
}

/// A value is encrypted with what it says as the input of the run. What the run prints
/// takes the place of the value, and of nothing else, in the version of the document that
/// the operation started from. The value lies from the `i`th to the `j`th character.
pub proof fn law_values_are_encrypted_in_place(
    document: Document,
    range: Range,
    path: Option<Seq<char>>,
    roots: Seq<Seq<char>>,
    settings: Settings,
    work: String,
    password: String,
    found: Found,
    i: int,
    j: int,
    name: Seq<char>,
    lines: Seq<Seq<char>>,
    depth: nat,
    output: ProcessOutput,
)
    requires
        yaml::found_scalar(document.text@, range) == Ok::<Found, Failure>(found),
        0 <= i <= j <= document.text@.len(),
        found.start == text::byte_len(document.text@.take(i)),
        found.end == text::byte_len(document.text@.take(j)),
        !name.contains('\n'),
        !name.contains('\r'),
        lines.len() > 0,
        forall|k: int|
            0 <= k < lines.len() ==> (#[trigger] lines[k]).len() > 0 && !text::white_space(
                lines[k][0],
            ) && !text::white_space(lines[k].last()) && !lines[k].contains('\n')
                && !lines[k].contains('\r'),
        lines[0].len() >= 15,
        lines[0].take(15) == "$ANSIBLE_VAULT;"@,
        output.success,
        output.stdout@ == vstd::utf8::encode_utf8(
            crate::roundtrip::printed(name, lines, depth) + "\n"@,
        ),
    ensures
        ({
            let action = ActionOperation::EncryptValue;
            let start = session_start(action, document.version, range, path, roots);
            let opened = start.after(SessionEvent::Document(Some(document)));
            let settled = then_came(opened, SessionEvent::Settings(settings, None));
            let checked = then_came(settled, SessionEvent::Checked(Ok(work)));
            let unlocked = then_came(checked, SessionEvent::Password(Ok(password)));
            let made = then_came(unlocked, SessionEvent::Ran(Ok(output)));
            let edited = then_came(made, SessionEvent::Document(Some(document)));
            let indent = found.continuation_indent;
            &&& asks(opened, Doing::ReadSettings)
            &&& asks(settled, Doing::Preflight(root_of(path, roots), None))
            &&& asks(checked, Doing::ObtainPassword)
            &&& runs(
                unlocked,
                seq!["encrypt_string"@] + password_words(settings@.vault_id, password@) + seq![
                    "--stdin-name"@,
                    "__zed_vault_value__"@,
                ],
                work@,
                Some(vstd::utf8::encode_utf8(found.content)),
            )
            &&& asks(made, Doing::ReadDocument)
            &&& asks(
                edited,
                Doing::Edit(
                    document::range_at(document.text@, i, j),
                    "!vault |\n"@ + indent + text::join(lines, "\n"@ + indent),
                    document.version,
                ),
            )
        }),
{
    reveal_strlit("@");
    assert("@"@ =~= seq!['@']);
    let s = document.text@;
    let printed = crate::roundtrip::printed(name, lines, depth) + "\n"@;
    crate::roundtrip::law_printed_payloads_are_read(name, lines, depth, "\n"@);
    assert forall|k: int| 0 <= k < lines.len() implies crate::roundtrip::one_visible_line(
        #[trigger] lines[k],
    ) && !text::white_space(lines[k].last()) by {
        text::lemma_trim_empty(lines[k]);
        assert(!text::white_space(lines[k][0]));
    }
    crate::roundtrip::law_payload_lines_are_written_as_they_are(lines, found.continuation_indent);
    vstd::utf8::encode_utf8_decode_utf8(printed);
    vstd::utf8::encode_utf8_valid_utf8(printed);
    document::lemma_chars_before(s, i);
    document::lemma_chars_before(s, j);
    assert(vault::password_args(settings@.vault_id, password@) =~= password_words(
        settings@.vault_id,
        password@,
    ));
}

/// A value is decrypted from a staged file that holds its payload. What the run prints,
/// without the newline that it adds, is written in the place of the value, and of nothing
/// else, in the version of the document that the operation started from.
pub proof fn law_values_are_decrypted_in_place(
    document: Document,
    range: Range,
    path: Option<Seq<char>>,
    roots: Seq<Seq<char>>,
    settings: Settings,
    work: String,
    password: String,
    found: Found,
    i: int,
    j: int,
    input: String,
    value: Seq<char>,
    output: ProcessOutput,
)
    requires
        yaml::found_vault(document.text@, range) == Ok::<Found, Failure>(found),
        vault::vault_file(found.content),
        0 <= i <= j <= document.text@.len(),
        found.start == text::byte_len(document.text@.take(i)),
        found.end == text::byte_len(document.text@.take(j)),
        output.success,
        output.stdout@ == vstd::utf8::encode_utf8(value + "\n"@),
    ensures
        ({
            let action = ActionOperation::DecryptValue;
            let start = session_start(action, document.version, range, path, roots);
            let opened = start.after(SessionEvent::Document(Some(document)));
            let settled = then_came(opened, SessionEvent::Settings(settings, None));
            let checked = then_came(settled, SessionEvent::Checked(Ok(work)));
            let unlocked = then_came(checked, SessionEvent::Password(Ok(password)));
            let staged = then_came(unlocked, SessionEvent::Staged(Ok(input)));
            let made = then_came(staged, SessionEvent::Ran(Ok(output)));
            let edited = then_came(made, SessionEvent::Document(Some(document)));
            &&& asks(settled, Doing::Preflight(root_of(path, roots), None))
            &&& asks(checked, Doing::ObtainPassword)
            &&& asks(unlocked, Doing::StageInput(vstd::utf8::encode_utf8(found.content)))
            &&& runs(
                staged,
                seq!["view"@] + password_words(settings@.vault_id, password@) + seq![input@],
                work@,
                None,
            )
            &&& asks(made, Doing::ReadDocument)
            &&& asks(
                edited,
                Doing::Edit(
                    document::range_at(document.text@, i, j),
                    writing::plaintext_value(value, found.continuation_indent),
                    document.version,
                ),
            )
        }),
{
    reveal_strlit("@");
    reveal_strlit("\n");
    assert("@"@ =~= seq!['@']);
    let s = document.text@;
    let printed = value + "\n"@;
    assert(printed =~= value.push('\n'));
    vault::law_display_end_is_undone(value);
    vstd::utf8::encode_utf8_decode_utf8(printed);
    vstd::utf8::encode_utf8_valid_utf8(printed);
    document::lemma_chars_before(s, i);
    document::lemma_chars_before(s, j);
    assert(vault::password_args(settings@.vault_id, password@) =~= password_words(
        settings@.vault_id,
        password@,
    ));
}

/// What an operation refuses before it begins, and in which words.
pub proof fn law_operations_refuse_what_does_not_fit(
    s: Seq<char>,
    range: Range,
    path: Option<Seq<char>>,
    rest: Seq<char>,
)
    ensures
        target_of(ActionOperation::EncryptFile, "$ANSIBLE_VAULT"@ + rest, range, path) == Err::<
            Target,
            Failure,
        >(Failure::User("The file already has an Ansible Vault header"@)),
        vault::vault_file(s) ==> target_of(ActionOperation::EncryptFile, s, range, path) == Err::<
            Target,
            Failure,
        >(Failure::User("The file already has an Ansible Vault header"@)),
        !vault::vault_file(s) && !(s.len() >= 14 && s.take(14) == "$ANSIBLE_VAULT"@) ==> target_of(
            ActionOperation::EncryptFile,
            s,
            range,
            path,
        ) == match path {
            Some(file) => Ok::<Target, Failure>(Target::File(file)),
            None => Err(Failure::User("This action requires a saved file:// document"@)),
        },
        !vault::vault_file(s) ==> target_of(ActionOperation::DecryptFile, s, range, path) == Err::<
            Target,
            Failure,
        >(Failure::User("The file has no valid Ansible Vault header"@)),
        vault::vault_file(s) ==> target_of(ActionOperation::DecryptFile, s, range, path)
            == match path {
            Some(file) => Ok::<Target, Failure>(Target::File(file)),
            None => Err(Failure::User("This action requires a saved file:// document"@)),
        },
        yaml::found_scalar(s, range) matches Err(failure) ==> target_of(
            ActionOperation::EncryptValue,
            s,
            range,
            path,
        ) == Err::<Target, Failure>(failure),
        yaml::found_vault(s, range) matches Err(failure) ==> target_of(
            ActionOperation::DecryptValue,
            s,
            range,
            path,
        ) == Err::<Target, Failure>(failure),
        yaml::found_vault(s, range) matches Ok(found) ==> target_of(
            ActionOperation::DecryptValue,
            s,
            range,
            path,
        ) == if vault::vault_file(found.content) {
            Ok::<Target, Failure>(Target::Value(found))
        } else {
            Err(
                Failure::User(
                    "The !vault value has an invalid header; expected $ANSIBLE_VAULT;1.1;AES256 or a valid Vault 1.2 header"@,
                ),
            )
        },
{
    reveal_strlit("$ANSIBLE_VAULT");
    let marked = "$ANSIBLE_VAULT"@ + rest;
    assert(marked.take(14) =~= "$ANSIBLE_VAULT"@);
}

/// What ends an operation that has begun, and in which words.
pub proof fn law_operations_tell_why_they_end(
    operating: Operating,
    document: Document,
    settings: Settings,
    message: String,
    reason: String,
    error: AppError,
    output: ProcessOutput,
    bytes: Vec<u8>,
    facts: FileFacts,
)
    ensures
        operating.stage == Stage::Open ==> operating.after(SessionEvent::Document(None)) == Err::<
            (Operating, Doing),
            Failure,
        >(Failure::User("The document is no longer open"@)),
        operating.stage == Stage::Open && document.version != operating.version ==> operating.after(
            SessionEvent::Document(Some(document)),
        ) == Err::<(Operating, Doing), Failure>(Failure::StaleDocument),
        operating.stage == Stage::Settings ==> operating.after(
            SessionEvent::Settings(settings, Some(message)),
        ) == Err::<(Operating, Doing), Failure>(Failure::User(message@)),
        operating.stage == Stage::Preflight ==> operating.after(SessionEvent::Checked(Err(error)))
            == Err::<(Operating, Doing), Failure>(error@),
        operating.stage == Stage::Password ==> operating.after(SessionEvent::Password(Err(error)))
            == Err::<(Operating, Doing), Failure>(error@),
        operating.stage == Stage::StageValue || operating.stage == Stage::StageFile
            || operating.stage == Stage::Reserve ==> operating.after(
            SessionEvent::Staged(Err(error)),
        ) == Err::<(Operating, Doing), Failure>(error@),
        operating.stage == Stage::RunValue || operating.stage == Stage::RunFile ==> operating.after(
            SessionEvent::Ran(Err(error)),
        ) == Err::<(Operating, Doing), Failure>(error@),
        (operating.stage == Stage::RunValue || operating.stage == Stage::RunFile)
            && !output.success ==> (operating.after(SessionEvent::Ran(Ok(output))) matches Err(
            failure,
        ) && vault::run_failure(output@) == Some(failure)),
        operating.stage == Stage::RunValue && output.success && !vstd::utf8::valid_utf8(
            output.stdout@,
        ) ==> operating.after(SessionEvent::Ran(Ok(output))) == Err::<(Operating, Doing), Failure>(
            Failure::User(
                if operating.action == ActionOperation::EncryptValue {
                    "ansible-vault returned invalid text"@
                } else {
                    "The decrypted Vault value is not valid UTF-8"@
                },
            ),
        ),
        operating.stage == Stage::PrepareInspect || operating.stage == Stage::CommitInspect
            ==> operating.after(SessionEvent::Inspected(Err(reason))) == Err::<
            (Operating, Doing),
            Failure,
        >(Failure::Filesystem(reason@)),
        operating.stage == Stage::PrepareInspect || operating.stage == Stage::CommitInspect ==> (
        vault::target_failure(facts) matches Some(failure) ==> operating.after(
            SessionEvent::Inspected(Ok(facts)),
        ) == Err::<(Operating, Doing), Failure>(failure)),
        operating.stage == Stage::PrepareRead || operating.stage == Stage::ReadOutput
            || operating.stage == Stage::Recheck || operating.stage == Stage::CommitRead
            ==> operating.after(SessionEvent::Content(Err(reason))) == Err::<
            (Operating, Doing),
            Failure,
        >(Failure::Filesystem(reason@)),
        operating.stage == Stage::PrepareRead ==> (vault::disk_failure(bytes@, operating.initial)
            matches Some(failure) ==> operating.after(SessionEvent::Content(Ok(bytes))) == Err::<
            (Operating, Doing),
            Failure,
        >(failure)),
        operating.stage == Stage::ReadOutput && !vstd::utf8::valid_utf8(bytes@)
            ==> operating.after(SessionEvent::Content(Ok(bytes))) == Err::<
            (Operating, Doing),
            Failure,
        >(Failure::User("The Vault result is not valid UTF-8"@)),
        (operating.stage == Stage::Recheck || operating.stage == Stage::CommitRead)
            && digest::sha256_digest(bytes@) != operating.original_hash ==> operating.after(
            SessionEvent::Content(Ok(bytes)),
        ) == Err::<(Operating, Doing), Failure>(
            Failure::User(
                "The file changed on disk while the operation was running; retry the action"@,
            ),
        ),
        operating.stage == Stage::Replace ==> operating.after(SessionEvent::Replaced(Err(error)))
            == Err::<(Operating, Doing), Failure>(error@),
{
}

/// A document without a file takes its settings from the first folder, and from the
/// current directory where there is none.
pub proof fn law_unsaved_documents_use_the_first_folder(roots: Seq<Seq<char>>)
    ensures
        root_of(None, roots) == if roots.len() > 0 {
            roots[0]
        } else {
            "."@
        },
{
}

/// What the user reads of an operation that ended: their own words where the user can act,
/// a fixed sentence otherwise, and nothing of what is inside an internal fault.
pub proof fn law_failures_are_told_in_fixed_words(message: Seq<char>)
    ensures
        Failure::User(message).text() == message,
        Failure::Cancelled.text() == "Operation cancelled"@,
        Failure::Timeout.text() == "The operation timed out"@,
        Failure::StaleDocument.text()
            == "The document changed while the operation was running; retry the action"@,
        Failure::VaultRejected.text() == "Ansible Vault rejected the password or encrypted data"@,
        Failure::Filesystem(message).text() == "A filesystem operation failed: "@ + message,
        Failure::Internal(message).text() == "An internal extension error occurred"@,
{
}

/// A document that was closed, has another version or shows another text is neither edited
/// nor is its file replaced: the operation ends with the advice to try again.
pub proof fn law_other_texts_and_versions_end_the_operation(
    operating: Operating,
    document: Document,
)
    requires
        operating.stage == Stage::Attach || operating.stage == Stage::Reread,
    ensures
        ({
            let stale = Err::<(Operating, Doing), Failure>(Failure::StaleDocument);
            &&& operating.after(SessionEvent::Document(None)) == stale
            &&& document.version != operating.version ==> operating.after(
                SessionEvent::Document(Some(document)),
            ) == stale
            &&& document.text@ != operating.initial ==> operating.after(
                SessionEvent::Document(Some(document)),
            ) == stale
        }),
{
}

/// An encryption whose output holds no payload ends with that, and changes nothing.
pub proof fn law_output_without_payload_is_refused(
    operating: Operating,
    output: ProcessOutput,
    printed: Seq<char>,
)
    requires
        operating.stage == Stage::RunValue,
        operating.action == ActionOperation::EncryptValue,
        output.success,
        output.stdout@ == vstd::utf8::encode_utf8(printed),
        forall|at: int|
            0 <= at <= printed.len() - 8 ==> #[trigger] printed.subrange(at, at + 8) != "!vault |"@,
    ensures
        operating.after(SessionEvent::Ran(Ok(output))) == Err::<(Operating, Doing), Failure>(
            Failure::User("ansible-vault returned an invalid encrypted value"@),
        ),
{
    crate::roundtrip::law_output_without_tag_is_refused(printed);
    vstd::utf8::encode_utf8_decode_utf8(printed);
    vstd::utf8::encode_utf8_valid_utf8(printed);
}

} // verus!
