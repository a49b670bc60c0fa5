//! The installation of the language server, step by step.
//!
//! `Installation` names the next piece of work, is told what came of it, and ends
//! with the path of a server whose digest was checked, or with a reason.
use crate::extension;
use crate::extension::Architecture;
use crate::extension::Os;
use crate::extension::ReleaseAsset;
use crate::paths;
use vstd::prelude::*;

verus! {

/// What is to be done next.
#[derive(Clone, Debug)]
pub enum InstallAction {
    /// Check the server in this directory against its checksum file.
    VerifyInstalled(String),
    /// Ask for the release with this tag.
    FetchRelease(String),
    /// Remove what an earlier download left in this directory, if it is there.
    RemoveStale(String),
    /// Make this directory.
    CreateStaging(String),
    /// Download from the address to the path.
    Download(String, String),
    /// Check the server at the first path against the checksum file at the second.
    VerifyStaged(String, String),
    /// Allow the file to be run.
    MakeExecutable(String),
    /// Remove this installation, if it is there.
    RemoveInstalled(String),
    /// Move the first directory to the second.
    Activate(String, String),
    /// Remove this directory; whether that works does not matter.
    CleanUp(String),
    /// Ask for the current directory.
    CurrentDirectory,
    /// Use the server at this path; the installation is done.
    Use(String),
}

/// An action as contracts speak of it.
pub enum Installing {
    VerifyInstalled(Seq<char>),
    FetchRelease(Seq<char>),
    RemoveStale(Seq<char>),
    CreateStaging(Seq<char>),
    Download(Seq<char>, Seq<char>),
    VerifyStaged(Seq<char>, Seq<char>),
    MakeExecutable(Seq<char>),
    RemoveInstalled(Seq<char>),
    Activate(Seq<char>, Seq<char>),
    CleanUp(Seq<char>),
    CurrentDirectory,
    Use(Seq<char>),
}

impl View for InstallAction {
    type V = Installing;

    open spec fn view(&self) -> Installing {
        match *self {
            InstallAction::VerifyInstalled(directory) => Installing::VerifyInstalled(directory@),
            InstallAction::FetchRelease(tag) => Installing::FetchRelease(tag@),
            InstallAction::RemoveStale(directory) => Installing::RemoveStale(directory@),
            InstallAction::CreateStaging(directory) => Installing::CreateStaging(directory@),
            InstallAction::Download(address, path) => Installing::Download(address@, path@),
            InstallAction::VerifyStaged(binary, checksum) => Installing::VerifyStaged(
                binary@,
                checksum@,
            ),
            InstallAction::MakeExecutable(path) => Installing::MakeExecutable(path@),
            InstallAction::RemoveInstalled(directory) => Installing::RemoveInstalled(directory@),
            InstallAction::Activate(from, to) => Installing::Activate(from@, to@),
            InstallAction::CleanUp(directory) => Installing::CleanUp(directory@),
            InstallAction::CurrentDirectory => Installing::CurrentDirectory,
            InstallAction::Use(path) => Installing::Use(path@),
        }
    }
}

/// What came of an action.
#[derive(Debug)]
pub enum InstallEvent {
    /// Whether the server in a directory is the one that its checksum file names.
    Verified(bool),
    /// The version and the files of a release.
    Release(Result<(String, Vec<ReleaseAsset>), String>),
    /// Whether it was done, or why not.
    Done(Result<(), String>),
    /// The current directory.
    Directory(Result<String, String>),
}

/// An event as contracts speak of it.
pub enum Installed {
    Verified(bool),
    Release(Result<(Seq<char>, Seq<(Seq<char>, Seq<char>)>), Seq<char>>),
    Done(Result<(), Seq<char>>),
    Directory(Result<Seq<char>, Seq<char>>),
}

impl View for InstallEvent {
    type V = Installed;

    open spec fn view(&self) -> Installed {
        match *self {
            InstallEvent::Verified(right) => Installed::Verified(right),
            InstallEvent::Release(Ok((version, assets))) => Installed::Release(
                Ok((version@, extension::files(assets@))),
            ),
            InstallEvent::Release(Err(reason)) => Installed::Release(Err(reason@)),
            InstallEvent::Done(Ok(_)) => Installed::Done(Ok(())),
            InstallEvent::Done(Err(reason)) => Installed::Done(Err(reason@)),
            InstallEvent::Directory(Ok(directory)) => Installed::Directory(Ok(directory@)),
            InstallEvent::Directory(Err(reason)) => Installed::Directory(Err(reason@)),
        }
    }
}

/// Which answer is awaited.
#[derive(Clone, Copy, Debug, PartialEq, Eq, Structural)]
pub enum Step {
    VerifyCached,
    FetchRelease,
    VerifyInstalled,
    AllowInstalled,
    RemoveStale,
    CreateStaging,
    DownloadBinary,
    DownloadChecksum,
    VerifyStaged,
    AllowStaged,
    RemoveInstalled,
    Activate,
    CleanUp,
    CurrentDirectory,
    Over,
}

/// Where the installation stands.
#[derive(Debug)]
pub struct Installation {
    step: Step,
    os: Os,
    architecture: Architecture,
    /// The path of the server that was used last, as long as it can be used.
    cached: Option<String>,
    /// The addresses of the server and of its checksum file.
    binary_url: String,
    checksum_url: String,
    /// Why the download failed, once it has.
    reason: String,
}

/// Where the installation stands, as contracts speak of it.
pub struct Progress {
    pub step: Step,
    pub os: Os,
    pub architecture: Architecture,
    pub cached: Option<Seq<char>>,
    pub binary_url: Seq<char>,
    pub checksum_url: Seq<char>,
    pub reason: Seq<char>,
}

impl View for Installation {
    type V = Progress;

    closed spec fn view(&self) -> Progress {
        Progress {
            step: self.step,
            os: self.os,
            architecture: self.architecture,
            cached: match self.cached {
                Some(path) => Some(path@),
                None => None,
            },
            binary_url: self.binary_url@,
            checksum_url: self.checksum_url@,
            reason: self.reason@,
        }
    }
}

/// Where the installation stands next and what is to be done, or why it fails.
pub type Outcome = (Progress, Result<Installing, Seq<char>>);

/// The directory in which a new installation is prepared.
pub open spec fn staging() -> Seq<char> {
    extension::install_path() + ".staging"@
}

/// Whether a path is that of the server in its directory.
pub open spec fn names_a_server(path: Seq<char>) -> bool {
    match paths::parent(path) {
        Some(directory) => paths::equal_places(extension::binary_in(directory), path),
        None => false,
    }
}

impl Progress {
    pub open spec fn at(self, step: Step, action: Installing) -> Outcome {
        (Progress { step, ..self }, Ok(action))
    }

    pub open spec fn fails(self, reason: Seq<char>) -> Outcome {
        (Progress { step: Step::Over, ..self }, Err(reason))
    }

    /// A download that failed is removed before the reason is given.
    pub open spec fn cleans_up(self, reason: Seq<char>) -> Outcome {
        (Progress { step: Step::CleanUp, reason, ..self }, Ok(Installing::CleanUp(staging())))
    }

    /// Asks for the release; from here on no earlier server is used.
    pub open spec fn asks_release(self) -> Outcome {
        let fresh = Progress { cached: None, ..self };
        match extension::asset_name(self.os, self.architecture) {
            Err(reason) => fresh.fails(reason),
            Ok(_) => fresh.at(Step::FetchRelease, Installing::FetchRelease(extension::tag())),
        }
    }

    /// What follows when a step of the download was done or not.
    pub open spec fn after_done(self, done: Result<(), Seq<char>>) -> Outcome {
        let installed = extension::install_path();
        match (self.step, done) {
            (Step::AllowInstalled, Err(reason)) => self.fails(reason),
            (Step::AllowInstalled, Ok(_)) => self.at(
                Step::CurrentDirectory,
                Installing::CurrentDirectory,
            ),
            (Step::RemoveStale, Err(reason)) => self.fails(
                "failed to remove stale server download: "@ + reason,
            ),
            (Step::RemoveStale, Ok(_)) => self.at(
                Step::CreateStaging,
                Installing::CreateStaging(staging()),
            ),
            (Step::CreateStaging, Err(reason)) => self.fails(
                "failed to create server staging directory: "@ + reason,
            ),
            (Step::CreateStaging, Ok(_)) => self.at(
                Step::DownloadBinary,
                Installing::Download(self.binary_url, extension::binary_in(staging())),
            ),
            (Step::DownloadBinary, Err(reason)) => self.cleans_up(reason),
            (Step::DownloadBinary, Ok(_)) => self.at(
                Step::DownloadChecksum,
                Installing::Download(self.checksum_url, extension::checksum_in(staging())),
            ),
            (Step::DownloadChecksum, Err(reason)) => self.cleans_up(reason),
            (Step::DownloadChecksum, Ok(_)) => self.at(
                Step::VerifyStaged,
                Installing::VerifyStaged(
                    extension::binary_in(staging()),
                    extension::checksum_in(staging()),
                ),
            ),
            (Step::VerifyStaged, Err(reason)) => self.cleans_up(reason),
            (Step::VerifyStaged, Ok(_)) => self.at(
                Step::AllowStaged,
                Installing::MakeExecutable(extension::binary_in(staging())),
            ),
            (Step::AllowStaged, Err(reason)) => self.cleans_up(reason),
            (Step::AllowStaged, Ok(_)) => self.at(
                Step::RemoveInstalled,
                Installing::RemoveInstalled(installed),
            ),
            (Step::RemoveInstalled, Err(reason)) => self.cleans_up(
                "failed to replace invalid server installation: "@ + reason,
            ),
            (Step::RemoveInstalled, Ok(_)) => self.at(
                Step::Activate,
                Installing::Activate(staging(), installed),
            ),
            (Step::Activate, Err(reason)) => self.cleans_up(
                "failed to activate language server: "@ + reason,
            ),
            (Step::Activate, Ok(_)) => self.at(
                Step::CurrentDirectory,
                Installing::CurrentDirectory,
            ),
            (Step::CleanUp, _) => self.fails(self.reason),
            _ => self.fails(extension::UNEXPECTED@),
        }
    }

    /// What follows an event.
    pub open spec fn after(self, event: Installed) -> Outcome {
        let installed = extension::install_path();
        match (self.step, event) {
            (Step::VerifyCached, Installed::Verified(right)) => match self.cached {
                Some(path) => if right {
                    self.at(Step::Over, Installing::Use(path))
                } else {
                    self.asks_release()
                },
                None => self.asks_release(),
            },
            (Step::FetchRelease, Installed::Release(Err(reason))) => self.fails(reason),
            (
                Step::FetchRelease,
                Installed::Release(Ok((version, files))),
            ) => match extension::asset_name(self.os, self.architecture) {
                Err(reason) => self.fails(reason),
                Ok(asset) => match extension::release_files(version, files, asset) {
                    Err(reason) => self.fails(reason),
                    Ok((binary, checksum)) => (
                        Progress {
                            step: Step::VerifyInstalled,
                            binary_url: binary,
                            checksum_url: checksum,
                            ..self
                        },
                        Ok(Installing::VerifyInstalled(installed)),
                    ),
                },
            },
            (Step::VerifyInstalled, Installed::Verified(true)) => self.at(
                Step::AllowInstalled,
                Installing::MakeExecutable(extension::binary_in(installed)),
            ),
            (Step::VerifyInstalled, Installed::Verified(false)) => self.at(
                Step::RemoveStale,
                Installing::RemoveStale(staging()),
            ),
            (Step::CurrentDirectory, Installed::Directory(Err(reason))) => self.fails(
                "failed to resolve extension directory: "@ + reason,
            ),
            (Step::CurrentDirectory, Installed::Directory(Ok(directory))) => {
                let path = paths::joined_path(directory, extension::binary_in(installed));
                (
                    Progress { step: Step::Over, cached: Some(path), ..self },
                    Ok(Installing::Use(path)),
                )
            },
            (_, Installed::Done(done)) => self.after_done(done),
            _ => self.fails(extension::UNEXPECTED@),
        }
    }
}

/// How the installation begins: a server that was used before is checked again.
pub open spec fn install_start(
    cached: Option<Seq<char>>,
    os: Os,
    architecture: Architecture,
) -> Outcome {
    let progress = Progress {
        step: Step::VerifyCached,
        os,
        architecture,
        cached,
        binary_url: Seq::empty(),
        checksum_url: Seq::empty(),
        reason: Seq::empty(),
    };
    match cached {
        Some(path) => if names_a_server(path) {
            (progress, Ok(Installing::VerifyInstalled(paths::parent(path)->0)))
        } else {
            progress.asks_release()
        },
        None => progress.asks_release(),
    }
}

/// Whether a step was made as a specification says.
pub open spec fn stepped(
    result: Result<InstallAction, String>,
    state: Progress,
    wanted: Outcome,
) -> bool {
    &&& state == wanted.0
    &&& match (result, wanted.1) {
        (Ok(action), Ok(acting)) => action@ == acting,
        (Err(reason), Err(expected)) => reason@ == expected,
        _ => false,
    }
}

fn reason_behind(what: &str, reason: &str) -> (r: String)
    ensures
        r@ == what@ + reason@,
{
    let mut out = what.to_string();
    out.append(reason);
    out
}

impl Installation {
    /// Begins the installation. `cached` is the path of the server that was used
    /// last.
    pub fn install_server(cached: Option<String>, os: Os, architecture: Architecture) -> (r: (
        Installation,
        Result<InstallAction, String>,
    ))
        ensures
            stepped(
                r.1,
                r.0@,
                install_start(
                    match cached {
                        Some(path) => Some(path@),
                        None => None,
                    },
                    os,
                    architecture,
                ),
            ),
    {
        let empty = String::new();
        proof {
            assert(empty@ =~= Seq::<char>::empty());
        }
        let mut installation = Installation {
            step: Step::VerifyCached,
            os,
            architecture,
            cached,
            binary_url: empty.clone(),
            checksum_url: empty.clone(),
            reason: empty,
        };
        let directory = match &installation.cached {
            Some(path) => match paths::parent_of(path.as_str()) {
                Some(directory) => {
                    let binary = extension::installed_paths(directory.as_str()).0;
                    if paths::same_place(binary.as_str(), path.as_str()) {
                        Some(directory)
                    } else {
                        None
                    }
                },
                None => None,
            },
            None => None,
        };
        match directory {
            Some(directory) => (installation, Ok(InstallAction::VerifyInstalled(directory))),
            None => {
                let first = installation.asks_release();
                (installation, first)
            },
        }
    }

    /// The path of a server that can be used again.
    pub fn cached_server_path(&self) -> (r: Option<String>)
        ensures
            match r {
                Some(path) => self@.cached == Some(path@),
                None => self@.cached is None,
            },
    {
        match &self.cached {
            Some(path) => Some(path.clone()),
            None => None,
        }
    }

    fn asks_release(&mut self) -> (r: Result<InstallAction, String>)
        ensures
            stepped(r, final(self)@, old(self)@.asks_release()),
    {
        self.cached = None;
        match extension::asset_name_for(self.os, self.architecture) {
            Err(reason) => {
                self.step = Step::Over;
                Err(reason)
            },
            Ok(_) => {
                self.step = Step::FetchRelease;
                Ok(InstallAction::FetchRelease(extension::release_tag()))
            },
        }
    }

    fn cleans_up(&mut self, reason: String) -> (r: Result<InstallAction, String>)
        ensures
            stepped(r, final(self)@, old(self)@.cleans_up(reason@)),
    {
        self.step = Step::CleanUp;
        self.reason = reason;
        Ok(InstallAction::CleanUp(staging_directory()))
    }

    fn at(&mut self, step: Step, action: InstallAction) -> (r: Result<InstallAction, String>)
        ensures
            stepped(r, final(self)@, old(self)@.at(step, action@)),
    {
        self.step = step;
        Ok(action)
    }

    fn fails(&mut self, reason: String) -> (r: Result<InstallAction, String>)
        ensures
            stepped(r, final(self)@, old(self)@.fails(reason@)),
    {
        self.step = Step::Over;
        Err(reason)
    }

    fn after_done(&mut self, done: Result<(), String>) -> (r: Result<InstallAction, String>)
        ensures
            stepped(
                r,
                final(self)@,
                old(self)@.after_done(
                    match done {
                        Ok(_) => Ok(()),
                        Err(reason) => Err(reason@),
                    },
                ),
            ),
    {
        let installed = extension::install_directory();
        let staging = staging_directory();
        let (staged_binary, staged_checksum) = extension::installed_paths(staging.as_str());
        match (self.step, done) {
            (Step::AllowInstalled, Err(reason)) => self.fails(reason),
            (Step::AllowInstalled, Ok(_)) => self.at(
                Step::CurrentDirectory,
                InstallAction::CurrentDirectory,
            ),
            (Step::RemoveStale, Err(reason)) => self.fails(
                reason_behind("failed to remove stale server download: ", reason.as_str()),
            ),
            (Step::RemoveStale, Ok(_)) => self.at(
                Step::CreateStaging,
                InstallAction::CreateStaging(staging),
            ),
            (Step::CreateStaging, Err(reason)) => self.fails(
                reason_behind("failed to create server staging directory: ", reason.as_str()),
            ),
            (Step::CreateStaging, Ok(_)) => {
                let address = self.binary_url.clone();
                self.at(Step::DownloadBinary, InstallAction::Download(address, staged_binary))
            },
            (Step::DownloadBinary, Err(reason)) => self.cleans_up(reason),
            (Step::DownloadBinary, Ok(_)) => {
                let address = self.checksum_url.clone();
                self.at(Step::DownloadChecksum, InstallAction::Download(address, staged_checksum))
            },
            (Step::DownloadChecksum, Err(reason)) => self.cleans_up(reason),
            (Step::DownloadChecksum, Ok(_)) => self.at(
                Step::VerifyStaged,
                InstallAction::VerifyStaged(staged_binary, staged_checksum),
            ),
            (Step::VerifyStaged, Err(reason)) => self.cleans_up(reason),
            (Step::VerifyStaged, Ok(_)) => self.at(
                Step::AllowStaged,
                InstallAction::MakeExecutable(staged_binary),
            ),
            (Step::AllowStaged, Err(reason)) => self.cleans_up(reason),
            (Step::AllowStaged, Ok(_)) => self.at(
                Step::RemoveInstalled,
                InstallAction::RemoveInstalled(installed),
            ),
            (Step::RemoveInstalled, Err(reason)) => self.cleans_up(
                reason_behind("failed to replace invalid server installation: ", reason.as_str()),
            ),
            (Step::RemoveInstalled, Ok(_)) => self.at(
                Step::Activate,
                InstallAction::Activate(staging, installed),
            ),
            (Step::Activate, Err(reason)) => self.cleans_up(
                reason_behind("failed to activate language server: ", reason.as_str()),
            ),
            (Step::Activate, Ok(_)) => self.at(
                Step::CurrentDirectory,
                InstallAction::CurrentDirectory,
            ),
            (Step::CleanUp, _) => {
                let reason = self.reason.clone();
                self.fails(reason)
            },
            _ => self.fails(extension::UNEXPECTED.to_string()),
        }
    }

    /// What to do after an event, or why the installation fails.
    pub fn next(&mut self, event: InstallEvent) -> (r: Result<InstallAction, String>)
        ensures
            stepped(r, final(self)@, old(self)@.after(event@)),
    {
        let installed = extension::install_directory();
        match (self.step, event) {
            (Step::VerifyCached, InstallEvent::Verified(right)) => {
                let path = match &self.cached {
                    Some(path) => if right {
                        Some(path.clone())
                    } else {
                        None
                    },
                    None => None,
                };
                match path {
                    Some(path) => self.at(Step::Over, InstallAction::Use(path)),
                    None => self.asks_release(),
                }
            },
            (Step::FetchRelease, InstallEvent::Release(Err(reason))) => self.fails(reason),
            (Step::FetchRelease, InstallEvent::Release(Ok((version, assets)))) => {
                match extension::asset_name_for(self.os, self.architecture) {
                    Err(reason) => self.fails(reason),
                    Ok(asset) => match extension::choose_assets(
                        version.as_str(),
                        &assets,
                        asset.as_str(),
                    ) {
                        Err(reason) => self.fails(reason),
                        Ok((binary, checksum)) => {
                            self.binary_url = binary;
                            self.checksum_url = checksum;
                            self.at(
                                Step::VerifyInstalled,
                                InstallAction::VerifyInstalled(installed),
                            )
                        },
                    },
                }
            },
            (Step::VerifyInstalled, InstallEvent::Verified(true)) => {
                let binary = extension::installed_paths(installed.as_str()).0;
                self.at(Step::AllowInstalled, InstallAction::MakeExecutable(binary))
            },
            (Step::VerifyInstalled, InstallEvent::Verified(false)) => self.at(
                Step::RemoveStale,
                InstallAction::RemoveStale(staging_directory()),
            ),
            (Step::CurrentDirectory, InstallEvent::Directory(Err(reason))) => self.fails(
                reason_behind("failed to resolve extension directory: ", reason.as_str()),
            ),
            (Step::CurrentDirectory, InstallEvent::Directory(Ok(directory))) => {
                let binary = extension::installed_paths(installed.as_str()).0;
                let path = paths::join_path(directory.as_str(), binary.as_str());
                self.cached = Some(path.clone());
                self.at(Step::Over, InstallAction::Use(path))
            },
            (_, InstallEvent::Done(done)) => self.after_done(done),
            _ => self.fails(extension::UNEXPECTED.to_string()),
        }
    }
}

fn staging_directory() -> (r: String)
    ensures
        r@ == staging(),
{
    extension::staging_path(extension::install_directory().as_str())
}

// ---------------------------------------------------------------------------
// Laws
// ---------------------------------------------------------------------------

/// A server is only used once its digest was found right: the cached one at once,
/// and the installed one at the end of steps that begin with a right digest.
pub proof fn law_only_verified_servers_are_used(progress: Progress, event: Installed)
    ensures
        progress.after(event).1 matches Ok(Installing::Use(path)) ==> {
            ||| progress.step == Step::VerifyCached && event == Installed::Verified(true)
                && progress.cached == Some(path)
            ||| progress.step == Step::CurrentDirectory && (event matches Installed::Directory(
                Ok(directory),
            ) && path == paths::joined_path(
                directory,
                extension::binary_in(extension::install_path()),
            ))
        },
        progress.after(event).0.step == Step::CurrentDirectory ==> {
            ||| progress.step == Step::AllowInstalled
            ||| progress.step == Step::Activate
        },
        progress.after(event).0.step == Step::AllowInstalled ==> progress.step
            == Step::VerifyInstalled && event == Installed::Verified(true),
        progress.after(event).0.step == Step::Activate ==> progress.step == Step::RemoveInstalled,
        progress.after(event).0.step == Step::RemoveInstalled ==> progress.step
            == Step::AllowStaged,
        progress.after(event).0.step == Step::AllowStaged ==> progress.step == Step::VerifyStaged
            && (event matches Installed::Done(done) && done is Ok),
{
}

/// A download that fails anywhere is removed, and then the installation ends with
/// the reason.
pub proof fn law_failed_downloads_are_removed(progress: Progress, reason: Seq<char>)
    requires
        progress.step == Step::DownloadBinary || progress.step == Step::DownloadChecksum
            || progress.step == Step::VerifyStaged || progress.step == Step::AllowStaged
            || progress.step == Step::RemoveInstalled || progress.step == Step::Activate,
    ensures
        ({
            let (next, action) = progress.after(Installed::Done(Err(reason)));
            &&& action == Ok::<Installing, Seq<char>>(Installing::CleanUp(staging()))
            &&& forall|event: Installed|
                (event matches Installed::Done(_)) ==> (#[trigger] next.after(event)).1 == Err::<
                    Installing,
                    Seq<char>,
                >(next.reason)
        }),
{
}

/// The release that is asked for is the one that belongs to this version, and no
/// address is taken from another.
pub proof fn law_release_is_pinned(
    progress: Progress,
    version: Seq<char>,
    files: Seq<(Seq<char>, Seq<char>)>,
)
    requires
        progress.step == Step::FetchRelease,
        version != extension::tag(),
        version != extension::EXTENSION_VERSION@,
    ensures
        progress.after(Installed::Release(Ok((version, files)))).1 is Err,
{
}

// ---------------------------------------------------------------------------
// A whole installation
// ---------------------------------------------------------------------------

/// Whether the installation goes on with an action.
pub open spec fn does(step: Outcome, action: Installing) -> bool {
    step.1 == Ok::<Installing, Seq<char>>(action)
}

/// Whether the installation fails for a reason.
pub open spec fn gives_up(step: Outcome, reason: Seq<char>) -> bool {
    step.1 == Err::<Installing, Seq<char>>(reason)
}

proof fn lemma_places()
    ensures
        extension::install_path() == "ansible-vault-lsp-0.2.0"@,
        staging() == "ansible-vault-lsp-0.2.0.staging"@,
        extension::tag() == "v0.2.0"@,
        extension::binary_in(extension::install_path())
            == "ansible-vault-lsp-0.2.0/ansible-vault-lsp"@,
        extension::binary_in(staging()) == "ansible-vault-lsp-0.2.0.staging/ansible-vault-lsp"@,
        extension::checksum_in(staging())
            == "ansible-vault-lsp-0.2.0.staging/ansible-vault-lsp.sha256"@,
{
    reveal_strlit("ansible-vault-lsp");
    reveal_strlit("-");
    reveal_strlit("v");
    reveal_strlit("0.2.0");
    reveal_strlit("v0.2.0");
    reveal_strlit(".staging");
    reveal_strlit(".sha256");
    reveal_strlit("ansible-vault-lsp-0.2.0");
    reveal_strlit("ansible-vault-lsp-0.2.0.staging");
    reveal_strlit("ansible-vault-lsp-0.2.0/ansible-vault-lsp");
    reveal_strlit("ansible-vault-lsp-0.2.0.staging/ansible-vault-lsp");
    reveal_strlit("ansible-vault-lsp-0.2.0.staging/ansible-vault-lsp.sha256");
    assert(extension::install_path() =~= "ansible-vault-lsp-0.2.0"@);
    assert(staging() =~= "ansible-vault-lsp-0.2.0.staging"@);
    assert(extension::tag() =~= "v0.2.0"@);
    assert(extension::binary_in(extension::install_path())
        =~= "ansible-vault-lsp-0.2.0/ansible-vault-lsp"@);
    assert(extension::binary_in(staging()) =~= "ansible-vault-lsp-0.2.0.staging/ansible-vault-lsp"@);
    assert(extension::checksum_in(staging())
        =~= "ansible-vault-lsp-0.2.0.staging/ansible-vault-lsp.sha256"@);
}

proof fn lemma_address(files: Seq<(Seq<char>, Seq<char>)>, name: Seq<char>, i: int, k: int)
    requires
        0 <= i <= k < files.len(),
        files[k].0 == name,
        forall|j: int| i <= j < k ==> (#[trigger] files[j]).0 != name,
    ensures
        extension::address_of(files, name, i) == Some(files[k].1),
    decreases k - i,
{
    if i < k {
        assert(files[i].0 != name);
        lemma_address(files, name, i + 1, k);
    }
}

/// A first installation, where nothing goes wrong: the release of this version is asked
/// for, and what is installed already is checked. Where that is not the right server, what
/// an earlier download left is removed, the server and its checksum file are downloaded
/// beside the place where they will stand, checked and made executable, and only then they
/// take the place of what was there. `a` and `b` are the places of the two files in the
/// release.
pub proof fn law_servers_are_downloaded_checked_and_then_put_in_place(
    os: Os,
    architecture: Architecture,
    asset: Seq<char>,
    version: Seq<char>,
    files: Seq<(Seq<char>, Seq<char>)>,
    a: int,
    b: int,
    directory: Seq<char>,
)
    requires
        extension::asset_name(os, architecture) == Ok::<Seq<char>, Seq<char>>(asset),
        version == "v0.2.0"@ || version == "0.2.0"@,
        0 <= a < files.len(),
        0 <= b < files.len(),
        files[a].0 == asset,
        files[b].0 == asset + ".sha256"@,
        forall|j: int| 0 <= j < a ==> (#[trigger] files[j]).0 != asset,
        forall|j: int| 0 <= j < b ==> (#[trigger] files[j]).0 != asset + ".sha256"@,
        directory.len() > 0,
        directory.last() != '/',
    ensures
        ({
            let done = Installed::Done(Ok(()));
            let start = install_start(None, os, architecture);
            let fetched = start.0.after(Installed::Release(Ok((version, files))));
            let stale = fetched.0.after(Installed::Verified(false));
            let staged = stale.0.after(done);
            let binary = staged.0.after(done);
            let checksum = binary.0.after(done);
            let verify = checksum.0.after(done);
            let allow = verify.0.after(done);
            let remove = allow.0.after(done);
            let activate = remove.0.after(done);
            let place = activate.0.after(done);
            let used = place.0.after(Installed::Directory(Ok(directory)));
            let allowed = fetched.0.after(Installed::Verified(true));
            let kept = allowed.0.after(done);
            let home = "ansible-vault-lsp-0.2.0"@;
            let aside = "ansible-vault-lsp-0.2.0.staging"@;
            let server = "ansible-vault-lsp-0.2.0.staging/ansible-vault-lsp"@;
            let sum = "ansible-vault-lsp-0.2.0.staging/ansible-vault-lsp.sha256"@;
            &&& does(start, Installing::FetchRelease("v0.2.0"@))
            &&& does(fetched, Installing::VerifyInstalled(home))
            &&& does(stale, Installing::RemoveStale(aside))
            &&& does(staged, Installing::CreateStaging(aside))
            &&& does(binary, Installing::Download(files[a].1, server))
            &&& does(checksum, Installing::Download(files[b].1, sum))
            &&& does(verify, Installing::VerifyStaged(server, sum))
            &&& does(allow, Installing::MakeExecutable(server))
            &&& does(remove, Installing::RemoveInstalled(home))
            &&& does(activate, Installing::Activate(aside, home))
            &&& does(place, Installing::CurrentDirectory)
            &&& does(
                used,
                Installing::Use(
                    directory + "/"@ + "ansible-vault-lsp-0.2.0/ansible-vault-lsp"@,
                ),
            )
            &&& used.0.cached == Some(
                directory + "/"@ + "ansible-vault-lsp-0.2.0/ansible-vault-lsp"@,
            )
            &&& does(
                allowed,
                Installing::MakeExecutable("ansible-vault-lsp-0.2.0/ansible-vault-lsp"@),
            )
            &&& does(kept, Installing::CurrentDirectory)
        }),
{
    lemma_places();
    lemma_address(files, asset, 0, a);
    lemma_address(files, asset + ".sha256"@, 0, b);
    reveal_strlit("/");
    assert("/"@ =~= seq!['/']);
    reveal_strlit("ansible-vault-lsp-0.2.0/ansible-vault-lsp");
}

/// A server that was used before is checked where it lies, and used again where it is still
/// right. Otherwise the release is asked for, as it is where there is no such server.
pub proof fn law_known_servers_are_checked_again(
    os: Os,
    architecture: Architecture,
    front: Seq<char>,
    directory: Seq<char>,
)
    requires
        extension::asset_name(os, architecture) is Ok,
        front.len() > 0,
        front[0] == '/',
        front.last() == '/',
        paths::plain_name(directory),
    ensures
        ({
            let path = front + directory + "/"@ + "ansible-vault-lsp"@;
            let start = install_start(Some(path), os, architecture);
            &&& does(start, Installing::VerifyInstalled(front + directory))
            &&& does(start.0.after(Installed::Verified(true)), Installing::Use(path))
            &&& does(
                start.0.after(Installed::Verified(false)),
                Installing::FetchRelease("v0.2.0"@),
            )
            &&& start.0.after(Installed::Verified(false)).0.cached is None
        }),
{
    lemma_places();
    reveal_strlit("/");
    reveal_strlit(".");
    reveal_strlit("ansible-vault-lsp");
    assert("/"@ =~= seq!['/']);
    let name = "ansible-vault-lsp"@;
    assert(name[0] == 'a' && "."@[0] == '.');
    paths::law_files_lie_in_their_parents(front, directory, name);
    assert((front + directory).last() == directory.last());
    assert(directory.contains(directory[directory.len() - 1]));
    assert(extension::binary_in(front + directory) =~= front + directory + "/"@ + name);
}

/// What an installation gives up for, and in which words.
pub proof fn law_installations_tell_why_they_fail(
    progress: Progress,
    reason: Seq<char>,
    os: Os,
    architecture: Architecture,
)
    ensures
        extension::asset_name(os, architecture) matches Err(refused) ==> gives_up(
            install_start(None, os, architecture),
            refused,
        ),
        progress.step == Step::FetchRelease ==> gives_up(
            progress.after(Installed::Release(Err(reason))),
            reason,
        ),
        progress.step == Step::AllowInstalled ==> gives_up(
            progress.after(Installed::Done(Err(reason))),
            reason,
        ),
        progress.step == Step::RemoveStale ==> gives_up(
            progress.after(Installed::Done(Err(reason))),
            "failed to remove stale server download: "@ + reason,
        ),
        progress.step == Step::CreateStaging ==> gives_up(
            progress.after(Installed::Done(Err(reason))),
            "failed to create server staging directory: "@ + reason,
        ),
        progress.step == Step::CurrentDirectory ==> gives_up(
            progress.after(Installed::Directory(Err(reason))),
            "failed to resolve extension directory: "@ + reason,
        ),
        ({
            let failed = progress.after(Installed::Done(Err(reason)));
            let told = if progress.step == Step::RemoveInstalled {
                "failed to replace invalid server installation: "@ + reason
            } else if progress.step == Step::Activate {
                "failed to activate language server: "@ + reason
            } else {
                reason
            };
            progress.step == Step::DownloadBinary || progress.step == Step::DownloadChecksum
                || progress.step == Step::VerifyStaged || progress.step == Step::AllowStaged
                || progress.step == Step::RemoveInstalled || progress.step == Step::Activate ==> {
                &&& does(failed, Installing::CleanUp("ansible-vault-lsp-0.2.0.staging"@))
                &&& gives_up(failed.0.after(Installed::Done(Ok(()))), told)
                &&& gives_up(failed.0.after(Installed::Done(Err(""@))), told)
            }
        }),
{
    lemma_places();
}

/// A known server is recognised by its place, not by how its path is written.
pub proof fn law_known_servers_are_recognised_by_their_place(
    os: Os,
    architecture: Architecture,
    front: Seq<char>,
    directory: Seq<char>,
    name: Seq<char>,
)
    requires
        extension::asset_name(os, architecture) is Ok,
        front.len() > 0,
        front[0] == '/',
        front.last() == '/',
        paths::plain_name(directory),
        paths::plain_name(name),
    ensures
        does(
            install_start(
                Some(front + directory + "//"@ + "ansible-vault-lsp"@),
                os,
                architecture,
            ),
            Installing::VerifyInstalled(front + directory),
        ),
        name.len() != 17 ==> does(
            install_start(Some(front + directory + "/"@ + name), os, architecture),
            Installing::FetchRelease("v0.2.0"@),
        ),
{
    lemma_places();
    reveal_strlit("/");
    reveal_strlit(".");
    reveal_strlit("ansible-vault-lsp");
    assert("/"@ =~= seq!['/']);
    let server = "ansible-vault-lsp"@;
    assert(server[0] == 'a' && "."@[0] == '.');
    let base = front + directory;
    paths::law_doubled_slashes_do_not_count(front, directory, server);
    paths::law_files_lie_in_their_parents(front, directory, name);
    assert(base.last() == directory.last());
    assert(directory.contains(directory[directory.len() - 1]));
    assert(extension::binary_in(base) =~= base + "/"@ + server);
    if name.len() != 17 {
        paths::law_siblings_are_other_places(base, server, name);
    }
}

} // verus!
