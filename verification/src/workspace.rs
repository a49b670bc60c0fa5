//! The folders and the settings that the server works with.
use crate::config::Configured;
use crate::config::Settings;
use crate::error::AppResult;
use crate::error::Failure;
use crate::paths;
use crate::text;
use vstd::prelude::*;

verus! {

// ---------------------------------------------------------------------------
// Folders
// ---------------------------------------------------------------------------

/// Whether a folder is among the roots.
pub open spec fn is_root(roots: Seq<Seq<char>>, folder: Seq<char>) -> bool {
    exists|i: int| 0 <= i < roots.len() && paths::equal_places(#[trigger] roots[i], folder)
}

/// The roots with one more folder, unless it is there already.
pub open spec fn with_root(roots: Seq<Seq<char>>, folder: Seq<char>) -> Seq<Seq<char>> {
    if is_root(roots, folder) {
        roots
    } else {
        roots.push(folder)
    }
}

/// The first `n` roots without a folder.
pub open spec fn without_root(roots: Seq<Seq<char>>, folder: Seq<char>, n: int) -> Seq<Seq<char>>
    decreases n,
{
    if n <= 0 {
        Seq::empty()
    } else if paths::equal_places(roots[n - 1], folder) {
        without_root(roots, folder, n - 1)
    } else {
        without_root(roots, folder, n - 1).push(roots[n - 1])
    }
}

/// The roots with the first `n` folders added.
pub open spec fn all_added(roots: Seq<Seq<char>>, folders: Seq<Seq<char>>, n: int) -> Seq<
    Seq<char>,
>
    decreases n,
{
    if n <= 0 {
        roots
    } else {
        with_root(all_added(roots, folders, n - 1), folders[n - 1])
    }
}

/// The roots with the first `n` folders removed.
pub open spec fn all_removed(roots: Seq<Seq<char>>, folders: Seq<Seq<char>>, n: int) -> Seq<
    Seq<char>,
>
    decreases n,
{
    if n <= 0 {
        roots
    } else {
        let before = all_removed(roots, folders, n - 1);
        without_root(before, folders[n - 1], before.len() as int)
    }
}

fn has_root(roots: &Vec<String>, folder: &str) -> (r: bool)
    ensures
        r == is_root(text::texts(roots@), folder@),
{
    let ghost all = text::texts(roots@);
    for i in 0..roots.len()
        invariant
            all == text::texts(roots@),
            forall|k: int| 0 <= k < i ==> !paths::equal_places(#[trigger] all[k], folder@),
    {
        proof {
            assert(all[i as int] == roots@[i as int]@);
        }
        if paths::same_place(roots[i].as_str(), folder) {
            return true;
        }
    }
    false
}

fn add_root(roots: &mut Vec<String>, folder: &String)
    ensures
        text::texts(final(roots)@) == with_root(text::texts(old(roots)@), folder@),
{
    if !has_root(roots, folder.as_str()) {
        let ghost before = text::texts(roots@);
        roots.push(folder.clone());
        proof {
            assert(text::texts(roots@) =~= before.push(folder@));
        }
    }
}

fn remove_root(roots: &Vec<String>, folder: &str) -> (r: Vec<String>)
    ensures
        text::texts(r@) == without_root(text::texts(roots@), folder@, roots@.len() as int),
{
    let ghost all = text::texts(roots@);
    let mut out: Vec<String> = Vec::new();
    proof {
        assert(text::texts(out@) =~= without_root(all, folder@, 0));
    }
    for i in 0..roots.len()
        invariant
            all == text::texts(roots@),
            text::texts(out@) == without_root(all, folder@, i as int),
    {
        let ghost before = text::texts(out@);
        proof {
            assert(all[i as int] == roots@[i as int]@);
        }
        if !paths::same_place(roots[i].as_str(), folder) {
            out.push(roots[i].clone());
            proof {
                assert(text::texts(out@) =~= before.push(all[i as int]));
            }
        }
    }
    out
}

/// The roots at the start: the folders of the workspace, and the root folder of
/// older editors where it is none of them.
pub fn initial_roots(folders: Vec<String>, root: Option<String>) -> (r: Vec<String>)
    ensures
        text::texts(r@) == match root {
            Some(folder) => with_root(text::texts(folders@), folder@),
            None => text::texts(folders@),
        },
        root matches Some(folder) ==> is_root(text::texts(r@), folder@),
        folders@.len() <= r@.len() <= folders@.len() + 1,
        forall|i: int| 0 <= i < folders@.len() ==> #[trigger] text::texts(r@)[i] == folders@[i]@,
{
    let ghost given = text::texts(folders@);
    let mut roots = folders;
    if let Some(folder) = root {
        add_root(&mut roots, &folder);
        proof {
            let all = text::texts(roots@);
            assert(all == with_root(given, folder@));
            assert(all.len() == roots@.len());
            if !is_root(given, folder@) {
                assert(all[given.len() as int] == folder@);
            }
            assert(is_root(all, folder@));
        }
    }
    roots
}

/// The roots after folders were removed from the workspace and others added.
pub fn changed_roots(roots: Vec<String>, removed: &Vec<String>, added: &Vec<String>) -> (r: Vec<
    String,
>)
    ensures
        text::texts(r@) == all_added(
            all_removed(text::texts(roots@), text::texts(removed@), removed@.len() as int),
            text::texts(added@),
            added@.len() as int,
        ),
        forall|folder: Seq<char>| #[trigger]
            is_root(text::texts(r@), folder) <==> is_root(text::texts(added@), folder) || is_root(
                text::texts(roots@),
                folder,
            ) && !is_root(text::texts(removed@), folder),
{
    let ghost gone = text::texts(removed@);
    let ghost new = text::texts(added@);
    let ghost start = text::texts(roots@);
    let mut left = roots;
    for i in 0..removed.len()
        invariant
            gone == text::texts(removed@),
            text::texts(left@) == all_removed(start, gone, i as int),
    {
        proof {
            assert(gone[i as int] == removed@[i as int]@);
        }
        left = remove_root(&left, removed[i].as_str());
    }
    let ghost kept = text::texts(left@);
    for i in 0..added.len()
        invariant
            new == text::texts(added@),
            text::texts(left@) == all_added(kept, new, i as int),
    {
        proof {
            assert(new[i as int] == added@[i as int]@);
        }
        add_root(&mut left, &added[i]);
    }
    proof {
        assert forall|folder: Seq<char>| #[trigger]
            is_root(text::texts(left@), folder) <==> is_root(new, folder) || is_root(start, folder)
                && !is_root(gone, folder) by {
            law_adding_folders_adds_nothing_else(kept, new, new.len() as int, folder);
            law_removing_folders_removes_nothing_else(start, gone, gone.len() as int, folder);
        }
    }
    left
}

/// A folder that was added is a root, whatever was there before.
pub proof fn law_added_folders_are_roots(
    roots: Seq<Seq<char>>,
    folders: Seq<Seq<char>>,
    n: int,
    i: int,
)
    requires
        0 <= i < n <= folders.len(),
    ensures
        is_root(all_added(roots, folders, n), folders[i]),
    decreases n,
{
    let before = all_added(roots, folders, n - 1);
    let after = all_added(roots, folders, n);
    if i < n - 1 {
        law_added_folders_are_roots(roots, folders, n - 1, i);
        let k = choose|k: int|
            0 <= k < before.len() && paths::equal_places(#[trigger] before[k], folders[i]);
        assert(after[k] == before[k]);
    } else if !is_root(before, folders[i]) {
        assert(after[before.len() as int] == folders[i]);
    }
}

/// A folder that was removed is no root any more.
pub proof fn law_removed_folders_are_no_roots(roots: Seq<Seq<char>>, folder: Seq<char>, n: int)
    requires
        0 <= n <= roots.len(),
    ensures
        !is_root(without_root(roots, folder, n), folder),
    decreases n,
{
    if n > 0 {
        law_removed_folders_are_no_roots(roots, folder, n - 1);
        let before = without_root(roots, folder, n - 1);
        let after = without_root(roots, folder, n);
        if is_root(after, folder) {
            let k = choose|k: int|
                0 <= k < after.len() && paths::equal_places(#[trigger] after[k], folder);
            if k < before.len() {
                assert(before[k] == after[k]);
            }
        }
    }
}

// ---------------------------------------------------------------------------
// Settings
// ---------------------------------------------------------------------------

/// The settings in force, and why the latest configuration was refused, if it was.
#[derive(Debug)]
pub struct CurrentSettings {
    pub settings: Settings,
    pub error: Option<String>,
}

/// The settings in force as contracts speak of them.
pub struct InForce {
    pub settings: Configured,
    pub error: Option<Seq<char>>,
}

impl View for CurrentSettings {
    type V = InForce;

    open spec fn view(&self) -> InForce {
        InForce {
            settings: self.settings@,
            error: match self.error {
                Some(message) => Some(message@),
                None => None,
            },
        }
    }
}

/// What a configuration makes of the settings in force. One that is refused leaves
/// the settings as they are, and says why.
pub open spec fn configured(before: InForce, outcome: Result<Configured, Failure>) -> InForce {
    match outcome {
        Ok(settings) => InForce { settings, error: None },
        Err(failure) => InForce { error: Some(failure.text()), ..before },
    }
}

impl CurrentSettings {
    /// The settings before any configuration.
    pub fn new() -> (r: CurrentSettings)
        ensures
            r@ == (InForce { settings: crate::config::default_settings(), error: None }),
    {
        CurrentSettings { settings: Settings::default(), error: None }
    }

    /// Takes over a configuration. The message is the one to show, if it was
    /// refused.
    pub fn configure(&mut self, outcome: AppResult<Settings>) -> (r: Option<String>)
        ensures
            final(self)@ == configured(
                old(self)@,
                match outcome {
                    Ok(settings) => Ok(settings@),
                    Err(error) => Err(error@),
                },
            ),
            match r {
                Some(message) => outcome matches Err(error) && message@ == error@.text(),
                None => outcome is Ok,
            },
    {
        match outcome {
            Ok(settings) => {
                self.settings = settings;
                self.error = None;
                None
            },
            Err(error) => {
                let message = error.message();
                self.error = Some(message.clone());
                Some(message)
            },
        }
    }
}

/// After folders were added, a folder is a root exactly where it was one before or was
/// added.
pub proof fn law_adding_folders_adds_nothing_else(
    roots: Seq<Seq<char>>,
    folders: Seq<Seq<char>>,
    n: int,
    folder: Seq<char>,
)
    requires
        0 <= n <= folders.len(),
    ensures
        is_root(all_added(roots, folders, n), folder) <==> is_root(roots, folder) || exists|i: int|
            0 <= i < n && paths::equal_places(#[trigger] folders[i], folder),
    decreases n,
{
    if n > 0 {
        law_adding_folders_adds_nothing_else(roots, folders, n - 1, folder);
        let before = all_added(roots, folders, n - 1);
        let after = all_added(roots, folders, n);
        if is_root(before, folder) {
            let k = choose|k: int|
                0 <= k < before.len() && paths::equal_places(#[trigger] before[k], folder);
            assert(after[k] == before[k]);
        }
        if paths::equal_places(folders[n - 1], folder) {
            law_added_folders_are_roots(roots, folders, n, n - 1);
            let k = choose|k: int|
                0 <= k < after.len() && paths::equal_places(#[trigger] after[k], folders[n - 1]);
            assert(paths::equal_places(after[k], folder));
        }
        if is_root(after, folder) && !is_root(before, folder) {
            let k = choose|k: int|
                0 <= k < after.len() && paths::equal_places(#[trigger] after[k], folder);
            if k < before.len() {
                assert(before[k] == after[k]);
            } else {
                assert(after[k] == folders[n - 1]);
            }
        }
        if exists|i: int| 0 <= i < n && paths::equal_places(#[trigger] folders[i], folder) {
            let i = choose|i: int|
                0 <= i < n && paths::equal_places(#[trigger] folders[i], folder);
            if i < n - 1 {
                assert(is_root(before, folder));
            }
        }
    } else {
        assert(all_added(roots, folders, n) == roots);
    }
}

proof fn lemma_without_root(roots: Seq<Seq<char>>, gone: Seq<char>, n: int, folder: Seq<char>)
    requires
        0 <= n <= roots.len(),
    ensures
        is_root(without_root(roots, gone, n), folder) <==> is_root(roots.take(n), folder)
            && !paths::equal_places(gone, folder),
    decreases n,
{
    let after = without_root(roots, gone, n);
    let now = roots.take(n);
    if n > 0 {
        lemma_without_root(roots, gone, n - 1, folder);
        let before = without_root(roots, gone, n - 1);
        let then = roots.take(n - 1);
        assert(now =~= then.push(roots[n - 1]));
        if is_root(then, folder) {
            let k = choose|k: int|
                0 <= k < then.len() && paths::equal_places(#[trigger] then[k], folder);
            assert(now[k] == then[k]);
        }
        if is_root(before, folder) {
            let k = choose|k: int|
                0 <= k < before.len() && paths::equal_places(#[trigger] before[k], folder);
            assert(after[k] == before[k]);
        }
        if paths::equal_places(roots[n - 1], folder) {
            assert(now[n - 1] == roots[n - 1]);
            if !paths::equal_places(roots[n - 1], gone) {
                assert(after[before.len() as int] == roots[n - 1]);
            }
        }
        if is_root(after, folder) {
            let k = choose|k: int|
                0 <= k < after.len() && paths::equal_places(#[trigger] after[k], folder);
            if k < before.len() {
                assert(before[k] == after[k]);
            } else {
                assert(now[n - 1] == after[k]);
            }
        }
        if is_root(now, folder) {
            let k = choose|k: int|
                0 <= k < now.len() && paths::equal_places(#[trigger] now[k], folder);
            if k < n - 1 {
                assert(then[k] == now[k]);
            }
        }
    } else {
        assert(after.len() == 0);
    }
}

/// After folders were removed, a folder is a root exactly where it was one before and was
/// not removed.
pub proof fn law_removing_folders_removes_nothing_else(
    roots: Seq<Seq<char>>,
    folders: Seq<Seq<char>>,
    n: int,
    folder: Seq<char>,
)
    requires
        0 <= n <= folders.len(),
    ensures
        is_root(all_removed(roots, folders, n), folder) <==> is_root(roots, folder) && forall|
            i: int,
        |
            0 <= i < n ==> !paths::equal_places(#[trigger] folders[i], folder),
    decreases n,
{
    if n > 0 {
        law_removing_folders_removes_nothing_else(roots, folders, n - 1, folder);
        let before = all_removed(roots, folders, n - 1);
        lemma_without_root(before, folders[n - 1], before.len() as int, folder);
        assert(before.take(before.len() as int) =~= before);
        if is_root(all_removed(roots, folders, n), folder) {
            assert forall|i: int| 0 <= i < n implies !paths::equal_places(
                #[trigger] folders[i],
                folder,
            ) by {
                if i < n - 1 {
                    assert(is_root(before, folder));
                }
            }
        }
    }
}

/// A configuration that is taken over is in force and clears the error; one that is
/// refused changes no setting and is told in its own words.
pub proof fn law_refused_configurations_change_no_setting(
    before: InForce,
    settings: Configured,
    message: Seq<char>,
)
    ensures
        configured(before, Ok(settings)).settings == settings,
        configured(before, Ok(settings)).error is None,
        configured(before, Err(Failure::User(message))).settings == before.settings,
        configured(before, Err(Failure::User(message))).error == Some(message),
{
}

} // verus!
