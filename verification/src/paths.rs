//! Paths of macOS and Linux, as text.
use crate::text;
use vstd::prelude::*;

verus! {

/// Whether a path begins at the root.
pub open spec fn absolute(path: Seq<char>) -> bool {
    path.len() > 0 && path[0] == '/'
}

/// `path` as seen from the directory `base`.
pub open spec fn joined_path(base: Seq<char>, path: Seq<char>) -> Seq<char> {
    if absolute(path) || base.len() == 0 {
        path
    } else if base.last() == '/' {
        base + path
    } else {
        base + seq!['/'] + path
    }
}

/// The parts between slashes.
pub open spec fn raw_parts(path: Seq<char>) -> Seq<Seq<char>> {
    text::split_any(path, seq!['/'])
}

/// Whether a part counts: an empty part, and the current directory anywhere but
/// at the start of a relative path, do not.
pub open spec fn counts(path: Seq<char>, i: int) -> bool {
    let part = raw_parts(path)[i];
    part.len() > 0 && (part != "."@ || (i == 0 && !absolute(path)))
}

/// The first `n` parts of a path, those that count.
pub open spec fn counted_parts(path: Seq<char>, n: int) -> Seq<Seq<char>>
    decreases n,
{
    if n <= 0 {
        Seq::empty()
    } else if counts(path, n - 1) {
        counted_parts(path, n - 1).push(raw_parts(path)[n - 1])
    } else {
        counted_parts(path, n - 1)
    }
}

/// The components of a path. The root is a component of its own.
pub open spec fn components(path: Seq<char>) -> Seq<Seq<char>> {
    let parts = counted_parts(path, raw_parts(path).len() as int);
    if absolute(path) {
        seq![seq!['/']] + parts
    } else {
        parts
    }
}

/// Whether `path` lies in `base` or is `base`.
pub open spec fn within(path: Seq<char>, base: Seq<char>) -> bool {
    components(base).len() <= components(path).len() && components(path).take(
        components(base).len() as int,
    ) == components(base)
}

pub fn is_absolute(path: &str) -> (r: bool)
    ensures
        r == absolute(path@),
{
    let chars = text::chars_of(path);
    chars.len() > 0 && chars[0] == '/'
}

/// `path` as seen from the directory `base`.
pub fn join_path(base: &str, path: &str) -> (r: String)
    ensures
        r@ == joined_path(base@, path@),
{
    let chars = text::chars_of(base);
    if is_absolute(path) || chars.len() == 0 {
        return path.to_string();
    }
    let mut out = base.to_string();
    if chars[chars.len() - 1] != '/' {
        out.push('/');
        proof {
            assert(out@ =~= base@ + seq!['/']);
        }
    }
    out.append(path);
    out
}

/// The components of a path.
pub fn components_of(path: &[char]) -> (r: Vec<Vec<char>>)
    ensures
        r@.len() == components(path@).len(),
        forall|i: int| 0 <= i < r@.len() ==> (#[trigger] r@[i])@ == components(path@)[i],
{
    let slash: [char; 1] = ['/'];
    proof {
        assert(slash@ =~= seq!['/']);
    }
    let root = path.len() > 0 && path[0] == '/';
    let parts = text::pieces(path, slash.as_slice());
    let ghost raw = raw_parts(path@);
    let ghost lead: Seq<Seq<char>> = if root {
        seq![seq!['/']]
    } else {
        Seq::empty()
    };
    let mut out: Vec<Vec<char>> = Vec::new();
    if root {
        let mut first: Vec<char> = Vec::new();
        first.push('/');
        proof {
            assert(first@ =~= seq!['/']);
        }
        out.push(first);
    }
    for i in 0..parts.len()
        invariant
            text::views(parts@) == raw,
            raw == raw_parts(path@),
            root == absolute(path@),
            lead.len() <= 1,
            out@.len() == lead.len() + counted_parts(path@, i as int).len(),
            forall|k: int|
                0 <= k < out@.len() ==> (#[trigger] out@[k])@ == (lead + counted_parts(
                    path@,
                    i as int,
                ))[k],
    {
        let part = parts[i];
        proof {
            assert(raw[i as int] == part@);
        }
        let counted = part.len() > 0 && (!text::is_str(part, ".") || (i == 0 && !root));
        if counted {
            let ghost before = lead + counted_parts(path@, i as int);
            let copy = chars_copy(part);
            out.push(copy);
            proof {
                assert(lead + counted_parts(path@, i + 1) =~= before.push(part@));
            }
        }
    }
    proof {
        assert(components(path@) =~= lead + counted_parts(path@, raw.len() as int));
    }
    out
}

fn chars_copy(s: &[char]) -> (r: Vec<char>)
    ensures
        r@ == s@,
{
    let mut out: Vec<char> = Vec::new();
    for i in 0..s.len()
        invariant
            out@ == s@.take(i as int),
    {
        out.push(s[i]);
    }
    out
}

/// Whether `path` lies in `base` or is `base`.
pub fn is_within(path: &str, base: &str) -> (r: bool)
    ensures
        r == within(path@, base@),
{
    let a = components_of(text::chars_of(path).as_slice());
    let b = components_of(text::chars_of(base).as_slice());
    let ghost (x, y) = (components(path@), components(base@));
    if b.len() > a.len() {
        return false;
    }
    for i in 0..b.len()
        invariant
            x == components(path@),
            y == components(base@),
            a@.len() == x.len(),
            b@.len() == y.len(),
            y.len() <= x.len(),
            forall|k: int| 0 <= k < a@.len() ==> (#[trigger] a@[k])@ == x[k],
            forall|k: int| 0 <= k < b@.len() ==> (#[trigger] b@[k])@ == y[k],
            forall|k: int| 0 <= k < i ==> x[k] == y[k],
    {
        if !text::same(a[i].as_slice(), b[i].as_slice()) {
            proof {
                assert(a@[i as int]@ == x[i as int] && b@[i as int]@ == y[i as int]);
                assert(x.take(y.len() as int)[i as int] != y[i as int]);
            }
            return false;
        }
    }
    proof {
        assert(x.take(y.len() as int) =~= y);
    }
    true
}

/// Whether two paths have the same components.
pub open spec fn equal_places(a: Seq<char>, b: Seq<char>) -> bool {
    components(a) == components(b)
}

/// Whether two paths have the same components.
pub fn same_place(a: &str, b: &str) -> (r: bool)
    ensures
        r == equal_places(a@, b@),
{
    let left = components_of(text::chars_of(a).as_slice());
    let right = components_of(text::chars_of(b).as_slice());
    let ghost (x, y) = (components(a@), components(b@));
    if left.len() != right.len() {
        return false;
    }
    for i in 0..left.len()
        invariant
            x == components(a@),
            y == components(b@),
            left@.len() == x.len(),
            right@.len() == y.len(),
            x.len() == y.len(),
            forall|k: int| 0 <= k < x.len() ==> (#[trigger] left@[k])@ == x[k],
            forall|k: int| 0 <= k < y.len() ==> (#[trigger] right@[k])@ == y[k],
            forall|k: int| 0 <= k < i ==> x[k] == y[k],
    {
        if !text::same(left[i].as_slice(), right[i].as_slice()) {
            proof {
                assert(left@[i as int]@ == x[i as int] && right@[i as int]@ == y[i as int]);
            }
            return false;
        }
    }
    proof {
        assert(x =~= y);
    }
    true
}

// ---------------------------------------------------------------------------
// Parents
// ---------------------------------------------------------------------------

/// The length of what stands before the parts of a path: the root, or the
/// current directory.
pub open spec fn lead_len(path: Seq<char>) -> int {
    if absolute(path) || path == "."@ || text::starts_with(path, "./"@) {
        1
    } else {
        0
    }
}

/// Where the last part of a path begins.
pub open spec fn last_part(path: Seq<char>) -> int {
    let body = path.skip(lead_len(path));
    path.len() - text::suffix_len(body, text::outside(seq!['/']))
}

/// A path without its last part and the slash before it.
pub open spec fn without_last_part(path: Seq<char>) -> Seq<char> {
    let k = last_part(path);
    if k > lead_len(path) {
        path.take(k - 1)
    } else {
        path.take(k)
    }
}

/// A path without trailing slashes and trailing current directories.
pub open spec fn tidy_end(path: Seq<char>) -> Seq<char>
    decreases path.len(),
{
    let part = path.skip(last_part(path));
    if path.len() > lead_len(path) && (part.len() == 0 || part == "."@) && without_last_part(
        path,
    ).len() < path.len() {
        tidy_end(without_last_part(path))
    } else {
        path
    }
}

/// The directory that a path lies in. The root and the empty path lie in none.
pub open spec fn parent(path: Seq<char>) -> Option<Seq<char>> {
    let tidy = tidy_end(path);
    if tidy.len() > lead_len(tidy) {
        Some(tidy_end(without_last_part(tidy)))
    } else if tidy == "."@ {
        Some(Seq::empty())
    } else {
        None
    }
}

pub proof fn lemma_last_part(path: Seq<char>)
    ensures
        lead_len(path) <= path.len(),
        lead_len(path) <= last_part(path) <= path.len(),
{
    reveal_strlit(".");
    reveal_strlit("./");
    text::lemma_suffix_len_bounds(path.skip(lead_len(path)), text::outside(seq!['/']));
}

fn lead_len_of(path: &[char]) -> (r: usize)
    ensures
        r == lead_len(path@),
{
    proof {
        reveal_strlit(".");
        reveal_strlit("./");
    }
    let here = text::chars_of("./");
    if (path.len() > 0 && path[0] == '/') || text::is_str(path, ".") || text::has_prefix(
        path,
        here.as_slice(),
    ) {
        1
    } else {
        0
    }
}

fn last_part_of(path: &[char]) -> (r: usize)
    ensures
        r == last_part(path@),
        r <= path@.len(),
{
    let lead = lead_len_of(path);
    proof {
        lemma_last_part(path@);
    }
    let ghost body = path@.skip(lead as int);
    let mut k: usize = path.len();
    while k > lead && path[k - 1] != '/'
        invariant
            body == path@.skip(lead as int),
            lead <= k <= path@.len(),
            forall|i: int| k <= i < path@.len() ==> #[trigger] path@[i] != '/',
        decreases k,
    {
        k = k - 1;
    }
    proof {
        let set = seq!['/'];
        let n = path@.len() - k;
        assert forall|i: int| body.len() - n <= i < body.len() implies text::outside(set)(
            #[trigger] body[i],
        ) by {
            assert(body[i] == path@[i + lead]);
        }
        if n < body.len() {
            assert(body[body.len() - n - 1] == path@[k - 1]);
            assert(set[0] == path@[k - 1]);
        }
        text::lemma_suffix_len(body, text::outside(set), n);
    }
    k
}

fn without_last_part_of(path: &[char]) -> (r: &[char])
    ensures
        r@ == without_last_part(path@),
{
    let k = last_part_of(path);
    proof {
        lemma_last_part(path@);
    }
    if k > lead_len_of(path) {
        proof {
            assert(path@.subrange(0, k - 1) =~= path@.take(k - 1));
        }
        &path[0..k - 1]
    } else {
        proof {
            assert(path@.subrange(0, k as int) =~= path@.take(k as int));
        }
        &path[0..k]
    }
}

fn tidied(path: &[char]) -> (r: &[char])
    ensures
        r@ == tidy_end(path@),
{
    let mut left: &[char] = path;
    loop
        invariant
            tidy_end(path@) == tidy_end(left@),
        decreases left@.len(),
    {
        let k = last_part_of(left);
        proof {
            lemma_last_part(left@);
            assert(left@.subrange(k as int, left@.len() as int) =~= left@.skip(k as int));
        }
        let part: &[char] = &left[k..left.len()];
        let shorter = without_last_part_of(left);
        if left.len() > lead_len_of(left) && (part.len() == 0 || text::is_str(part, "."))
            && shorter.len() < left.len() {
            left = shorter;
        } else {
            return left;
        }
    }
}

/// The directory that a path lies in.
pub fn parent_of(path: &str) -> (r: Option<String>)
    ensures
        match r {
            Some(directory) => parent(path@) == Some(directory@),
            None => parent(path@) is None,
        },
{
    let held = text::chars_of(path);
    let tidy = tidied(held.as_slice());
    if tidy.len() > lead_len_of(tidy) {
        Some(text::string_of(tidied(without_last_part_of(tidy))))
    } else if text::is_str(tidy, ".") {
        let empty = String::new();
        proof {
            assert(empty@ =~= Seq::<char>::empty());
        }
        Some(empty)
    } else {
        None
    }
}

// ---------------------------------------------------------------------------
// Worktrees
// ---------------------------------------------------------------------------

/// The deepest of the first `n` roots that a path lies in; of equally deep ones
/// the last.
pub open spec fn deepest_root(path: Seq<char>, roots: Seq<Seq<char>>, n: int) -> Option<Seq<char>>
    decreases n,
{
    if n <= 0 {
        None
    } else {
        let before = deepest_root(path, roots, n - 1);
        let root = roots[n - 1];
        if !within(path, root) {
            before
        } else {
            match before {
                Some(other) => if components(root).len() >= components(other).len() {
                    Some(root)
                } else {
                    before
                },
                None => Some(root),
            }
        }
    }
}

/// The worktree of a file: the deepest root that it lies in, or its own
/// directory, or the current one.
pub open spec fn worktree(path: Seq<char>, roots: Seq<Seq<char>>) -> Seq<char> {
    match deepest_root(path, roots, roots.len() as int) {
        Some(root) => root,
        None => match parent(path) {
            Some(directory) => directory,
            None => "."@,
        },
    }
}

/// The worktree of a file.
pub fn worktree_for(path: &str, roots: &Vec<String>) -> (r: String)
    ensures
        r@ == worktree(path@, text::texts(roots@)),
{
    let ghost all = text::texts(roots@);
    let mut best: Option<usize> = None;
    for i in 0..roots.len()
        invariant
            all == text::texts(roots@),
            match best {
                Some(k) => k < roots@.len() && deepest_root(path@, all, i as int) == Some(all[k as int]),
                None => deepest_root(path@, all, i as int) is None,
            },
    {
        proof {
            assert(all[i as int] == roots@[i as int]@);
        }
        if is_within(path, roots[i].as_str()) {
            let deeper = match best {
                Some(k) => {
                    proof {
                        assert(all[k as int] == roots@[k as int]@);
                    }
                    components_of(text::chars_of(roots[i].as_str()).as_slice()).len()
                        >= components_of(text::chars_of(roots[k].as_str()).as_slice()).len()
                },
                None => true,
            };
            if deeper {
                best = Some(i);
            }
        }
    }
    match best {
        Some(k) => roots[k].clone(),
        None => match parent_of(path) {
            Some(directory) => directory,
            None => ".".to_string(),
        },
    }
}

/// A file lies in the worktree that is chosen for it, wherever it lies in any
/// root, and no deeper root holds it.
pub proof fn law_worktree_is_the_deepest_root(path: Seq<char>, roots: Seq<Seq<char>>, i: int)
    requires
        0 <= i < roots.len(),
        within(path, roots[i]),
    ensures
        within(path, worktree(path, roots)),
        roots.contains(worktree(path, roots)),
        components(worktree(path, roots)).len() >= components(roots[i]).len(),
{
    lemma_deepest_root(path, roots, roots.len() as int, i);
}

proof fn lemma_deepest_root(path: Seq<char>, roots: Seq<Seq<char>>, n: int, i: int)
    requires
        0 <= i < n <= roots.len(),
        within(path, roots[i]),
    ensures
        deepest_root(path, roots, n) matches Some(root) && within(path, root) && roots.contains(
            root,
        ) && components(root).len() >= components(roots[i]).len(),
    decreases n,
{
    assert(roots.contains(roots[n - 1]));
    if i < n - 1 {
        lemma_deepest_root(path, roots, n - 1, i);
    } else {
        lemma_any_deepest(path, roots, n - 1);
    }
}

proof fn lemma_any_deepest(path: Seq<char>, roots: Seq<Seq<char>>, n: int)
    requires
        0 <= n <= roots.len(),
    ensures
        deepest_root(path, roots, n) matches Some(root) ==> within(path, root) && roots.contains(root),
    decreases n,
{
    if n > 0 {
        assert(roots.contains(roots[n - 1]));
        lemma_any_deepest(path, roots, n - 1);
    }
}

// ---------------------------------------------------------------------------
// What paths mean
// ---------------------------------------------------------------------------

/// A name of a file or a directory.
pub open spec fn plain_name(name: Seq<char>) -> bool {
    name.len() > 0 && !name.contains('/') && name != "."@
}

/// The path that leads through the names from the root, or from where one stands.
pub open spec fn path_of(rooted: bool, names: Seq<Seq<char>>) -> Seq<char>
    decreases names.len(),
{
    if names.len() == 0 {
        if rooted {
            "/"@
        } else {
            ""@
        }
    } else if names.len() == 1 {
        if rooted {
            "/"@ + names[0]
        } else {
            names[0]
        }
    } else {
        path_of(rooted, names.drop_last()) + "/"@ + names.last()
    }
}

proof fn lemma_split_last(s: Seq<char>, last: Seq<char>)
    requires
        !last.contains('/'),
    ensures
        raw_parts(s + seq!['/'] + last) == raw_parts(s).push(last),
    decreases s.len(),
{
    let set = seq!['/'];
    assert(set.contains(set[0]));
    let n = text::prefix_len(s, text::outside(set)) as int;
    text::lemma_prefix_len_bounds(s, text::outside(set));
    let whole = s + seq!['/'] + last;
    assert forall|k: int| 0 <= k < last.len() implies !set.contains(#[trigger] last[k]) by {
        assert(last.contains(last[k]));
    }
    if n < s.len() {
        let first = s.take(n);
        let rest = s.skip(n + 1);
        assert(set.contains(s[n]));
        assert forall|k: int| 0 <= k < first.len() implies !set.contains(#[trigger] first[k]) by {
            assert(text::outside(set)(s[k]));
        }
        assert(whole =~= first + seq!['/'] + (rest + seq!['/'] + last));
        assert(s =~= first + seq!['/'] + rest);
        text::lemma_split_first(first, '/', rest + seq!['/'] + last, set);
        text::lemma_split_first(first, '/', rest, set);
        lemma_split_last(rest, last);
        assert(raw_parts(whole) =~= raw_parts(s).push(last));
    } else {
        assert forall|k: int| 0 <= k < s.len() implies !set.contains(#[trigger] s[k]) by {
            assert(text::outside(set)(s[k]));
        }
        text::lemma_split_first(s, '/', last, set);
        text::lemma_split_single(last, set);
        text::lemma_split_single(s, set);
        assert(raw_parts(whole) =~= raw_parts(s).push(last));
    }
}

pub proof fn lemma_path_parts(rooted: bool, names: Seq<Seq<char>>)
    requires
        names.len() > 0,
        forall|i: int| 0 <= i < names.len() ==> plain_name(#[trigger] names[i]),
    ensures
        absolute(path_of(rooted, names)) == rooted,
        path_of(rooted, names).len() > 0,
        path_of(rooted, names)[0] == if rooted { '/' } else { names[0][0] },
        raw_parts(path_of(rooted, names)) == if rooted {
            seq![Seq::<char>::empty()] + names
        } else {
            names
        },
    decreases names.len(),
{
    reveal_strlit("/");
    assert("/"@ =~= seq!['/']);
    let set = seq!['/'];
    assert(set.contains(set[0]));
    let last = names[names.len() - 1];
    let first = names[0];
    assert(plain_name(first) && plain_name(last));
    assert(first.contains(first[0]));
    let none = Seq::<char>::empty();
    if names.len() == 1 {
        assert forall|k: int| 0 <= k < first.len() implies !set.contains(#[trigger] first[k]) by {
            assert(first.contains(first[k]));
        }
        text::lemma_split_single(first, set);
        assert(names =~= seq![first]);
        if rooted {
            assert("/"@ + first =~= none + seq!['/'] + first);
            text::lemma_split_first(none, '/', first, set);
            assert(raw_parts(path_of(rooted, names)) =~= seq![none] + names);
        }
    } else {
        let before = names.drop_last();
        assert forall|i: int| 0 <= i < before.len() implies plain_name(#[trigger] before[i]) by {
            assert(before[i] == names[i]);
        }
        lemma_path_parts(rooted, before);
        lemma_split_last(path_of(rooted, before), last);
        assert(before[0] == names[0]);
        assert(before.push(last) =~= names);
        assert((seq![none] + before).push(last) =~= seq![none] + names);
    }
}

proof fn lemma_counted(path: Seq<char>, lead: int, names: Seq<Seq<char>>, n: int)
    requires
        lead == 0 || lead == 1 && raw_parts(path)[0].len() == 0,
        0 <= n <= names.len(),
        raw_parts(path).len() == lead + names.len(),
        forall|i: int|
            0 <= i < names.len() ==> plain_name(#[trigger] names[i]) && raw_parts(path)[lead + i]
                == names[i],
    ensures
        counted_parts(path, lead + n) == names.take(n),
    decreases n,
{
    if n > 0 {
        lemma_counted(path, lead, names, n - 1);
        assert(plain_name(names[n - 1]));
        assert(raw_parts(path)[lead + n - 1] == names[n - 1]);
        assert(names.take(n) =~= names.take(n - 1).push(names[n - 1]));
    } else {
        if lead == 1 {
            assert(counted_parts(path, 0) =~= Seq::<Seq<char>>::empty());
            assert(!counts(path, 0));
        }
        assert(counted_parts(path, lead) =~= Seq::<Seq<char>>::empty());
        assert(names.take(0) =~= Seq::<Seq<char>>::empty());
    }
}

/// The components of a path are the names that it leads through, with the root before
/// them where it begins there.
pub proof fn law_components_are_the_names(rooted: bool, names: Seq<Seq<char>>)
    requires
        names.len() > 0,
        forall|i: int| 0 <= i < names.len() ==> plain_name(#[trigger] names[i]),
    ensures
        components(path_of(rooted, names)) == if rooted {
            seq!["/"@] + names
        } else {
            names
        },
{
    reveal_strlit("/");
    assert("/"@ =~= seq!['/']);
    let path = path_of(rooted, names);
    lemma_path_parts(rooted, names);
    let lead: int = if rooted {
        1
    } else {
        0
    };
    assert forall|i: int| 0 <= i < names.len() implies plain_name(#[trigger] names[i]) && raw_parts(
        path,
    )[lead + i] == names[i] by {}
    lemma_counted(path, lead, names, names.len() as int);
    assert(names.take(names.len() as int) =~= names);
    assert(components(path) =~= if rooted {
        seq!["/"@] + names
    } else {
        names
    });
}

/// A file lies in a directory exactly where the names of the directory are the first of
/// its own, each of them whole.
pub proof fn law_files_lie_in_their_directories(
    file: Seq<Seq<char>>,
    directory: Seq<Seq<char>>,
)
    requires
        file.len() > 0,
        directory.len() > 0,
        forall|i: int| 0 <= i < file.len() ==> plain_name(#[trigger] file[i]),
        forall|i: int| 0 <= i < directory.len() ==> plain_name(#[trigger] directory[i]),
    ensures
        within(path_of(true, file), path_of(true, directory)) <==> directory.len() <= file.len()
            && forall|i: int| 0 <= i < directory.len() ==> #[trigger] file[i] == directory[i],
        within(path_of(true, file), "/"@),
{
    law_components_are_the_names(true, file);
    law_components_are_the_names(true, directory);
    reveal_strlit("/");
    assert("/"@ =~= seq!['/']);
    let a = components(path_of(true, file));
    let b = components(path_of(true, directory));
    if within(path_of(true, file), path_of(true, directory)) {
        assert forall|i: int| 0 <= i < directory.len() implies #[trigger] file[i] == directory[i] by {
            assert(a.take(b.len() as int)[i + 1] == b[i + 1]);
            assert(a[i + 1] == file[i]);
            assert(b[i + 1] == directory[i]);
        }
    }
    if directory.len() <= file.len() && forall|i: int|
        0 <= i < directory.len() ==> #[trigger] file[i] == directory[i] {
        assert forall|j: int| 0 <= j < b.len() implies a.take(b.len() as int)[j] == #[trigger] b[j] by {
            if j > 0 {
                assert(file[j - 1] == directory[j - 1]);
            }
        }
        assert(a.take(b.len() as int) =~= b);
    }
    let root = "/"@;
    let none = Seq::<char>::empty();
    let set = seq!['/'];
    assert(set.contains(set[0]));
    assert(root =~= none + seq!['/'] + none);
    text::lemma_split_first(none, '/', none, set);
    text::lemma_split_single(none, set);
    assert(raw_parts(root) =~= seq![none, none]);
    assert(!counts(root, 0) && !counts(root, 1));
    assert(counted_parts(root, 0) =~= Seq::<Seq<char>>::empty());
    assert(counted_parts(root, 1) =~= Seq::<Seq<char>>::empty());
    assert(counted_parts(root, 2) =~= Seq::<Seq<char>>::empty());
    assert(components(root) =~= seq![root]);
    assert(a.take(1) =~= seq![root]);
}

/// Seen from a directory, an absolute path is itself, and any other lies behind the
/// directory and one slash.
pub proof fn law_relative_paths_lie_behind_their_base(base: Seq<char>, path: Seq<char>)
    ensures
        path.len() > 0 && path[0] == '/' ==> joined_path(base, path) == path,
        !(path.len() > 0 && path[0] == '/') && base.len() > 0 && base.last() != '/'
            ==> joined_path(base, path) == base + "/"@ + path,
        !(path.len() > 0 && path[0] == '/') && base.len() > 0 && base.last() == '/'
            ==> joined_path(base, path) == base + path,
        base.len() == 0 ==> joined_path(base, path) == path,
{
    reveal_strlit("/");
    assert("/"@ =~= seq!['/']);
}

proof fn lemma_last_name(front: Seq<char>, name: Seq<char>)
    requires
        front.len() > 0,
        front[0] == '/',
        front.last() == '/',
        plain_name(name),
    ensures
        lead_len(front + name) == 1,
        last_part(front + name) == front.len(),
        tidy_end(front + name) == front + name,
        front.len() > 1 ==> without_last_part(front + name) == front.drop_last(),
        front.len() == 1 ==> without_last_part(front + name) == front,
{
    reveal_strlit(".");
    let path = front + name;
    let set = seq!['/'];
    assert(set.contains(set[0]));
    let body = path.skip(1);
    assert forall|k: int| body.len() - name.len() <= k < body.len() implies text::outside(set)(
        #[trigger] body[k],
    ) by {
        let j = k - (body.len() - name.len());
        assert(body[k] == name[j]);
        assert(name.contains(name[j]));
    }
    if name.len() < body.len() {
        assert(body[body.len() - name.len() - 1] == front.last());
    }
    text::lemma_suffix_len(body, text::outside(set), name.len() as int);
    assert(path.skip(front.len() as int) =~= name);
    assert(path.take(front.len() - 1) =~= front.drop_last());
    assert(path.take(front.len() as int) =~= front);
}

/// The directory that a file lies in is its path without the name and the slash before
/// it; in the root it is the root.
pub proof fn law_files_lie_in_their_parents(
    front: Seq<char>,
    directory: Seq<char>,
    name: Seq<char>,
)
    requires
        front.len() > 0,
        front[0] == '/',
        front.last() == '/',
        plain_name(directory),
        plain_name(name),
    ensures
        parent(front + directory + "/"@ + name) == Some(front + directory),
        parent("/"@ + name) == Some("/"@),
{
    reveal_strlit("/");
    reveal_strlit(".");
    reveal_strlit("./");
    let slash = seq!['/'];
    assert("/"@ =~= slash);
    let whole = front + directory + slash;
    assert(whole.last() == '/' && whole[0] == '/');
    lemma_last_name(whole, name);
    assert(whole.drop_last() =~= front + directory);
    lemma_last_name(front, directory);
    assert(front + directory + "/"@ + name =~= whole + name);
    lemma_last_name(slash, name);
    assert(lead_len(slash) == 1);
    lemma_last_part(slash);
    assert(tidy_end(slash) == slash);
}

/// A file that lies in none of the folders has the directory that it lies in for its
/// worktree.
pub proof fn law_lone_files_are_their_own_worktree(path: Seq<char>, roots: Seq<Seq<char>>)
    requires
        forall|i: int| 0 <= i < roots.len() ==> !within(path, #[trigger] roots[i]),
        parent(path) is Some,
    ensures
        Some(worktree(path, roots)) == parent(path),
{
    lemma_no_root(path, roots, roots.len() as int);
}

proof fn lemma_no_root(path: Seq<char>, roots: Seq<Seq<char>>, n: int)
    requires
        0 <= n <= roots.len(),
        forall|i: int| 0 <= i < roots.len() ==> !within(path, #[trigger] roots[i]),
    ensures
        deepest_root(path, roots, n) is None,
    decreases n,
{
    if n > 0 {
        lemma_no_root(path, roots, n - 1);
    }
}

/// Of the folders that a file lies in, the deepest is its worktree, and of equally deep
/// ones the last.
pub proof fn law_last_of_the_deepest_folders_counts(
    path: Seq<char>,
    roots: Seq<Seq<char>>,
    i: int,
)
    requires
        0 <= i < roots.len(),
        within(path, roots[i]),
        forall|j: int|
            0 <= j < i && within(path, #[trigger] roots[j]) ==> components(roots[j]).len()
                <= components(roots[i]).len(),
        forall|j: int|
            i < j < roots.len() && within(path, #[trigger] roots[j]) ==> components(roots[j]).len()
                < components(roots[i]).len(),
    ensures
        worktree(path, roots) == roots[i],
{
    lemma_last_deepest(path, roots, i, roots.len() as int);
}

proof fn lemma_last_deepest(path: Seq<char>, roots: Seq<Seq<char>>, i: int, n: int)
    requires
        0 <= i < n <= roots.len(),
        within(path, roots[i]),
        forall|j: int|
            0 <= j < i && within(path, #[trigger] roots[j]) ==> components(roots[j]).len()
                <= components(roots[i]).len(),
        forall|j: int|
            i < j < roots.len() && within(path, #[trigger] roots[j]) ==> components(roots[j]).len()
                < components(roots[i]).len(),
    ensures
        deepest_root(path, roots, n) == Some(roots[i]),
    decreases n,
{
    if n - 1 > i {
        lemma_last_deepest(path, roots, i, n - 1);
    } else {
        lemma_shallower(path, roots, i, i);
    }
}

proof fn lemma_shallower(path: Seq<char>, roots: Seq<Seq<char>>, i: int, n: int)
    requires
        0 <= n <= i < roots.len(),
        forall|j: int|
            0 <= j < i && within(path, #[trigger] roots[j]) ==> components(roots[j]).len()
                <= components(roots[i]).len(),
    ensures
        deepest_root(path, roots, n) matches Some(root) ==> components(root).len() <= components(
            roots[i],
        ).len(),
    decreases n,
{
    if n > 0 {
        lemma_shallower(path, roots, i, n - 1);
        assert(roots[n - 1] == roots[n - 1]);
    }
}

proof fn lemma_counted_alike(a: Seq<char>, b: Seq<char>, n: int)
    requires
        0 <= n <= raw_parts(a).len(),
        absolute(a) == absolute(b),
        raw_parts(b).len() >= raw_parts(a).len(),
        forall|i: int| 0 <= i < raw_parts(a).len() ==> raw_parts(a)[i] == #[trigger] raw_parts(b)[i],
    ensures
        counted_parts(a, n) == counted_parts(b, n),
    decreases n,
{
    if n > 0 {
        lemma_counted_alike(a, b, n - 1);
        assert(raw_parts(a)[n - 1] == raw_parts(b)[n - 1]);
    }
}

/// A slash at the end of a path, and the current directory there, change nothing.
pub proof fn law_trailing_slashes_do_not_count(path: Seq<char>)
    requires
        path.len() > 0,
    ensures
        equal_places(path + "/"@, path),
        equal_places(path + "/."@, path),
{
    reveal_strlit("/");
    reveal_strlit("/.");
    reveal_strlit(".");
    let none = Seq::<char>::empty();
    let slash = seq!['/'];
    let n = raw_parts(path).len() as int;
    text::lemma_split_pieces(path, slash);
    let a = path + "/"@;
    let b = path + "/."@;
    assert(a =~= path + slash + none);
    assert(b =~= path + slash + "."@);
    lemma_split_last(path, none);
    lemma_split_last(path, "."@);
    assert(a[0] == path[0] && b[0] == path[0]);
    lemma_counted_alike(path, a, n);
    lemma_counted_alike(path, b, n);
    assert(raw_parts(a)[n] == none);
    assert(raw_parts(b)[n] == "."@);
    assert(counted_parts(a, n + 1) == counted_parts(a, n));
    assert(counted_parts(b, n + 1) == counted_parts(b, n));
}

/// The current directory counts at the start of a relative path, and nowhere else.
pub proof fn law_current_directory_counts_at_the_start(first: Seq<char>, name: Seq<char>)
    requires
        plain_name(first),
        plain_name(name),
    ensures
        components("./"@ + name) == seq!["."@, name],
        components(first + "/./"@ + name) == seq![first, name],
        components("/./"@ + name) == seq!["/"@, name],
{
    reveal_strlit("./");
    reveal_strlit("/./");
    reveal_strlit(".");
    reveal_strlit("/");
    let slash = seq!['/'];
    let dot = "."@;
    let none = Seq::<char>::empty();
    assert("/"@ =~= slash);
    assert(slash.contains(slash[0]));
    assert forall|k: int| 0 <= k < first.len() implies !slash.contains(#[trigger] first[k]) by {
        assert(first.contains(first[k]));
    }
    assert forall|k: int| 0 <= k < name.len() implies !slash.contains(#[trigger] name[k]) by {
        assert(name.contains(name[k]));
    }
    assert(first.contains(first[0]));
    text::lemma_split_single(dot, slash);
    text::lemma_split_single(first, slash);
    text::lemma_split_single(none, slash);
    let a = "./"@ + name;
    assert(a =~= dot + slash + name);
    lemma_split_last(dot, name);
    assert(raw_parts(a) =~= seq![dot, name]);
    assert(!absolute(a));
    assert(counted_parts(a, 0) =~= Seq::<Seq<char>>::empty());
    assert(counts(a, 0) && counts(a, 1));
    assert(counted_parts(a, 1) =~= seq![dot]);
    assert(counted_parts(a, 2) =~= seq![dot, name]);
    let b = first + "/./"@ + name;
    assert(b =~= (first + slash + dot) + slash + name);
    lemma_split_last(first, dot);
    lemma_split_last(first + slash + dot, name);
    assert(raw_parts(b) =~= seq![first, dot, name]);
    assert(b[0] == first[0]);
    assert(counted_parts(b, 0) =~= Seq::<Seq<char>>::empty());
    assert(counts(b, 0) && !counts(b, 1) && counts(b, 2));
    assert(counted_parts(b, 1) =~= seq![first]);
    assert(counted_parts(b, 2) =~= seq![first]);
    assert(counted_parts(b, 3) =~= seq![first, name]);
    let c = "/./"@ + name;
    assert(c =~= (none + slash + dot) + slash + name);
    lemma_split_last(none, dot);
    lemma_split_last(none + slash + dot, name);
    assert(raw_parts(c) =~= seq![none, dot, name]);
    assert(absolute(c));
    assert(counted_parts(c, 0) =~= Seq::<Seq<char>>::empty());
    assert(!counts(c, 0) && !counts(c, 1) && counts(c, 2));
    assert(counted_parts(c, 1) =~= Seq::<Seq<char>>::empty());
    assert(counted_parts(c, 2) =~= Seq::<Seq<char>>::empty());
    assert(counted_parts(c, 3) =~= seq![name]);
    assert(components(c) =~= seq!["/"@, name]);
}

proof fn lemma_lone_name(name: Seq<char>)
    requires
        plain_name(name),
    ensures
        lead_len(name) == 0,
        last_part(name) == 0,
        tidy_end(name) == name,
        without_last_part(name) == Seq::<char>::empty(),
{
    reveal_strlit(".");
    reveal_strlit("./");
    let set = seq!['/'];
    assert(set.contains(set[0]));
    assert(name.contains(name[0]));
    if name.len() >= 2 {
        assert(name.take(2)[1] == name[1]);
        assert(name.contains(name[1]));
    }
    assert(name.skip(0) =~= name);
    assert forall|k: int| name.len() - name.len() <= k < name.len() implies text::outside(set)(
        #[trigger] name[k],
    ) by {
        assert(name.contains(name[k]));
    }
    text::lemma_suffix_len(name, text::outside(set), name.len() as int);
    assert(name.take(0) =~= Seq::<char>::empty());
}

/// The directories of relative paths: a bare name lies in the empty path, as the current
/// directory does, and a name behind another lies in that. The root and the empty path lie in
/// nothing.
pub proof fn law_relative_paths_have_parents(first: Seq<char>, name: Seq<char>)
    requires
        plain_name(first),
        plain_name(name),
    ensures
        parent(name) == Some(""@),
        parent(first + "/"@ + name) == Some(first),
        parent("./"@ + name) == Some("."@),
        parent("."@) == Some(""@),
        parent("/"@) is None,
        parent(""@) is None,
{
    reveal_strlit("");
    reveal_strlit(".");
    reveal_strlit("./");
    reveal_strlit("/");
    let none = Seq::<char>::empty();
    let set = seq!['/'];
    let dot = "."@;
    assert(set.contains(set[0]));
    assert("/"@ =~= set);
    assert(""@ =~= none);
    lemma_lone_name(name);
    lemma_lone_name(first);
    assert(lead_len(none) == 0);
    assert(tidy_end(none) == none);
    assert(first.contains(first[0]));
    let a = first + "/"@ + name;
    assert(a[0] == first[0]);
    if text::starts_with(a, "./"@) {
        assert(a.take(2)[0] == a[0] && a.take(2)[1] == a[1]);
        if first.len() == 1 {
            assert(first =~= dot);
        } else {
            assert(a[1] == first[1]);
            assert(first.contains(first[1]));
        }
    }
    assert(a[first.len() as int] == '/');
    assert(a != dot) by {
        assert(a.len() >= 3);
    }
    assert(lead_len(a) == 0);
    assert(a.skip(0) =~= a);
    assert forall|k: int| a.len() - name.len() <= k < a.len() implies text::outside(set)(
        #[trigger] a[k],
    ) by {
        let j = k - first.len() - 1;
        assert(a[k] == name[j]);
        assert(name.contains(name[j]));
    }
    text::lemma_suffix_len(a, text::outside(set), name.len() as int);
    assert(last_part(a) == first.len() + 1);
    assert(a.skip(first.len() + 1int) =~= name);
    assert(tidy_end(a) == a);
    assert(a.take(first.len() as int) =~= first);
    assert(without_last_part(a) == first);
    let b = "./"@ + name;
    assert(b.take(2) =~= "./"@);
    assert(lead_len(b) == 1);
    let body = b.skip(1);
    assert forall|k: int| body.len() - name.len() <= k < body.len() implies text::outside(set)(
        #[trigger] body[k],
    ) by {
        assert(body[k] == name[k - 1]);
        assert(name.contains(name[k - 1]));
    }
    assert(body[0] == '/');
    text::lemma_suffix_len(body, text::outside(set), name.len() as int);
    assert(last_part(b) == 2);
    assert(b.skip(2) =~= name);
    assert(tidy_end(b) == b);
    assert(b.take(1) =~= dot);
    assert(without_last_part(b) == dot);
    assert(lead_len(dot) == 1);
    lemma_last_part(dot);
    assert(tidy_end(dot) == dot);
    assert(lead_len(set) == 1);
    lemma_last_part(set);
    assert(tidy_end(set) == set);
}

/// Two slashes are as good as one.
pub proof fn law_doubled_slashes_do_not_count(
    front: Seq<char>,
    directory: Seq<char>,
    name: Seq<char>,
)
    requires
        front.len() > 0,
        front[0] == '/',
        front.last() == '/',
        plain_name(directory),
        plain_name(name),
    ensures
        parent(front + directory + "//"@ + name) == Some(front + directory),
        equal_places(front + directory + "//"@ + name, front + directory + "/"@ + name),
{
    reveal_strlit("/");
    reveal_strlit("//");
    reveal_strlit(".");
    let none = Seq::<char>::empty();
    let slash = seq!['/'];
    let base = front + directory;
    let one = base + slash;
    let two = one + slash;
    let a = base + "//"@ + name;
    let b = base + "/"@ + name;
    assert(a =~= two + name);
    assert(b =~= one + name);
    lemma_last_name(two, name);
    assert(two.drop_last() =~= one);
    lemma_last_name(front, directory);
    let set = slash;
    assert(set.contains(set[0]));
    assert(lead_len(one) == 1);
    let body = one.skip(1);
    assert(body.last() == '/');
    text::lemma_suffix_len(body, text::outside(set), 0);
    assert(last_part(one) == one.len());
    assert(one.skip(one.len() as int) =~= none);
    assert(without_last_part(one) =~= base);
    assert(tidy_end(one) == tidy_end(base));
    let n = raw_parts(base).len() as int;
    text::lemma_split_pieces(base, slash);
    lemma_split_last(base, none);
    assert(base + slash + none =~= one);
    lemma_split_last(one, name);
    lemma_split_last(base, name);
    assert(one + slash + name =~= a);
    assert(base + slash + name =~= b);
    assert(raw_parts(a) =~= raw_parts(base).push(none).push(name));
    assert(raw_parts(b) =~= raw_parts(base).push(name));
    assert(a[0] == base[0] && b[0] == base[0]);
    lemma_counted_alike(base, a, n);
    lemma_counted_alike(base, b, n);
    assert(raw_parts(a)[n] == none && raw_parts(a)[n + 1] == name);
    assert(raw_parts(b)[n] == name);
    assert(counted_parts(a, n + 1) == counted_parts(a, n));
    assert(counts(a, n + 1) && counts(b, n));
    assert(counted_parts(a, n + 2) == counted_parts(a, n + 1).push(name));
    assert(counted_parts(b, n + 1) == counted_parts(b, n).push(name));
}

/// Two names in one directory are two places.
pub proof fn law_siblings_are_other_places(base: Seq<char>, a: Seq<char>, b: Seq<char>)
    requires
        base.len() > 0,
        plain_name(a),
        plain_name(b),
        a != b,
    ensures
        !equal_places(base + "/"@ + a, base + "/"@ + b),
{
    reveal_strlit("/");
    let slash = seq!['/'];
    assert("/"@ =~= slash);
    let x = base + slash + a;
    let y = base + slash + b;
    let n = raw_parts(base).len() as int;
    text::lemma_split_pieces(base, slash);
    lemma_split_last(base, a);
    lemma_split_last(base, b);
    assert(x[0] == base[0] && y[0] == base[0]);
    lemma_counted_alike(base, x, n);
    lemma_counted_alike(base, y, n);
    assert(raw_parts(x)[n] == a && raw_parts(y)[n] == b);
    assert(counts(x, n) && counts(y, n));
    assert(counted_parts(x, n + 1) == counted_parts(x, n).push(a));
    assert(counted_parts(y, n + 1) == counted_parts(y, n).push(b));
    assert(components(x).last() == a && components(y).last() == b);
}

} // verus!
