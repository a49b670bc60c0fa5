//! Character sequences: the text operations that the rest of the library is
//! stated over.
//!
//! A text is a sequence of characters. Offsets into a text are byte offsets
//! into its UTF-8 encoding; `byte_len` converts between the two.
use vstd::prelude::*;

verus! {

/// Appending a character to a `String` puts it behind the characters that are
/// already there.
pub assume_specification[ String::push ](s: &mut String, c: char)
    ensures
        final(s)@ == old(s)@.push(c),
;

// ---------------------------------------------------------------------------
// Characters
// ---------------------------------------------------------------------------

/// The characters with the Unicode property `White_Space`.
pub open spec fn white_space(c: char) -> bool {
    ||| '\u{9}' <= c <= '\u{d}'
    ||| c == ' '
    ||| c == '\u{85}'
    ||| c == '\u{a0}'
    ||| c == '\u{1680}'
    ||| '\u{2000}' <= c <= '\u{200a}'
    ||| c == '\u{2028}'
    ||| c == '\u{2029}'
    ||| c == '\u{202f}'
    ||| c == '\u{205f}'
    ||| c == '\u{3000}'
}

/// Whether `c` is white space.
pub fn is_white_space(c: char) -> (r: bool)
    ensures
        r == white_space(c),
{
    ('\u{9}' <= c && c <= '\u{d}') || c == ' ' || c == '\u{85}' || c == '\u{a0}' || c == '\u{1680}'
        || ('\u{2000}' <= c && c <= '\u{200a}') || c == '\u{2028}' || c == '\u{2029}' || c
        == '\u{202f}' || c == '\u{205f}' || c == '\u{3000}'
}

pub open spec fn ascii_digit(c: char) -> bool {
    '0' <= c <= '9'
}

pub open spec fn ascii_lower(c: char) -> bool {
    'a' <= c <= 'z'
}

pub open spec fn ascii_upper(c: char) -> bool {
    'A' <= c <= 'Z'
}

pub open spec fn ascii_alphanumeric(c: char) -> bool {
    ascii_digit(c) || ascii_lower(c) || ascii_upper(c)
}

/// `c` with an ASCII capital letter made small.
pub open spec fn lower(c: char) -> char {
    if ascii_upper(c) {
        (c as u8 + 32) as char
    } else {
        c
    }
}

/// `c` with an ASCII small letter made capital.
pub open spec fn upper(c: char) -> char {
    if ascii_lower(c) {
        (c as u8 - 32) as char
    } else {
        c
    }
}

pub fn is_ascii_digit(c: char) -> (r: bool)
    ensures
        r == ascii_digit(c),
{
    '0' <= c && c <= '9'
}

pub fn is_ascii_alphanumeric(c: char) -> (r: bool)
    ensures
        r == ascii_alphanumeric(c),
{
    ('0' <= c && c <= '9') || ('a' <= c && c <= 'z') || ('A' <= c && c <= 'Z')
}

pub fn to_lower(c: char) -> (r: char)
    ensures
        r == lower(c),
{
    if 'A' <= c && c <= 'Z' {
        (c as u8 + 32) as char
    } else {
        c
    }
}

pub fn to_upper(c: char) -> (r: char)
    ensures
        r == upper(c),
{
    if 'a' <= c && c <= 'z' {
        (c as u8 - 32) as char
    } else {
        c
    }
}

// ---------------------------------------------------------------------------
// Conversions
// ---------------------------------------------------------------------------

/// The characters of a string.
pub fn chars_of(text: &str) -> (r: Vec<char>)
    ensures
        r@ == text@,
{
    let mut chars: Vec<char> = Vec::new();
    for c in it: text.chars()
        invariant
            it.seq() == text@,
            chars@ == text@.take(it.index() as int),
    {
        chars.push(c);
    }
    chars
}

/// The string with the given characters.
pub fn string_of(chars: &[char]) -> (r: String)
    ensures
        r@ == chars@,
{
    let mut s = String::new();
    for i in 0..chars.len()
        invariant
            s@ == chars@.take(i as int),
    {
        s.push(chars[i]);
    }
    s
}

/// Appends `more` to `s`.
pub fn push_all(s: &mut String, more: &[char])
    ensures
        final(s)@ == old(s)@ + more@,
{
    let ghost before = s@;
    for i in 0..more.len()
        invariant
            s@ == before + more@.take(i as int),
    {
        s.push(more[i]);
    }
}

/// Whether two character slices hold the same characters.
pub fn same(a: &[char], b: &[char]) -> (r: bool)
    ensures
        r == (a@ == b@),
{
    if a.len() != b.len() {
        return false;
    }
    for i in 0..a.len()
        invariant
            a@.len() == b@.len(),
            forall|k: int| 0 <= k < i ==> a@[k] == b@[k],
    {
        if a[i] != b[i] {
            return false;
        }
    }
    proof {
        assert(a@ =~= b@);
    }
    true
}

/// Whether two strings hold the same characters.
pub fn same_str(a: &str, b: &str) -> (r: bool)
    ensures
        r == (a@ == b@),
{
    same(chars_of(a).as_slice(), chars_of(b).as_slice())
}

/// Whether a character slice holds the characters of a string.
pub fn is_str(a: &[char], b: &str) -> (r: bool)
    ensures
        r == (a@ == b@),
{
    same(a, chars_of(b).as_slice())
}

/// The characters that a list of slices shows.
pub open spec fn views(parts: Seq<&[char]>) -> Seq<Seq<char>> {
    Seq::new(parts.len(), |i: int| parts[i]@)
}

/// The characters that a list of strings shows.
pub open spec fn texts(parts: Seq<String>) -> Seq<Seq<char>> {
    Seq::new(parts.len(), |i: int| parts[i]@)
}

/// A text with the ASCII letters small.
pub open spec fn lowered(s: Seq<char>) -> Seq<char> {
    s.map_values(|c: char| lower(c))
}

pub fn lowered_of(s: &[char]) -> (r: Vec<char>)
    ensures
        r@ == lowered(s@),
{
    let mut out: Vec<char> = Vec::new();
    for i in 0..s.len()
        invariant
            out@ == lowered(s@.take(i as int)),
    {
        out.push(to_lower(s[i]));
        proof {
            assert(out@ =~= lowered(s@.take(i + 1)));
        }
    }
    proof {
        assert(s@.take(s@.len() as int) =~= s@);
    }
    out
}

// ---------------------------------------------------------------------------
// Runs of characters
// ---------------------------------------------------------------------------

/// The number of characters at the start of `s` that satisfy `p`.
pub open spec fn prefix_len(s: Seq<char>, p: spec_fn(char) -> bool) -> nat
    decreases s.len(),
{
    if s.len() > 0 && p(s[0]) {
        1 + prefix_len(s.drop_first(), p)
    } else {
        0
    }
}

/// The number of characters at the end of `s` that satisfy `p`.
pub open spec fn suffix_len(s: Seq<char>, p: spec_fn(char) -> bool) -> nat
    decreases s.len(),
{
    if s.len() > 0 && p(s.last()) {
        1 + suffix_len(s.drop_last(), p)
    } else {
        0
    }
}

pub proof fn lemma_prefix_len(s: Seq<char>, p: spec_fn(char) -> bool, n: int)
    requires
        0 <= n <= s.len(),
        forall|k: int| 0 <= k < n ==> p(#[trigger] s[k]),
        n == s.len() || !p(s[n]),
    ensures
        prefix_len(s, p) == n,
    decreases s.len(),
{
    if n > 0 {
        let t = s.drop_first();
        assert forall|k: int| 0 <= k < n - 1 implies p(#[trigger] t[k]) by {
            assert(t[k] == s[k + 1]);
        }
        lemma_prefix_len(t, p, n - 1);
    }
}

pub proof fn lemma_prefix_len_bounds(s: Seq<char>, p: spec_fn(char) -> bool)
    ensures
        prefix_len(s, p) <= s.len(),
        forall|k: int| 0 <= k < prefix_len(s, p) ==> p(#[trigger] s[k]),
        prefix_len(s, p) < s.len() ==> !p(s[prefix_len(s, p) as int]),
    decreases s.len(),
{
    if s.len() > 0 && p(s[0]) {
        let t = s.drop_first();
        lemma_prefix_len_bounds(t, p);
        assert forall|k: int| 0 <= k < prefix_len(s, p) implies p(#[trigger] s[k]) by {
            if k > 0 {
                assert(s[k] == t[k - 1]);
            }
        }
    }
}

pub proof fn lemma_suffix_len(s: Seq<char>, p: spec_fn(char) -> bool, n: int)
    requires
        0 <= n <= s.len(),
        forall|k: int| s.len() - n <= k < s.len() ==> p(#[trigger] s[k]),
        n == s.len() || !p(s[s.len() - n - 1]),
    ensures
        suffix_len(s, p) == n,
    decreases s.len(),
{
    if n > 0 {
        lemma_suffix_len(s.drop_last(), p, n - 1);
    }
}

pub proof fn lemma_suffix_len_bounds(s: Seq<char>, p: spec_fn(char) -> bool)
    ensures
        suffix_len(s, p) <= s.len(),
        forall|k: int| s.len() - suffix_len(s, p) <= k < s.len() ==> p(#[trigger] s[k]),
        suffix_len(s, p) < s.len() ==> !p(s[s.len() - suffix_len(s, p) - 1]),
    decreases s.len(),
{
    if s.len() > 0 && p(s.last()) {
        let t = s.drop_last();
        lemma_suffix_len_bounds(t, p);
        assert forall|k: int| s.len() - suffix_len(s, p) <= k < s.len() implies p(
            #[trigger] s[k],
        ) by {
            if k < s.len() - 1 {
                assert(s[k] == t[k]);
            }
        }
    }
}

/// Satisfied by white space.
pub open spec fn blank() -> spec_fn(char) -> bool {
    |c: char| white_space(c)
}

/// Satisfied by everything but white space.
pub open spec fn visible() -> spec_fn(char) -> bool {
    |c: char| !white_space(c)
}

/// Satisfied by the characters in `set`.
pub open spec fn among(set: Seq<char>) -> spec_fn(char) -> bool {
    |c: char| set.contains(c)
}

/// Satisfied by the characters that are not in `set`.
pub open spec fn outside(set: Seq<char>) -> spec_fn(char) -> bool {
    |c: char| !set.contains(c)
}

/// Whether `set` holds `c`.
pub fn holds(set: &[char], c: char) -> (r: bool)
    ensures
        r == set@.contains(c),
{
    for i in 0..set.len()
        invariant
            forall|k: int| 0 <= k < i ==> set@[k] != c,
    {
        if set[i] == c {
            return true;
        }
    }
    false
}

// ---------------------------------------------------------------------------
// Trimming
// ---------------------------------------------------------------------------

/// `s` without the white space at its start.
pub open spec fn trim_start(s: Seq<char>) -> Seq<char> {
    s.skip(prefix_len(s, blank()) as int)
}

/// `s` without the white space at its end.
pub open spec fn trim_end(s: Seq<char>) -> Seq<char> {
    s.take(s.len() - suffix_len(s, blank()))
}

/// `s` without the white space at either end.
pub open spec fn trim(s: Seq<char>) -> Seq<char> {
    trim_end(trim_start(s))
}

/// `s` without the characters of `set` at its end.
pub open spec fn trim_end_of(s: Seq<char>, set: Seq<char>) -> Seq<char> {
    s.take(s.len() - suffix_len(s, among(set)))
}

/// The number of blank characters at the start.
fn leading_blanks(s: &[char]) -> (n: usize)
    ensures
        n == prefix_len(s@, blank()),
        n <= s@.len(),
{
    let mut n: usize = 0;
    while n < s.len() && is_white_space(s[n])
        invariant
            n <= s@.len(),
            forall|k: int| 0 <= k < n ==> white_space(#[trigger] s@[k]),
        decreases s@.len() - n,
    {
        n = n + 1;
    }
    proof {
        lemma_prefix_len(s@, blank(), n as int);
    }
    n
}

pub fn trimmed_start(s: &[char]) -> (r: &[char])
    ensures
        r@ == trim_start(s@),
{
    let n = leading_blanks(s);
    &s[n..s.len()]
}

pub fn trimmed_end(s: &[char]) -> (r: &[char])
    ensures
        r@ == trim_end(s@),
{
    let mut n: usize = s.len();
    while n > 0 && is_white_space(s[n - 1])
        invariant
            n <= s@.len(),
            forall|k: int| n <= k < s@.len() ==> white_space(#[trigger] s@[k]),
        decreases n,
    {
        n = n - 1;
    }
    proof {
        lemma_suffix_len(s@, blank(), s@.len() - n);
    }
    &s[0..n]
}

pub fn trimmed(s: &[char]) -> (r: &[char])
    ensures
        r@ == trim(s@),
{
    trimmed_end(trimmed_start(s))
}

pub fn trimmed_end_of<'a>(s: &'a [char], set: &[char]) -> (r: &'a [char])
    ensures
        r@ == trim_end_of(s@, set@),
{
    let mut n: usize = s.len();
    while n > 0 && holds(set, s[n - 1])
        invariant
            n <= s@.len(),
            forall|k: int| n <= k < s@.len() ==> set@.contains(#[trigger] s@[k]),
        decreases n,
    {
        n = n - 1;
    }
    proof {
        lemma_suffix_len(s@, among(set@), s@.len() - n);
    }
    &s[0..n]
}

/// Whether `s` holds nothing but white space.
pub open spec fn all_blank(s: Seq<char>) -> bool {
    forall|k: int| 0 <= k < s.len() ==> white_space(#[trigger] s[k])
}

/// What trimming leaves is empty exactly where there was only white space.
pub proof fn lemma_trim_empty(s: Seq<char>)
    ensures
        trim(s).len() == 0 <==> all_blank(s),
        trim_start(s).len() == 0 <==> all_blank(s),
{
    lemma_prefix_len_bounds(s, blank());
    let t = trim_start(s);
    lemma_suffix_len_bounds(t, blank());
    if all_blank(s) {
        lemma_prefix_len(s, blank(), s.len() as int);
    } else {
        let k = choose|k: int| 0 <= k < s.len() && !white_space(#[trigger] s[k]);
        assert(!blank()(s[k]));
        let n = prefix_len(s, blank()) as int;
        assert(n <= k);
        assert(!white_space(t[0]));
        if trim(s).len() == 0 {
            assert(blank()(t[0]));
        }
    }
}

/// What trimming leaves begins and ends with visible characters.
pub proof fn lemma_trim_ends(s: Seq<char>)
    ensures
        trim(s).len() <= s.len(),
        trim(s).len() > 0 ==> !white_space(trim(s)[0]) && !white_space(trim(s).last()),
        forall|c: char| trim(s).contains(c) ==> s.contains(c),
{
    lemma_prefix_len_bounds(s, blank());
    let t = trim_start(s);
    lemma_suffix_len_bounds(t, blank());
    let u = trim(s);
    if u.len() > 0 {
        assert(u[0] == t[0] && t[0] == s[prefix_len(s, blank()) as int]);
        assert(u.last() == t[t.len() - suffix_len(t, blank()) - 1]);
    }
    assert forall|c: char| u.contains(c) implies s.contains(c) by {
        let k = choose|k: int| 0 <= k < u.len() && u[k] == c;
        assert(s[k + prefix_len(s, blank())] == c);
    }
}

/// A text that begins and ends with visible characters stays as it is.
pub proof fn lemma_trim_fixed(s: Seq<char>)
    requires
        s.len() > 0 ==> !white_space(s[0]) && !white_space(s.last()),
    ensures
        trim(s) == s,
{
    lemma_prefix_len(s, blank(), 0);
    assert(trim_start(s) =~= s);
    lemma_suffix_len(s, blank(), 0);
    assert(trim(s) =~= s);
}

// ---------------------------------------------------------------------------
// Searching
// ---------------------------------------------------------------------------

pub open spec fn starts_with(s: Seq<char>, p: Seq<char>) -> bool {
    p.len() <= s.len() && s.take(p.len() as int) == p
}

/// The position of the first occurrence of `p` in `s`.
pub open spec fn find(s: Seq<char>, p: Seq<char>) -> Option<int>
    decreases s.len(),
{
    if starts_with(s, p) {
        Some(0)
    } else if s.len() == 0 {
        None
    } else {
        match find(s.drop_first(), p) {
            Some(i) => Some(i + 1),
            None => None,
        }
    }
}

/// Whether `p` occurs in `s`.
pub open spec fn contains(s: Seq<char>, p: Seq<char>) -> bool {
    find(s, p) is Some
}

/// What is found lies within the text.
pub proof fn lemma_find(s: Seq<char>, p: Seq<char>)
    ensures
        find(s, p) matches Some(i) ==> 0 <= i && i + p.len() <= s.len() && s.subrange(
            i,
            i + p.len(),
        ) == p,
    decreases s.len(),
{
    if starts_with(s, p) {
        assert(s.subrange(0, p.len() as int) =~= s.take(p.len() as int));
    } else if s.len() > 0 {
        lemma_find(s.drop_first(), p);
        if let Some(i) = find(s.drop_first(), p) {
            assert(s.subrange(i + 1, i + 1 + p.len()) =~= s.drop_first().subrange(i, i + p.len()));
        }
    }
}

pub fn has_prefix(s: &[char], p: &[char]) -> (r: bool)
    ensures
        r == starts_with(s@, p@),
{
    if p.len() > s.len() {
        return false;
    }
    same(&s[0..p.len()], p)
}

pub fn found(s: &[char], p: &[char]) -> (r: Option<usize>)
    ensures
        match r {
            Some(i) => find(s@, p@) == Some(i as int) && i + p@.len() <= s@.len(),
            None => find(s@, p@) is None,
        },
{
    let mut i: usize = 0;
    proof {
        assert(s@.skip(0) =~= s@);
    }
    loop
        invariant
            i <= s@.len(),
            find(s@, p@) == match find(s@.skip(i as int), p@) {
                Some(k) => Some(k + i),
                None => None,
            },
        decreases s@.len() - i,
    {
        if has_prefix(&s[i..s.len()], p) {
            return Some(i);
        }
        if i == s.len() {
            return None;
        }
        proof {
            assert(s@.skip(i as int).drop_first() =~= s@.skip(i + 1));
        }
        i = i + 1;
    }
}

// ---------------------------------------------------------------------------
// Splitting
// ---------------------------------------------------------------------------

/// The pieces of `s` between the characters of `set`; one more than there are
/// such characters.
pub open spec fn split_any(s: Seq<char>, set: Seq<char>) -> Seq<Seq<char>>
    decreases s.len(),
{
    let n = prefix_len(s, outside(set)) as int;
    if 0 <= n < s.len() {
        seq![s.take(n)] + split_any(s.skip(n + 1), set)
    } else {
        seq![s]
    }
}

/// The maximal runs of visible characters in `s`.
pub open spec fn words(s: Seq<char>) -> Seq<Seq<char>>
    decreases s.len(),
{
    let t = trim_start(s);
    let n = prefix_len(t, visible()) as int;
    if 0 < n <= t.len() <= s.len() {
        seq![t.take(n)] + words(t.skip(n))
    } else {
        Seq::empty()
    }
}

/// The length of the first line of `s`, its line feed included.
pub open spec fn line_len(s: Seq<char>) -> int {
    let n = prefix_len(s, outside(seq!['\n'])) as int;
    if n < s.len() {
        n + 1
    } else {
        n
    }
}

/// The lines of `s`, each with its line feed.
pub open spec fn lines_inclusive(s: Seq<char>) -> Seq<Seq<char>>
    decreases s.len(),
{
    let n = line_len(s);
    if 0 < n <= s.len() {
        seq![s.take(n)] + lines_inclusive(s.skip(n))
    } else {
        Seq::empty()
    }
}

/// A line without its line feed, and without the carriage return before it.
pub open spec fn without_line_end(line: Seq<char>) -> Seq<char> {
    if line.len() > 0 && line.last() == '\n' {
        let body = line.drop_last();
        if body.len() > 0 && body.last() == '\r' {
            body.drop_last()
        } else {
            body
        }
    } else {
        line
    }
}

/// The lines of `s` without their line ends.
pub open spec fn lines(s: Seq<char>) -> Seq<Seq<char>> {
    lines_inclusive(s).map_values(|line: Seq<char>| without_line_end(line))
}

pub fn pieces<'a>(s: &'a [char], set: &[char]) -> (r: Vec<&'a [char]>)
    ensures
        views(r@) == split_any(s@, set@),
        r@.len() > 0,
{
    let mut out: Vec<&'a [char]> = Vec::new();
    let mut start: usize = 0;
    let mut i: usize = 0;
    proof {
        assert(s@.skip(0) =~= s@);
        assert(views(out@) + split_any(s@, set@) =~= split_any(s@, set@));
    }
    while i < s.len()
        invariant
            start <= i <= s@.len(),
            forall|k: int| start <= k < i ==> !set@.contains(#[trigger] s@[k]),
            views(out@) + split_any(s@.skip(start as int), set@) == split_any(s@, set@),
        decreases s@.len() - i,
    {
        if holds(set, s[i]) {
            proof {
                let rest = s@.skip(start as int);
                assert forall|k: int| 0 <= k < i - start implies outside(set@)(
                    #[trigger] rest[k],
                ) by {
                    assert(rest[k] == s@[start + k]);
                }
                lemma_prefix_len(rest, outside(set@), i - start);
                assert(rest.take(i - start) =~= s@.subrange(start as int, i as int));
                assert(rest.skip(i - start + 1) =~= s@.skip(i + 1));
            }
            let ghost before = out@;
            out.push(&s[start..i]);
            proof {
                assert(views(out@) =~= views(before).push(s@.subrange(start as int, i as int)));
                assert(views(out@) + split_any(s@.skip(i + 1), set@) =~= views(before) + split_any(
                    s@.skip(start as int),
                    set@,
                ));
            }
            start = i + 1;
        }
        i = i + 1;
    }
    let ghost before = out@;
    out.push(&s[start..s.len()]);
    proof {
        let rest = s@.skip(start as int);
        assert forall|k: int| 0 <= k < rest.len() implies outside(set@)(#[trigger] rest[k]) by {
            assert(rest[k] == s@[start + k]);
        }
        lemma_prefix_len(rest, outside(set@), rest.len() as int);
        assert(views(out@) =~= views(before).push(rest));
        assert(views(out@) =~= views(before) + split_any(rest, set@));
    }
    out
}

pub fn words_of(s: &[char]) -> (r: Vec<&[char]>)
    ensures
        views(r@) == words(s@),
{
    let mut out: Vec<&[char]> = Vec::new();
    let mut rest: &[char] = s;
    proof {
        assert(views(out@) + words(s@) =~= words(s@));
    }
    loop
        invariant
            views(out@) + words(rest@) == words(s@),
        decreases rest@.len(),
    {
        let t = trimmed_start(rest);
        let mut n: usize = 0;
        while n < t.len() && !is_white_space(t[n])
            invariant
                n <= t@.len(),
                forall|k: int| 0 <= k < n ==> !white_space(#[trigger] t@[k]),
            decreases t@.len() - n,
        {
            n = n + 1;
        }
        proof {
            lemma_prefix_len(t@, visible(), n as int);
            lemma_prefix_len_bounds(rest@, blank());
        }
        if n == 0 {
            proof {
                assert(words(rest@) =~= Seq::<Seq<char>>::empty());
                assert(views(out@) + words(rest@) =~= views(out@));
            }
            return out;
        }
        let ghost before = out@;
        out.push(&t[0..n]);
        proof {
            assert(t@.take(n as int) =~= t@.subrange(0, n as int));
            assert(t@.skip(n as int) =~= t@.subrange(n as int, t@.len() as int));
            assert(views(out@) =~= views(before).push(t@.take(n as int)));
            assert(views(out@) + words(t@.skip(n as int)) =~= views(before) + words(rest@));
        }
        rest = &t[n..t.len()];
    }
}

pub fn lines_with_ends(s: &[char]) -> (r: Vec<&[char]>)
    ensures
        views(r@) == lines_inclusive(s@),
{
    let mut out: Vec<&[char]> = Vec::new();
    let mut start: usize = 0;
    let mut i: usize = 0;
    proof {
        assert(s@.skip(0) =~= s@);
        assert(views(out@) + lines_inclusive(s@) =~= lines_inclusive(s@));
    }
    while i < s.len()
        invariant
            start <= i <= s@.len(),
            forall|k: int| start <= k < i ==> #[trigger] s@[k] != '\n',
            views(out@) + lines_inclusive(s@.skip(start as int)) == lines_inclusive(s@),
        decreases s@.len() - i,
    {
        if s[i] == '\n' {
            proof {
                let rest = s@.skip(start as int);
                lemma_line_len(rest, i - start);
                assert(rest.take(i - start + 1) =~= s@.subrange(start as int, i + 1));
                assert(rest.skip(i - start + 1) =~= s@.skip(i + 1));
            }
            let ghost before = out@;
            out.push(&s[start..i + 1]);
            proof {
                assert(views(out@) =~= views(before).push(s@.subrange(start as int, i + 1)));
                assert(views(out@) + lines_inclusive(s@.skip(i + 1)) =~= views(before)
                    + lines_inclusive(s@.skip(start as int)));
            }
            start = i + 1;
        }
        i = i + 1;
    }
    let ghost rest = s@.skip(start as int);
    if start < s.len() {
        proof {
            lemma_line_len(rest, rest.len() as int);
        }
        let ghost before = out@;
        out.push(&s[start..s.len()]);
        proof {
            assert(rest.take(rest.len() as int) =~= rest);
            assert(rest.skip(rest.len() as int) =~= Seq::<char>::empty());
            assert(lines_inclusive(Seq::<char>::empty()) =~= Seq::<Seq<char>>::empty());
            assert(views(out@) =~= views(before).push(rest));
            assert(views(out@) =~= views(before) + lines_inclusive(rest));
        }
    } else {
        proof {
            assert(rest =~= Seq::<char>::empty());
            assert(lines_inclusive(rest) =~= Seq::<Seq<char>>::empty());
            assert(views(out@) + lines_inclusive(rest) =~= views(out@));
        }
    }
    out
}

/// A text without separators is one piece.
pub proof fn lemma_split_single(s: Seq<char>, set: Seq<char>)
    requires
        forall|k: int| 0 <= k < s.len() ==> !set.contains(#[trigger] s[k]),
    ensures
        split_any(s, set) == seq![s],
{
    lemma_prefix_len(s, outside(set), s.len() as int);
}

/// The first piece ends at the first separator.
pub proof fn lemma_split_first(first: Seq<char>, sep: char, rest: Seq<char>, set: Seq<char>)
    requires
        forall|k: int| 0 <= k < first.len() ==> !set.contains(#[trigger] first[k]),
        set.contains(sep),
    ensures
        split_any(first + seq![sep] + rest, set) == seq![first] + split_any(rest, set),
{
    let s = first + seq![sep] + rest;
    let n = first.len() as int;
    assert forall|k: int| 0 <= k < n implies outside(set)(#[trigger] s[k]) by {
        assert(s[k] == first[k]);
    }
    assert(s[n] == sep);
    lemma_prefix_len(s, outside(set), n);
    assert(s.take(n) =~= first);
    assert(s.skip(n + 1) =~= rest);
}

/// No piece holds a separator, and every piece holds only what the text holds.
pub proof fn lemma_split_pieces(s: Seq<char>, set: Seq<char>)
    ensures
        split_any(s, set).len() > 0,
        forall|i: int, c: char|
            0 <= i < split_any(s, set).len() && #[trigger] split_any(s, set)[i].contains(c)
                ==> !set.contains(c) && s.contains(c),
    decreases s.len(),
{
    let n = prefix_len(s, outside(set)) as int;
    let parts = split_any(s, set);
    lemma_prefix_len_bounds(s, outside(set));
    if n < s.len() {
        let rest = s.skip(n + 1);
        lemma_split_pieces(rest, set);
        assert forall|i: int, c: char|
            0 <= i < parts.len() && #[trigger] parts[i].contains(c) implies !set.contains(c)
            && s.contains(c) by {
            if i == 0 {
                let k = choose|k: int| 0 <= k < parts[0].len() && parts[0][k] == c;
                assert(outside(set)(s[k]));
            } else {
                assert(parts[i] == split_any(rest, set)[i - 1]);
                let k = choose|k: int| 0 <= k < rest.len() && rest[k] == c;
                assert(s[k + n + 1] == c);
            }
        }
    } else {
        assert forall|i: int, c: char|
            0 <= i < parts.len() && #[trigger] parts[i].contains(c) implies !set.contains(c)
            && s.contains(c) by {
            let k = choose|k: int| 0 <= k < s.len() && s[k] == c;
            assert(outside(set)(s[k]));
        }
    }
}

/// Only a text with a separator falls into more than one piece.
pub proof fn lemma_split_single_inverse(s: Seq<char>, set: Seq<char>)
    requires
        split_any(s, set).len() == 1,
    ensures
        forall|k: int| 0 <= k < s.len() ==> !set.contains(#[trigger] s[k]),
{
    lemma_prefix_len_bounds(s, outside(set));
    let n = prefix_len(s, outside(set)) as int;
    if n < s.len() {
        lemma_split_pieces(s.skip(n + 1), set);
    } else {
        assert forall|k: int| 0 <= k < s.len() implies !set.contains(#[trigger] s[k]) by {
            assert(outside(set)(s[k]));
        }
    }
}

/// Words hold only what the text holds.
pub proof fn lemma_words(s: Seq<char>)
    ensures
        forall|i: int, c: char|
            0 <= i < words(s).len() && #[trigger] words(s)[i].contains(c) ==> s.contains(c),
    decreases s.len(),
{
    let t = trim_start(s);
    let n = prefix_len(t, visible()) as int;
    lemma_prefix_len_bounds(s, blank());
    lemma_prefix_len_bounds(t, visible());
    if 0 < n <= t.len() <= s.len() {
        let rest = t.skip(n);
        lemma_words(rest);
        assert forall|i: int, c: char|
            0 <= i < words(s).len() && #[trigger] words(s)[i].contains(c) implies s.contains(c) by {
            let lead = prefix_len(s, blank()) as int;
            if i == 0 {
                let k = choose|k: int| 0 <= k < words(s)[0].len() && words(s)[0][k] == c;
                assert(s[k + lead] == c);
            } else {
                assert(words(s)[i] == words(rest)[i - 1]);
                let k = choose|k: int| 0 <= k < rest.len() && rest[k] == c;
                assert(s[k + n + lead] == c);
            }
        }
    }
}

/// The first line ends at the first line feed.
pub proof fn lemma_line_len(s: Seq<char>, n: int)
    requires
        0 <= n <= s.len(),
        forall|k: int| 0 <= k < n ==> #[trigger] s[k] != '\n',
        n == s.len() || s[n] == '\n',
    ensures
        line_len(s) == if n < s.len() { n + 1 } else { n },
{
    let set = seq!['\n'];
    assert forall|k: int| 0 <= k < n implies outside(set)(#[trigger] s[k]) by {
        assert(s[k] != '\n');
    }
    if n < s.len() {
        assert(set[0] == s[n]);
    }
    lemma_prefix_len(s, outside(set), n);
}

pub fn line_body(line: &[char]) -> (r: &[char])
    ensures
        r@ == without_line_end(line@),
{
    let n = line.len();
    if n > 0 && line[n - 1] == '\n' {
        if n > 1 && line[n - 2] == '\r' {
            proof {
                assert(line@.drop_last().drop_last() =~= line@.subrange(0, n - 2));
            }
            &line[0..n - 2]
        } else {
            proof {
                assert(line@.drop_last() =~= line@.subrange(0, n - 1));
            }
            &line[0..n - 1]
        }
    } else {
        line
    }
}

pub fn lines_of(s: &[char]) -> (r: Vec<&[char]>)
    ensures
        views(r@) == lines(s@),
{
    let whole = lines_with_ends(s);
    let mut out: Vec<&[char]> = Vec::new();
    for i in 0..whole.len()
        invariant
            views(whole@) == lines_inclusive(s@),
            out@.len() == i,
            forall|k: int|
                0 <= k < i ==> (#[trigger] out@[k])@ == without_line_end(views(whole@)[k]),
    {
        out.push(line_body(whole[i]));
    }
    proof {
        assert(views(out@) =~= lines(s@));
    }
    out
}

// ---------------------------------------------------------------------------
// Joining
// ---------------------------------------------------------------------------

/// The parts one after another with `sep` between them.
pub open spec fn join(parts: Seq<Seq<char>>, sep: Seq<char>) -> Seq<char>
    decreases parts.len(),
{
    if parts.len() == 0 {
        Seq::empty()
    } else if parts.len() == 1 {
        parts[0]
    } else {
        join(parts.drop_last(), sep) + sep + parts.last()
    }
}

pub fn joined(parts: &Vec<&[char]>, sep: &[char]) -> (r: String)
    ensures
        r@ == join(views(parts@), sep@),
{
    let mut out = String::new();
    for i in 0..parts.len()
        invariant
            out@ == join(views(parts@).take(i as int), sep@),
    {
        let ghost all = views(parts@);
        proof {
            assert(all.take(i + 1).drop_last() =~= all.take(i as int));
        }
        if i > 0 {
            push_all(&mut out, sep);
        }
        push_all(&mut out, parts[i]);
        proof {
            assert(out@ =~= join(all.take(i + 1), sep@));
        }
    }
    proof {
        assert(views(parts@).take(parts@.len() as int) =~= views(parts@));
    }
    out
}

/// `n` spaces.
pub open spec fn spaces(n: nat) -> Seq<char> {
    Seq::new(n, |i: int| ' ')
}

pub fn spaces_of(n: usize) -> (r: String)
    ensures
        r@ == spaces(n as nat),
{
    let mut out = String::new();
    for i in 0..n
        invariant
            out@ == spaces(i as nat),
    {
        out.push(' ');
        proof {
            assert(out@ =~= spaces((i + 1) as nat));
        }
    }
    out
}

// ---------------------------------------------------------------------------
// Byte lengths
// ---------------------------------------------------------------------------

/// The number of bytes in the UTF-8 encoding of `s`.
pub open spec fn byte_len(s: Seq<char>) -> nat {
    vstd::utf8::encode_utf8(s).len()
}

/// The number of bytes in the UTF-8 encoding of `c`.
pub open spec fn char_len(c: char) -> nat {
    vstd::utf8::encode_scalar(c as u32).len()
}

pub fn width(c: char) -> (r: usize)
    ensures
        r == char_len(c),
        1 <= r <= 4,
{
    let v = c as u32;
    if v <= 0x7f {
        1
    } else if v <= 0x7ff {
        2
    } else if v <= 0xffff {
        3
    } else {
        4
    }
}

pub proof fn lemma_char_len(c: char)
    ensures
        1 <= char_len(c) <= 4,
{
}

pub proof fn lemma_encode_add(a: Seq<char>, b: Seq<char>)
    ensures
        vstd::utf8::encode_utf8(a + b) == vstd::utf8::encode_utf8(a) + vstd::utf8::encode_utf8(b),
    decreases a.len(),
{
    if a.len() == 0 {
        assert(a + b =~= b);
        assert(vstd::utf8::encode_utf8(a) + vstd::utf8::encode_utf8(b) =~= vstd::utf8::encode_utf8(b));
    } else {
        lemma_encode_add(a.drop_first(), b);
        assert((a + b).drop_first() =~= a.drop_first() + b);
        assert(vstd::utf8::encode_utf8(a + b) =~= vstd::utf8::encode_utf8(a) + vstd::utf8::encode_utf8(b));
    }
}

pub proof fn lemma_byte_len_add(a: Seq<char>, b: Seq<char>)
    ensures
        byte_len(a + b) == byte_len(a) + byte_len(b),
{
    lemma_encode_add(a, b);
}

pub proof fn lemma_byte_len_one(c: char)
    ensures
        byte_len(seq![c]) == char_len(c),
{
    let s = seq![c];
    assert(s.drop_first() =~= Seq::<char>::empty());
    assert(vstd::utf8::encode_utf8(Seq::<char>::empty()).len() == 0);
    assert(vstd::utf8::encode_utf8(s) =~= vstd::utf8::encode_scalar(s[0] as u32) + vstd::utf8::encode_utf8(s.drop_first()));
}

/// Splitting a text splits its bytes.
pub proof fn lemma_byte_len_split(s: Seq<char>, i: int)
    requires
        0 <= i <= s.len(),
    ensures
        byte_len(s) == byte_len(s.take(i)) + byte_len(s.skip(i)),
{
    lemma_byte_len_add(s.take(i), s.skip(i));
    assert(s.take(i) + s.skip(i) =~= s);
}

/// One character further is one encoded character further.
pub proof fn lemma_byte_len_step(s: Seq<char>, i: int)
    requires
        0 <= i < s.len(),
    ensures
        byte_len(s.take(i + 1)) == byte_len(s.take(i)) + char_len(s[i]),
{
    lemma_byte_len_add(s.take(i), seq![s[i]]);
    lemma_byte_len_one(s[i]);
    assert(s.take(i + 1) =~= s.take(i) + seq![s[i]]);
}

pub proof fn lemma_byte_len_monotonic(s: Seq<char>, i: int, j: int)
    requires
        0 <= i <= j <= s.len(),
    ensures
        byte_len(s.take(i)) + (j - i) <= byte_len(s.take(j)),
    decreases j - i,
{
    if i < j {
        lemma_byte_len_step(s, j - 1);
        lemma_byte_len_monotonic(s, i, j - 1);
        lemma_char_len(s[j - 1]);
    }
}

/// The bytes of a piece of a text lie between the bytes before and after it.
pub proof fn lemma_byte_len_subrange(s: Seq<char>, i: int, j: int)
    requires
        0 <= i <= j <= s.len(),
    ensures
        byte_len(s.take(i)) + byte_len(s.subrange(i, j)) == byte_len(s.take(j)),
        byte_len(s.take(j)) <= byte_len(s),
{
    lemma_byte_len_add(s.take(i), s.subrange(i, j));
    assert(s.take(i) + s.subrange(i, j) =~= s.take(j));
    lemma_byte_len_split(s, j);
}

/// The number of bytes in a string.
pub fn str_len(text: &str) -> (r: usize)
    ensures
        r == byte_len(text@),
{
    text.as_bytes().len()
}

pub fn byte_len_of(s: &[char]) -> (r: usize)
    requires
        byte_len(s@) <= usize::MAX,
    ensures
        r == byte_len(s@),
{
    let mut n: usize = 0;
    proof {
        assert(s@.take(0) =~= Seq::<char>::empty());
    }
    for i in 0..s.len()
        invariant
            byte_len(s@) <= usize::MAX,
            n == byte_len(s@.take(i as int)),
    {
        proof {
            lemma_byte_len_step(s@, i as int);
            lemma_byte_len_subrange(s@, 0, i + 1);
        }
        n = n + width(s[i]);
    }
    proof {
        assert(s@.take(s@.len() as int) =~= s@);
    }
    n
}

/// White space at either end is trimmed, and nothing else is.
pub proof fn law_white_space_around_is_trimmed(before: Seq<char>, s: Seq<char>, behind: Seq<char>)
    requires
        all_blank(before),
        all_blank(behind),
        s.len() > 0,
        !white_space(s[0]),
        !white_space(s.last()),
    ensures
        trim(before + s + behind) == s,
{
    let whole = before + s + behind;
    let n = before.len() as int;
    assert forall|k: int| 0 <= k < n implies blank()(#[trigger] whole[k]) by {
        assert(whole[k] == before[k]);
    }
    assert(whole[n] == s[0]);
    lemma_prefix_len(whole, blank(), n);
    let t = s + behind;
    assert(trim_start(whole) =~= t);
    assert forall|k: int| t.len() - behind.len() <= k < t.len() implies blank()(
        #[trigger] t[k],
    ) by {
        assert(t[k] == behind[k - s.len()]);
    }
    assert(t[s.len() - 1] == s.last());
    lemma_suffix_len(t, blank(), behind.len() as int);
    assert(trim(whole) =~= s);
}

/// Letter case is that of ASCII: capital and small letters go with each other, and
/// nothing else changes.
pub proof fn law_letters_have_two_cases(c: char)
    ensures
        'A' <= c <= 'Z' ==> lower(c) as int == c as int + 32 && upper(c) == c,
        'a' <= c <= 'z' ==> upper(c) as int == c as int - 32 && lower(c) == c,
        !('A' <= c <= 'Z' || 'a' <= c <= 'z') ==> lower(c) == c && upper(c) == c,
{
}

} // verus!
