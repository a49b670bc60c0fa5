//! The header line of an Ansible Vault payload: recognising it, and repairing
//! one that is slightly wrong.
//!
//! A header is `$ANSIBLE_VAULT;1.1;AES256`, or `$ANSIBLE_VAULT;1.2;AES256;` and
//! the label of the Vault ID.
use crate::distance;
use crate::text;
use vstd::prelude::*;

verus! {

pub const VAULT_MARKER: &'static str = "$ANSIBLE_VAULT";

pub const COMPACT_MARKER: &'static str = "ANSIBLEVAULT";

pub const CIPHER: &'static str = "AES256";

pub const HEADER_1_1: &'static str = "$ANSIBLE_VAULT;1.1;AES256";

pub const HEADER_1_2: &'static str = "$ANSIBLE_VAULT;1.2;AES256;";

/// The versions of the payload format.
#[derive(Clone, Copy, Debug, PartialEq, Eq, Structural)]
pub enum VaultVersion {
    V11,
    V12,
}

// ---------------------------------------------------------------------------
// What a field resembles
// ---------------------------------------------------------------------------

/// The ASCII digits of a text.
pub open spec fn digits(s: Seq<char>) -> Seq<char> {
    s.filter(|c: char| text::ascii_digit(c))
}

/// The ASCII letters and digits of a text, with the letters capital.
pub open spec fn compact(s: Seq<char>) -> Seq<char> {
    s.filter(|c: char| text::ascii_alphanumeric(c)).map_values(|c: char| text::upper(c))
}

/// The version that the digits of a field spell.
pub open spec fn hinted_version(field: Seq<char>) -> Option<VaultVersion> {
    if digits(field) == "11"@ {
        Some(VaultVersion::V11)
    } else if digits(field) == "12"@ {
        Some(VaultVersion::V12)
    } else {
        None
    }
}

/// Whether a field is at most two edits away from the marker.
pub open spec fn like_marker(field: Seq<char>) -> bool {
    distance::distance(compact(field), COMPACT_MARKER@) <= 2
}

/// Whether a field is at most two edits away from the cipher's name.
pub open spec fn like_cipher(field: Seq<char>) -> bool {
    distance::distance(compact(field), CIPHER@) <= 2
}

fn digits_of(s: &[char]) -> (r: Vec<char>)
    ensures
        r@ == digits(s@),
{
    let mut out: Vec<char> = Vec::new();
    let ghost p = |c: char| text::ascii_digit(c);
    proof {
        reveal(Seq::filter);
        assert(s@.take(0) =~= Seq::<char>::empty());
    }
    for i in 0..s.len()
        invariant
            p == (|c: char| text::ascii_digit(c)),
            out@ == s@.take(i as int).filter(p),
    {
        proof {
            reveal(Seq::filter);
            assert(s@.take(i + 1).drop_last() =~= s@.take(i as int));
        }
        if text::is_ascii_digit(s[i]) {
            out.push(s[i]);
        }
    }
    proof {
        assert(s@.take(s@.len() as int) =~= s@);
    }
    out
}

pub fn compact_token(s: &[char]) -> (r: Vec<char>)
    ensures
        r@ == compact(s@),
{
    let mut out: Vec<char> = Vec::new();
    let ghost p = |c: char| text::ascii_alphanumeric(c);
    let ghost f = |c: char| text::upper(c);
    proof {
        reveal(Seq::filter);
        assert(s@.take(0) =~= Seq::<char>::empty());
        assert(out@ =~= s@.take(0).filter(p).map_values(f));
    }
    for i in 0..s.len()
        invariant
            p == (|c: char| text::ascii_alphanumeric(c)),
            f == (|c: char| text::upper(c)),
            out@ == s@.take(i as int).filter(p).map_values(f),
    {
        let ghost before = out@;
        proof {
            reveal(Seq::filter);
            assert(s@.take(i + 1).drop_last() =~= s@.take(i as int));
        }
        if text::is_ascii_alphanumeric(s[i]) {
            out.push(text::to_upper(s[i]));
        }
        proof {
            assert(out@ =~= s@.take(i + 1).filter(p).map_values(f));
        }
    }
    proof {
        assert(s@.take(s@.len() as int) =~= s@);
    }
    out
}

pub fn version_hint(field: &[char]) -> (r: Option<VaultVersion>)
    ensures
        r == hinted_version(field@),
{
    let found = digits_of(field);
    if text::is_str(found.as_slice(), "11") {
        Some(VaultVersion::V11)
    } else if text::is_str(found.as_slice(), "12") {
        Some(VaultVersion::V12)
    } else {
        None
    }
}

proof fn lemma_compact_is_ascii(s: Seq<char>)
    ensures
        forall|i: int| 0 <= i < compact(s).len() ==> (#[trigger] compact(s)[i]) as u32 <= 0x7f,
    decreases s.len(),
{
    reveal(Seq::filter);
    if s.len() > 0 {
        let p = |c: char| text::ascii_alphanumeric(c);
        let f = |c: char| text::upper(c);
        lemma_compact_is_ascii(s.drop_last());
        let rest = s.drop_last().filter(p).map_values(f);
        if text::ascii_alphanumeric(s.last()) {
            assert(compact(s) =~= rest.push(text::upper(s.last())));
            assert forall|i: int| 0 <= i < compact(s).len() implies (#[trigger] compact(s)[i])
                as u32 <= 0x7f by {
                if i < rest.len() {
                    assert(compact(s)[i] == compact(s.drop_last())[i]);
                }
            }
        } else {
            assert(compact(s) =~= rest);
        }
    }
}

pub fn resembles_marker(field: &[char]) -> (r: bool)
    ensures
        r == like_marker(field@),
{
    let found = compact_token(field);
    let expected = text::chars_of(COMPACT_MARKER);
    proof {
        reveal_strlit("ANSIBLEVAULT");
        lemma_compact_is_ascii(field@);
    }
    distance::ascii_distance_at_most(found.as_slice(), expected.as_slice(), 2)
}

pub fn resembles_cipher(field: &[char]) -> (r: bool)
    ensures
        r == like_cipher(field@),
{
    let found = compact_token(field);
    let expected = text::chars_of(CIPHER);
    proof {
        reveal_strlit("AES256");
        lemma_compact_is_ascii(field@);
    }
    distance::ascii_distance_at_most(found.as_slice(), expected.as_slice(), 2)
}

// ---------------------------------------------------------------------------
// Fields
// ---------------------------------------------------------------------------

/// The fields of a header, as they stand.
pub open spec fn fields(header: Seq<char>) -> Seq<Seq<char>> {
    text::split_any(header, seq![';'])
}

/// The text before and behind the first of the characters in `set`.
pub open spec fn split_once(s: Seq<char>, set: Seq<char>) -> Option<(Seq<char>, Seq<char>)> {
    let n = text::prefix_len(s, text::outside(set)) as int;
    if n < s.len() {
        Some((s.take(n), s.skip(n + 1)))
    } else {
        None
    }
}

/// The fields of a header whose separators may be wrong, before they are
/// trimmed. Two semicolons or more settle the separator. Otherwise colons and
/// bars separate too, and where there is none of these, white space does.
pub open spec fn raw_fields(header: Seq<char>) -> Seq<Seq<char>> {
    let parts = fields(header);
    let loose = text::split_any(header, seq![';', ':', '|']);
    if parts.len() == 3 {
        match split_once(parts[2], seq![':', '|']) {
            Some((cipher, vault_id)) => if like_cipher(cipher) && text::trim(vault_id).len() > 0 {
                seq![parts[0], parts[1], cipher, vault_id]
            } else {
                parts
            },
            None => parts,
        }
    } else if parts.len() > 3 {
        parts
    } else if loose.len() > 1 {
        loose
    } else {
        text::words(header)
    }
}

/// The fields of a header whose separators may be wrong.
pub open spec fn repaired(header: Seq<char>) -> Seq<Seq<char>> {
    raw_fields(text::trim(header)).map_values(|field: Seq<char>| text::trim(field))
}

fn split_once_of<'a>(s: &'a [char], set: &[char]) -> (r: Option<(&'a [char], &'a [char])>)
    ensures
        match r {
            Some((before, behind)) => split_once(s@, set@) == Some((before@, behind@)),
            None => split_once(s@, set@) is None,
        },
{
    let mut n: usize = 0;
    while n < s.len() && !text::holds(set, s[n])
        invariant
            n <= s@.len(),
            forall|k: int| 0 <= k < n ==> !set@.contains(#[trigger] s@[k]),
        decreases s@.len() - n,
    {
        n = n + 1;
    }
    proof {
        text::lemma_prefix_len(s@, text::outside(set@), n as int);
    }
    if n < s.len() {
        proof {
            assert(s@.subrange(0, n as int) =~= s@.take(n as int));
            assert(s@.subrange(n + 1, s@.len() as int) =~= s@.skip(n + 1));
        }
        Some((&s[0..n], &s[n + 1..s.len()]))
    } else {
        None
    }
}

/// The fields of a header, split at its semicolons.
pub fn fields_of(header: &[char]) -> (r: Vec<&[char]>)
    ensures
        text::views(r@) == fields(header@),
        r@.len() > 0,
{
    let semicolon: [char; 1] = [';'];
    proof {
        assert(semicolon@ =~= seq![';']);
    }
    text::pieces(header, semicolon.as_slice())
}

fn raw_fields_of(header: &[char]) -> (r: Vec<&[char]>)
    ensures
        text::views(r@) == raw_fields(header@),
{
    let any: [char; 3] = [';', ':', '|'];
    let inner: [char; 2] = [':', '|'];
    proof {
        assert(any@ =~= seq![';', ':', '|']);
        assert(inner@ =~= seq![':', '|']);
    }
    let parts = fields_of(header);
    let ghost shown = text::views(parts@);
    if parts.len() == 3 {
        match split_once_of(parts[2], inner.as_slice()) {
            Some((cipher, vault_id)) => {
                if resembles_cipher(cipher) && text::trimmed(vault_id).len() > 0 {
                    let mut out: Vec<&[char]> = Vec::new();
                    out.push(parts[0]);
                    out.push(parts[1]);
                    out.push(cipher);
                    out.push(vault_id);
                    proof {
                        assert(text::views(out@) =~= seq![
                            shown[0],
                            shown[1],
                            cipher@,
                            vault_id@,
                        ]);
                    }
                    out
                } else {
                    parts
                }
            },
            None => parts,
        }
    } else if parts.len() > 3 {
        parts
    } else {
        let loose = text::pieces(header, any.as_slice());
        if loose.len() > 1 {
            loose
        } else {
            text::words_of(header)
        }
    }
}

/// The fields of a header whose separators may be wrong, each trimmed.
pub fn repair_fields(header: &[char]) -> (r: Vec<&[char]>)
    ensures
        text::views(r@) == repaired(header@),
{
    let raw = raw_fields_of(text::trimmed(header));
    let mut out: Vec<&[char]> = Vec::new();
    for i in 0..raw.len()
        invariant
            out@.len() == i,
            forall|k: int| 0 <= k < i ==> (#[trigger] out@[k])@ == text::trim(raw@[k]@),
    {
        out.push(text::trimmed(raw[i]));
    }
    proof {
        let shown = text::views(raw@);
        assert(text::views(out@) =~= shown.map_values(|field: Seq<char>| text::trim(field)));
    }
    out
}

// ---------------------------------------------------------------------------
// Repair
// ---------------------------------------------------------------------------

/// How many of the first three fields tell what they are meant to be.
pub open spec fn confidence(parts: Seq<Seq<char>>) -> int {
    (if like_marker(parts[0]) {
        1int
    } else {
        0
    }) + (if hinted_version(parts[1]) is Some {
        1int
    } else {
        0
    }) + (if like_cipher(parts[2]) {
        1int
    } else {
        0
    })
}

/// The header that a line was meant to be, where at least two of its first
/// three fields tell. The label of a Vault ID is kept; none is made up.
pub open spec fn canonical(header: Seq<char>) -> Option<Seq<char>> {
    let parts = repaired(header);
    if parts.len() != 3 && parts.len() != 4 {
        None
    } else if confidence(parts) < 2 {
        None
    } else if parts.len() == 4 {
        if parts[3].len() == 0 {
            None
        } else {
            Some(HEADER_1_2@ + parts[3])
        }
    } else if hinted_version(parts[1]) == Some(VaultVersion::V12) {
        None
    } else {
        Some(HEADER_1_1@)
    }
}

pub fn canonical_chars(header: &[char]) -> (r: Option<String>)
    ensures
        match r {
            Some(line) => canonical(header@) == Some(line@),
            None => canonical(header@) is None,
        },
{
    let parts = repair_fields(header);
    let ghost shown = text::views(parts@);
    if parts.len() != 3 && parts.len() != 4 {
        return None;
    }
    let marker = resembles_marker(parts[0]);
    let version = version_hint(parts[1]);
    let cipher = resembles_cipher(parts[2]);
    proof {
        assert(shown[0] == parts@[0]@ && shown[1] == parts@[1]@ && shown[2] == parts@[2]@);
    }
    if !((marker && version.is_some()) || (marker && cipher) || (version.is_some() && cipher)) {
        return None;
    }
    if parts.len() == 4 {
        if parts[3].len() == 0 {
            return None;
        }
        let mut line = HEADER_1_2.to_string();
        text::push_all(&mut line, parts[3]);
        return Some(line);
    }
    match version {
        Some(VaultVersion::V12) => None,
        _ => Some(HEADER_1_1.to_string()),
    }
}

/// The header that a line was meant to be, if that can be told.
pub fn canonical_header(header: &str) -> (r: Option<String>)
    ensures
        match r {
            Some(line) => canonical(header@) == Some(line@),
            None => canonical(header@) is None,
        },
{
    canonical_chars(text::chars_of(header).as_slice())
}

// ---------------------------------------------------------------------------
// Recognition
// ---------------------------------------------------------------------------

/// Whether two texts differ at most in the case of ASCII letters.
pub open spec fn same_letters(a: Seq<char>, b: Seq<char>) -> bool {
    a.len() == b.len() && forall|i: int|
        0 <= i < a.len() ==> text::lower(#[trigger] a[i]) == text::lower(b[i])
}

/// Whether a field is the marker but for letter case, or but for one byte.
pub open spec fn nearly_marker(field: Seq<char>) -> bool {
    same_letters(field, VAULT_MARKER@) || distance::one_edit(
        vstd::utf8::encode_utf8(field),
        vstd::utf8::encode_utf8(VAULT_MARKER@),
    )
}

/// The first field of a header, if there is one.
pub open spec fn first_field(header: Seq<char>) -> Seq<char> {
    if repaired(header).len() > 0 {
        repaired(header)[0]
    } else {
        Seq::empty()
    }
}

/// Whether the first line of a file shows that the file is meant to be a Vault
/// payload, though perhaps a damaged one.
pub open spec fn candidate_line(line: Seq<char>) -> bool {
    let header = text::trim(line);
    let marker = first_field(header);
    ||| marker == VAULT_MARKER@
    ||| nearly_marker(marker)
    ||| (text::starts_with(marker, seq!['$']) || like_marker(marker)) && canonical(header) is Some
}

/// A header that is exactly as it has to be.
pub open spec fn valid_header(header: Seq<char>) -> bool {
    let parts = fields(header);
    ||| parts.len() == 3 && parts[0] == VAULT_MARKER@ && parts[1] == "1.1"@ && parts[2] == CIPHER@
    ||| parts.len() == 4 && parts[0] == VAULT_MARKER@ && parts[1] == "1.2"@ && parts[2] == CIPHER@
        && parts[3].len() > 0
}

fn eq_ignore_ascii_case(a: &[char], b: &[char]) -> (r: bool)
    ensures
        r == same_letters(a@, b@),
{
    if a.len() != b.len() {
        return false;
    }
    for i in 0..a.len()
        invariant
            a@.len() == b@.len(),
            forall|k: int| 0 <= k < i ==> text::lower(#[trigger] a@[k]) == text::lower(b@[k]),
    {
        if text::to_lower(a[i]) != text::to_lower(b[i]) {
            return false;
        }
    }
    true
}

pub fn safely_fixable_marker(field: &[char]) -> (r: bool)
    ensures
        r == nearly_marker(field@),
{
    let marker = text::chars_of(VAULT_MARKER);
    if eq_ignore_ascii_case(field, marker.as_slice()) {
        return true;
    }
    let held = text::string_of(field);
    distance::one_edit_apart(held.as_str().as_bytes(), VAULT_MARKER.as_bytes())
}

pub fn full_file_candidate(line: &[char]) -> (r: bool)
    ensures
        r == candidate_line(line@),
{
    let header = text::trimmed(line);
    let parts = repair_fields(header);
    let ghost shown = text::views(parts@);
    let empty: Vec<char> = Vec::new();
    let marker: &[char] = if parts.len() > 0 {
        parts[0]
    } else {
        empty.as_slice()
    };
    proof {
        if shown.len() > 0 {
            assert(shown[0] == parts@[0]@);
        } else {
            assert(empty@ =~= Seq::<char>::empty());
        }
        assert(marker@ == first_field(header@));
    }
    let dollar: [char; 1] = ['$'];
    proof {
        assert(dollar@ =~= seq!['$']);
    }
    text::is_str(marker, VAULT_MARKER) || safely_fixable_marker(marker) || ((text::has_prefix(
        marker,
        dollar.as_slice(),
    ) || resembles_marker(marker)) && canonical_chars(header).is_some())
}

// ---------------------------------------------------------------------------
// Laws
// ---------------------------------------------------------------------------

proof fn lemma_literals()
    ensures
        VAULT_MARKER@ == seq!['$', 'A', 'N', 'S', 'I', 'B', 'L', 'E', '_', 'V', 'A', 'U', 'L', 'T'],
        HEADER_1_1@ == VAULT_MARKER@ + seq![';'] + ("1.1"@ + seq![';'] + CIPHER@),
        "1.1"@ == seq!['1', '.', '1'],
        "1.2"@ == seq!['1', '.', '2'],
        CIPHER@ == seq!['A', 'E', 'S', '2', '5', '6'],
        COMPACT_MARKER@ == seq!['A', 'N', 'S', 'I', 'B', 'L', 'E', 'V', 'A', 'U', 'L', 'T'],
        forall|id: Seq<char>| #[trigger]
            (HEADER_1_2@ + id) == VAULT_MARKER@ + seq![';'] + ("1.2"@ + seq![';'] + (CIPHER@ + seq![
                ';',
            ] + id)),
{
    reveal_strlit("$ANSIBLE_VAULT");
    reveal_strlit("$ANSIBLE_VAULT;1.1;AES256");
    reveal_strlit("$ANSIBLE_VAULT;1.2;AES256;");
    reveal_strlit("1.1");
    reveal_strlit("1.2");
    reveal_strlit("AES256");
    reveal_strlit("ANSIBLEVAULT");
    assert(HEADER_1_1@ =~= VAULT_MARKER@ + seq![';'] + ("1.1"@ + seq![';'] + CIPHER@));
    assert forall|id: Seq<char>| #[trigger]
        (HEADER_1_2@ + id) == VAULT_MARKER@ + seq![';'] + ("1.2"@ + seq![';'] + (CIPHER@ + seq![';']
            + id)) by {
        assert(HEADER_1_2@ + id =~= VAULT_MARKER@ + seq![';'] + ("1.2"@ + seq![';'] + (CIPHER@
            + seq![';'] + id)));
    }
}

proof fn lemma_own_names()
    ensures
        like_marker(VAULT_MARKER@),
        like_cipher(CIPHER@),
        hinted_version("1.1"@) == Some(VaultVersion::V11),
{
    lemma_literals();
    reveal_strlit("11");
    let p = |c: char| text::ascii_alphanumeric(c);
    let m = VAULT_MARKER@;
    let kept = seq!['A', 'N', 'S', 'I', 'B', 'L', 'E', 'V', 'A', 'U', 'L', 'T'];
    let a = seq!['$', 'A', 'N', 'S', 'I', 'B', 'L', 'E'];
    let b = seq!['_', 'V', 'A', 'U', 'L', 'T'];
    assert(m =~= a + b);
    Seq::filter_distributes_over_add(a, b, p);
    assert(a.filter(p) =~= seq!['A', 'N', 'S', 'I', 'B', 'L', 'E']) by {
        lemma_filter_prepared(a, p);
    }
    assert(b.filter(p) =~= seq!['V', 'A', 'U', 'L', 'T']) by {
        lemma_filter_prepared(b, p);
    }
    assert(m.filter(p) =~= kept);
    assert(compact(m) =~= COMPACT_MARKER@);
    distance::law_distance_zero(compact(m), COMPACT_MARKER@);
    let c = CIPHER@;
    lemma_filter_all(c, p);
    assert(compact(c) =~= c);
    distance::law_distance_zero(compact(c), c);
    let q = |c: char| text::ascii_digit(c);
    let v = "1.1"@;
    lemma_filter_push(seq!['1', '.'], '1', q);
    lemma_filter_push(seq!['1'], '.', q);
    lemma_filter_all(seq!['1'], q);
    assert(v =~= seq!['1', '.'].push('1'));
    assert(seq!['1', '.'] =~= seq!['1'].push('.'));
    assert(digits(v) =~= "11"@);
}

proof fn lemma_filter_push(s: Seq<char>, c: char, p: spec_fn(char) -> bool)
    ensures
        s.push(c).filter(p) == if p(c) {
            s.filter(p).push(c)
        } else {
            s.filter(p)
        },
{
    reveal(Seq::filter);
    assert(s.push(c).drop_last() =~= s);
}

proof fn lemma_filter_all(s: Seq<char>, p: spec_fn(char) -> bool)
    requires
        forall|k: int| 0 <= k < s.len() ==> p(#[trigger] s[k]),
    ensures
        s.filter(p) == s,
    decreases s.len(),
{
    reveal(Seq::filter);
    if s.len() > 0 {
        lemma_filter_all(s.drop_last(), p);
        assert(s =~= s.drop_last().push(s.last()));
    }
}

/// Filtering drops a first element that does not satisfy the predicate and
/// keeps the others where all of them do.
proof fn lemma_filter_prepared(s: Seq<char>, p: spec_fn(char) -> bool)
    requires
        s.len() > 0,
        !p(s[0]),
        forall|k: int| 0 < k < s.len() ==> p(#[trigger] s[k]),
    ensures
        s.filter(p) == s.skip(1),
{
    let first = seq![s[0]];
    let rest = s.skip(1);
    assert(s =~= first + rest);
    Seq::filter_distributes_over_add(first, rest, p);
    lemma_filter_push(Seq::empty(), s[0], p);
    assert(first =~= Seq::<char>::empty().push(s[0]));
    reveal(Seq::filter);
    assert(Seq::<char>::empty().filter(p) =~= Seq::<char>::empty());
    lemma_filter_all(rest, p);
    assert(s.filter(p) =~= rest);
}

/// The fields of the header without a Vault ID.
proof fn lemma_fields_1_1()
    ensures
        fields(HEADER_1_1@) == seq![VAULT_MARKER@, "1.1"@, CIPHER@],
{
    lemma_literals();
    let set = seq![';'];
    assert(set.contains(set[0]));
    text::lemma_split_first(VAULT_MARKER@, ';', "1.1"@ + seq![';'] + CIPHER@, set);
    text::lemma_split_first("1.1"@, ';', CIPHER@, set);
    text::lemma_split_single(CIPHER@, set);
    assert(fields(HEADER_1_1@) =~= seq![VAULT_MARKER@, "1.1"@, CIPHER@]);
}

/// The fields of a header with a Vault ID.
proof fn lemma_fields_1_2(id: Seq<char>)
    requires
        !id.contains(';'),
    ensures
        fields(HEADER_1_2@ + id) == seq![VAULT_MARKER@, "1.2"@, CIPHER@, id],
{
    lemma_literals();
    let set = seq![';'];
    assert(set.contains(set[0]));
    let tail = CIPHER@ + seq![';'] + id;
    text::lemma_split_first(VAULT_MARKER@, ';', "1.2"@ + seq![';'] + tail, set);
    text::lemma_split_first("1.2"@, ';', tail, set);
    text::lemma_split_first(CIPHER@, ';', id, set);
    assert forall|k: int| 0 <= k < id.len() implies !set.contains(#[trigger] id[k]) by {
        assert(id.contains(id[k]));
    }
    text::lemma_split_single(id, set);
    assert(fields(HEADER_1_2@ + id) =~= seq![VAULT_MARKER@, "1.2"@, CIPHER@, id]);
}

/// A repaired field holds no semicolon, and nothing that the header lacks.
pub proof fn lemma_repaired_fields(header: Seq<char>, i: int)
    requires
        0 <= i < repaired(header).len(),
    ensures
        !repaired(header)[i].contains(';'),
        repaired(header)[i].len() > 0 ==> !text::white_space(repaired(header)[i][0])
            && !text::white_space(repaired(header)[i].last()),
{
    let h = text::trim(header);
    let parts = fields(h);
    let raw = raw_fields(h)[i];
    let set = seq![';'];
    let any = seq![';', ':', '|'];
    let inner = seq![':', '|'];
    assert(set.contains(set[0]));
    assert(any.contains(any[0]));
    text::lemma_split_pieces(h, set);
    text::lemma_split_pieces(h, any);
    text::lemma_words(h);
    text::lemma_trim_ends(raw);
    if raw.contains(';') {
        if parts.len() == 3 {
            match split_once(parts[2], inner) {
                Some((cipher, vault_id)) => {
                    text::lemma_prefix_len_bounds(parts[2], text::outside(inner));
                    let n = text::prefix_len(parts[2], text::outside(inner)) as int;
                    if like_cipher(cipher) && text::trim(vault_id).len() > 0 {
                        if i == 2 {
                            let k = choose|k: int| 0 <= k < cipher.len() && cipher[k] == ';';
                            assert(parts[2][k] == ';');
                            assert(parts[2].contains(';'));
                        } else if i == 3 {
                            let k = choose|k: int| 0 <= k < vault_id.len() && vault_id[k] == ';';
                            assert(parts[2][k + n + 1] == ';');
                            assert(parts[2].contains(';'));
                        } else {
                            assert(parts[i].contains(';'));
                        }
                    } else {
                        assert(parts[i].contains(';'));
                    }
                },
                None => {
                    assert(parts[i].contains(';'));
                },
            }
        } else if parts.len() > 3 {
            assert(parts[i].contains(';'));
        } else {
            let loose = text::split_any(h, any);
            if loose.len() > 1 {
                assert(loose[i].contains(';'));
            } else {
                text::lemma_split_single_inverse(h, any);
                assert(text::words(h)[i].contains(';'));
                assert(h.contains(';'));
                let k = choose|k: int| 0 <= k < h.len() && h[k] == ';';
                assert(any.contains(h[k]));
            }
        }
        assert(false);
    }
}

/// A repaired header is valid.
pub proof fn law_canonical_header_is_valid(header: Seq<char>)
    requires
        canonical(header) is Some,
    ensures
        valid_header(canonical(header)->0),
{
    let parts = repaired(header);
    lemma_fields_1_1();
    if parts.len() == 4 {
        lemma_repaired_fields(header, 3);
        lemma_fields_1_2(parts[3]);
    }
}

/// A valid header without blanks at its end is its own repair.
pub proof fn law_valid_header_is_canonical(header: Seq<char>)
    requires
        valid_header(header),
        text::trim(header) == header,
        text::trim(fields(header)[fields(header).len() - 1]) == fields(header)[fields(header).len()
            - 1],
    ensures
        canonical(header) == Some(header),
{
    let parts = fields(header);
    lemma_literals();
    lemma_own_names();
    lemma_join_fields(header);
    let set = seq![';'];
    let inner = seq![':', '|'];
    text::lemma_trim_fixed(VAULT_MARKER@);
    text::lemma_trim_fixed("1.1"@);
    text::lemma_trim_fixed("1.2"@);
    text::lemma_trim_fixed(CIPHER@);
    if parts.len() == 3 {
        assert forall|k: int| 0 <= k < parts[2].len() implies text::outside(inner)(
            #[trigger] parts[2][k],
        ) by {}
        text::lemma_prefix_len(parts[2], text::outside(inner), parts[2].len() as int);
        assert(raw_fields(header) == parts);
        assert(repaired(header) =~= seq![VAULT_MARKER@, "1.1"@, CIPHER@]);
        assert(header =~= HEADER_1_1@);
    } else {
        assert(raw_fields(header) == parts);
        assert(repaired(header) =~= seq![VAULT_MARKER@, "1.2"@, CIPHER@, parts[3]]);
        assert(header =~= HEADER_1_2@ + parts[3]);
    }
}

/// A header with more than one field is its first field, a semicolon and the
/// other fields.
proof fn lemma_cut_field(header: Seq<char>) -> (rest: Seq<char>)
    requires
        fields(header).len() > 1,
    ensures
        header == fields(header)[0] + seq![';'] + rest,
        fields(rest) == fields(header).skip(1),
{
    let set = seq![';'];
    let n = text::prefix_len(header, text::outside(set)) as int;
    text::lemma_prefix_len_bounds(header, text::outside(set));
    let rest = header.skip(n + 1);
    assert(set.contains(header[n]));
    assert(header[n] == ';');
    assert(header =~= header.take(n) + seq![';'] + rest);
    assert(fields(rest) =~= fields(header).skip(1));
    rest
}

/// A header is its fields with semicolons between them.
proof fn lemma_join_fields(header: Seq<char>)
    ensures
        fields(header).len() == 3 ==> header == fields(header)[0] + seq![';'] + (fields(header)[1]
            + seq![';'] + fields(header)[2]),
        fields(header).len() == 4 ==> header == fields(header)[0] + seq![';'] + (fields(header)[1]
            + seq![';'] + (fields(header)[2] + seq![';'] + fields(header)[3])),
{
    if fields(header).len() == 3 || fields(header).len() == 4 {
        let second = lemma_cut_field(header);
        let third = lemma_cut_field(second);
        assert(fields(second)[0] == fields(header)[1]);
        assert(fields(third)[0] == fields(header)[2]);
        if fields(header).len() == 4 {
            let fourth = lemma_cut_field(third);
            lemma_single_field(fourth);
            assert(fields(fourth)[0] == fields(header)[3]);
        } else {
            lemma_single_field(third);
        }
    }
}

proof fn lemma_single_field(header: Seq<char>)
    requires
        fields(header).len() == 1,
    ensures
        fields(header) == seq![header],
{
    text::lemma_split_single_inverse(header, seq![';']);
    text::lemma_split_single(header, seq![';']);
}

/// Repairing a repaired header changes nothing.
pub proof fn law_canonical_is_idempotent(header: Seq<char>)
    requires
        canonical(header) is Some,
    ensures
        canonical(canonical(header)->0) == canonical(header),
{
    let parts = repaired(header);
    let line = canonical(header)->0;
    lemma_literals();
    lemma_fields_1_1();
    law_canonical_header_is_valid(header);
    text::lemma_trim_fixed(CIPHER@);
    text::lemma_trim_fixed(HEADER_1_1@);
    if parts.len() == 4 {
        lemma_repaired_fields(header, 3);
        lemma_fields_1_2(parts[3]);
        text::lemma_trim_fixed(parts[3]);
        assert(line[0] == '$');
        assert(line.last() == parts[3].last());
        text::lemma_trim_fixed(line);
    }
    law_valid_header_is_canonical(line);
}

/// Repair keeps the label of the Vault ID, and makes up none where a 1.2
/// header has lost it.
pub proof fn law_vault_id_is_kept(header: Seq<char>)
    ensures
        canonical(header) matches Some(line) ==> if repaired(header).len() == 4 {
            fields(line).len() == 4 && fields(line)[3] == repaired(header)[3]
        } else {
            fields(line).len() == 3
        },
        repaired(header).len() == 3 && hinted_version(repaired(header)[1]) == Some(
            VaultVersion::V12,
        ) ==> canonical(header) is None,
{
    if canonical(header) is Some {
        lemma_fields_1_1();
        if repaired(header).len() == 4 {
            lemma_repaired_fields(header, 3);
            lemma_fields_1_2(repaired(header)[3]);
        }
    }
}

/// A header that is repaired from one line is one line, and ends with a visible
/// character.
pub proof fn lemma_canonical_is_one_line(header: Seq<char>)
    requires
        canonical(header) is Some,
        !header.contains('\n'),
    ensures
        !canonical(header)->0.contains('\n'),
        canonical(header)->0.len() > 0,
        !text::white_space(canonical(header)->0.last()),
{
    reveal_strlit("$ANSIBLE_VAULT;1.1;AES256");
    reveal_strlit("$ANSIBLE_VAULT;1.2;AES256;");
    let line = canonical(header)->0;
    let parts = repaired(header);
    if parts.len() == 4 {
        lemma_repaired_fields(header, 3);
        lemma_repaired_holds(header, 3);
        if line.contains('\n') {
            let k = choose|k: int| 0 <= k < line.len() && line[k] == '\n';
            let n = HEADER_1_2@.len() as int;
            if k >= n {
                assert(parts[3][k - n] == '\n');
                assert(parts[3].contains('\n'));
            }
        }
    }
}

/// A repaired header begins with a visible character.
pub proof fn lemma_canonical_begins_visibly(header: Seq<char>)
    requires
        canonical(header) is Some,
    ensures
        canonical(header)->0.len() > 0,
        !text::white_space(canonical(header)->0[0]),
{
    reveal_strlit("$ANSIBLE_VAULT;1.1;AES256");
    reveal_strlit("$ANSIBLE_VAULT;1.2;AES256;");
    assert(canonical(header)->0[0] == '$');
}

/// Where nothing is shown there is nothing to repair.
pub proof fn lemma_canonical_of_something(header: Seq<char>)
    requires
        canonical(header) is Some,
    ensures
        header.len() > 0,
{
    if header.len() == 0 {
        text::lemma_trim_fixed(header);
        text::lemma_split_single(header, seq![';']);
        text::lemma_split_single(header, seq![';', ':', '|']);
        text::lemma_trim_empty(header);
        assert(text::words(header) =~= Seq::<Seq<char>>::empty());
    }
}

/// A repaired field holds nothing that the header lacks.
proof fn lemma_repaired_holds(header: Seq<char>, i: int)
    requires
        0 <= i < repaired(header).len(),
    ensures
        forall|c: char| repaired(header)[i].contains(c) ==> header.contains(c),
{
    let h = text::trim(header);
    let parts = fields(h);
    let raw = raw_fields(h)[i];
    let inner = seq![':', '|'];
    text::lemma_split_pieces(h, seq![';']);
    text::lemma_split_pieces(h, seq![';', ':', '|']);
    text::lemma_words(h);
    text::lemma_trim_ends(raw);
    text::lemma_trim_ends(header);
    assert forall|c: char| repaired(header)[i].contains(c) implies header.contains(c) by {
        assert(raw.contains(c));
        if parts.len() == 3 {
            match split_once(parts[2], inner) {
                Some((cipher, vault_id)) => {
                    text::lemma_prefix_len_bounds(parts[2], text::outside(inner));
                    let n = text::prefix_len(parts[2], text::outside(inner)) as int;
                    if like_cipher(cipher) && text::trim(vault_id).len() > 0 {
                        if i == 2 {
                            let k = choose|k: int| 0 <= k < cipher.len() && cipher[k] == c;
                            assert(parts[2][k] == c);
                            assert(parts[2].contains(c));
                        } else if i == 3 {
                            let k = choose|k: int| 0 <= k < vault_id.len() && vault_id[k] == c;
                            assert(parts[2][k + n + 1] == c);
                            assert(parts[2].contains(c));
                        } else {
                            assert(parts[i].contains(c));
                        }
                    } else {
                        assert(parts[i].contains(c));
                    }
                },
                None => {
                    assert(parts[i].contains(c));
                },
            }
        } else if parts.len() > 3 {
            assert(parts[i].contains(c));
        } else if text::split_any(h, seq![';', ':', '|']).len() > 1 {
            assert(text::split_any(h, seq![';', ':', '|'])[i].contains(c));
        } else {
            assert(text::words(h)[i].contains(c));
        }
        assert(h.contains(c));
    }
}

/// Trimming a text that begins with visible characters keeps them.
proof fn lemma_trim_keeps(s: Seq<char>, n: int)
    requires
        0 < n <= s.len(),
        !text::white_space(s[0]),
        !text::white_space(s[n - 1]),
    ensures
        n <= text::trim(s).len() <= s.len(),
        text::trim(s) == s.take(text::trim(s).len() as int),
{
    text::lemma_prefix_len(s, text::blank(), 0);
    assert(text::trim_start(s) =~= s);
    text::lemma_suffix_len_bounds(s, text::blank());
    let kept = s.len() - text::suffix_len(s, text::blank());
    if kept < n {
        assert(text::blank()(s[n - 1]));
    }
}

/// A line with a valid header shows that the file is meant to be a Vault payload.
pub proof fn law_valid_header_is_candidate(line: Seq<char>)
    requires
        valid_header(line),
    ensures
        candidate_line(line),
{
    lemma_literals();
    lemma_join_fields(line);
    let version = fields(line)[1];
    let set = seq![';'];
    assert(set.contains(set[0]));
    assert(version.len() == 3);
    assert(line[0] == VAULT_MARKER@[0]);
    assert(line[24] == CIPHER@[5]);
    lemma_trim_keeps(line, 25);
    let t = text::trim(line);
    text::lemma_trim_ends(line);
    text::lemma_trim_fixed(t);
    let tail = t.skip(19);
    assert(t =~= VAULT_MARKER@ + seq![';'] + (version + seq![';'] + tail));
    text::lemma_split_first(VAULT_MARKER@, ';', version + seq![';'] + tail, set);
    text::lemma_split_first(version, ';', tail, set);
    text::lemma_split_pieces(tail, set);
    assert(fields(t) == seq![VAULT_MARKER@] + (seq![version] + fields(tail)));
    assert(fields(t).len() >= 3);
    assert(raw_fields(t)[0] == VAULT_MARKER@);
    text::lemma_trim_fixed(VAULT_MARKER@);
    assert(repaired(t)[0] == VAULT_MARKER@);
}

/// Without the blanks at its ends a valid header is valid, or it has lost a Vault
/// ID that was nothing but blanks and is beyond repair.
pub proof fn lemma_valid_header_trimmed(line: Seq<char>)
    requires
        valid_header(line),
    ensures
        valid_header(text::trim(line)) || canonical(text::trim(line)) is None,
{
    lemma_literals();
    lemma_join_fields(line);
    lemma_fields_1_1();
    if fields(line).len() == 3 {
        assert(line =~= HEADER_1_1@);
        text::lemma_trim_fixed(line);
    } else {
        let id = fields(line)[3];
        assert(line =~= HEADER_1_2@ + id);
        let n = HEADER_1_2@.len() as int;
        assert(n == 26) by {
            reveal_strlit("$ANSIBLE_VAULT;1.2;AES256;");
        }
        assert(line[0] == VAULT_MARKER@[0]);
        assert(line[n - 1] == ';') by {
            reveal_strlit("$ANSIBLE_VAULT;1.2;AES256;");
        }
        lemma_trim_keeps(line, n);
        text::lemma_split_pieces(line, seq![';']);
        let kept = text::trim(line);
        let left = id.take(kept.len() - n);
        assert(kept =~= HEADER_1_2@ + left);
        assert(seq![';'].contains(seq![';'][0]));
        if left.contains(';') {
            let k = choose|k: int| 0 <= k < left.len() && left[k] == ';';
            assert(id[k] == ';');
            assert(fields(line)[3].contains(';'));
        }
        lemma_fields_1_2(left);
        if left.len() == 0 {
            text::lemma_trim_ends(line);
            text::lemma_trim_fixed(kept);
            assert(raw_fields(kept) == fields(kept));
            text::lemma_trim_fixed(left);
            assert(repaired(kept)[3] == text::trim(left));
        }
    }
}

// ---------------------------------------------------------------------------
// What headers look like
// ---------------------------------------------------------------------------

/// There are two valid headers: the one without a label, and the one with a label that
/// is not empty and has no semicolon in it.
pub proof fn law_there_are_two_headers(line: Seq<char>)
    ensures
        valid_header(line) <==> (line == "$ANSIBLE_VAULT;1.1;AES256"@ || exists|id: Seq<char>|
            id.len() > 0 && !id.contains(';') && line == #[trigger] (
            "$ANSIBLE_VAULT;1.2;AES256;"@ + id)),
{
    lemma_literals();
    lemma_fields_1_1();
    if valid_header(line) {
        lemma_join_fields(line);
        if fields(line).len() == 3 {
            assert(line =~= HEADER_1_1@);
        } else {
            let id = fields(line)[3];
            text::lemma_split_pieces(line, seq![';']);
            assert(seq![';'].contains(seq![';'][0]));
            assert(!id.contains(';'));
            assert(line =~= HEADER_1_2@ + id);
        }
    }
    if exists|id: Seq<char>|
        id.len() > 0 && !id.contains(';') && line == #[trigger] ("$ANSIBLE_VAULT;1.2;AES256;"@
            + id) {
        let id = choose|id: Seq<char>|
            id.len() > 0 && !id.contains(';') && line == #[trigger] ("$ANSIBLE_VAULT;1.2;AES256;"@
                + id);
        lemma_fields_1_2(id);
    }
}

/// A field as a user types it: something visible, and none of the characters that
/// separate fields.
pub open spec fn token(field: Seq<char>) -> bool {
    &&& field.len() > 0
    &&& forall|i: int|
        0 <= i < field.len() ==> #[trigger] field[i] != ';' && field[i] != ':' && field[i] != '|'
            && !text::white_space(field[i])
}

/// A character that separates fields, though perhaps the wrong one.
pub open spec fn separates(c: char) -> bool {
    c == ';' || c == ':' || c == '|'
}

/// The number of those of three fields that show what they are: the first by at most two
/// edits to `ANSIBLEVAULT`, the second by the digits of a version, the third by at most
/// two edits to `AES256`.
pub open spec fn hints(marker: Seq<char>, version: Seq<char>, cipher: Seq<char>) -> int {
    let first: int = if distance::distance(compact(marker), "ANSIBLEVAULT"@) <= 2 {
        1
    } else {
        0
    };
    let second: int = if digits(version) == "11"@ || digits(version) == "12"@ {
        1
    } else {
        0
    };
    let third: int = if distance::distance(compact(cipher), "AES256"@) <= 2 {
        1
    } else {
        0
    };
    first + second + third
}

/// Only letters and digits count when fields are held against each other, whatever the
/// case, and each counts where it stands.
pub proof fn law_letters_and_digits_count(a: Seq<char>, c: char, b: Seq<char>)
    ensures
        compact(a + b) == compact(a) + compact(b),
        digits(a + b) == digits(a) + digits(b),
        '0' <= c <= '9' || 'A' <= c <= 'Z' ==> compact(seq![c]) == seq![c],
        'a' <= c <= 'z' ==> compact(seq![c]).len() == 1 && compact(seq![c])[0] as int == c as int
            - 32,
        !('0' <= c <= '9' || 'A' <= c <= 'Z' || 'a' <= c <= 'z') ==> compact(seq![c]) == ""@,
        '0' <= c <= '9' ==> digits(seq![c]) == seq![c],
        !('0' <= c <= '9') ==> digits(seq![c]) == ""@,
{
    let p = |c: char| text::ascii_alphanumeric(c);
    let d = |c: char| text::ascii_digit(c);
    let none = Seq::<char>::empty();
    reveal_strlit("");
    Seq::filter_distributes_over_add(a, b, p);
    Seq::filter_distributes_over_add(a, b, d);
    assert(compact(a + b) =~= compact(a) + compact(b));
    lemma_filter_push(none, c, p);
    lemma_filter_push(none, c, d);
    assert(none.push(c) =~= seq![c]);
    reveal(Seq::filter);
    assert(none.filter(p) =~= none);
    assert(none.filter(d) =~= none);
    if text::ascii_alphanumeric(c) {
        assert(seq![c].filter(p) =~= seq![c]);
        assert(compact(seq![c]) =~= seq![text::upper(c)]);
    } else {
        assert(compact(seq![c]) =~= none);
    }
    if text::ascii_digit(c) {
        assert(digits(seq![c]) =~= seq![c]);
    } else {
        assert(digits(seq![c]) =~= none);
    }
}

proof fn lemma_token(field: Seq<char>, set: Seq<char>)
    requires
        token(field),
        forall|c: char| #[trigger] set.contains(c) ==> separates(c),
    ensures
        forall|k: int| 0 <= k < field.len() ==> !set.contains(#[trigger] field[k]),
        text::trim(field) == field,
{
    assert forall|k: int| 0 <= k < field.len() implies !set.contains(#[trigger] field[k]) by {
        assert(!separates(field[k]));
    }
    assert(!text::white_space(field[0]) && !text::white_space(field[field.len() - 1]));
    text::lemma_trim_fixed(field);
}

proof fn lemma_sets(set: Seq<char>, inner: Seq<char>, any: Seq<char>)
    requires
        set == seq![';'],
        inner == seq![':', '|'],
        any == seq![';', ':', '|'],
    ensures
        forall|c: char| #[trigger] set.contains(c) <==> c == ';',
        forall|c: char| #[trigger] inner.contains(c) <==> c == ':' || c == '|',
        forall|c: char| #[trigger] any.contains(c) <==> separates(c),
{
    assert(set.contains(set[0]));
    assert(inner.contains(inner[0]) && inner.contains(inner[1]));
    assert(any.contains(any[0]) && any.contains(any[1]) && any.contains(any[2]));
}

/// The fields of three tokens with separators between them.
proof fn lemma_three_fields(m: Seq<char>, x: char, v: Seq<char>, y: char, c: Seq<char>)
    requires
        token(m),
        token(v),
        token(c),
        separates(x),
        separates(y),
    ensures
        raw_fields(m + seq![x] + (v + seq![y] + c)) == seq![m, v, c],
{
    lemma_sets(seq![';'], seq![':', '|'], seq![';', ':', '|']);
    let set = seq![';'];
    let inner = seq![':', '|'];
    let any = seq![';', ':', '|'];
    let h = m + seq![x] + (v + seq![y] + c);
    lemma_token(m, set);
    lemma_token(v, set);
    lemma_token(c, set);
    lemma_token(m, any);
    lemma_token(v, any);
    lemma_token(c, any);
    lemma_token(c, inner);
    text::lemma_split_first(m, x, v + seq![y] + c, any);
    text::lemma_split_first(v, y, c, any);
    text::lemma_split_single(c, any);
    assert(text::split_any(h, any) =~= seq![m, v, c]);
    if x == ';' {
        text::lemma_split_first(m, x, v + seq![y] + c, set);
        if y == ';' {
            text::lemma_split_first(v, y, c, set);
            text::lemma_split_single(c, set);
            assert(fields(h) =~= seq![m, v, c]);
            text::lemma_prefix_len(c, text::outside(inner), c.len() as int);
        } else {
            let rest = v + seq![y] + c;
            assert forall|k: int| 0 <= k < rest.len() implies !set.contains(#[trigger] rest[k]) by {
                if k < v.len() {
                    assert(rest[k] == v[k]);
                } else if k > v.len() {
                    assert(rest[k] == c[k - v.len() - 1]);
                }
            }
            text::lemma_split_single(rest, set);
            assert(fields(h) =~= seq![m, rest]);
        }
    } else {
        let front = m + seq![x] + v;
        assert forall|k: int| 0 <= k < front.len() implies !set.contains(#[trigger] front[k]) by {
            if k < m.len() {
                assert(front[k] == m[k]);
            } else if k > m.len() {
                assert(front[k] == v[k - m.len() - 1]);
            }
        }
        assert(h =~= front + seq![y] + c);
        if y == ';' {
            text::lemma_split_first(front, y, c, set);
            text::lemma_split_single(c, set);
            assert(fields(h) =~= seq![front, c]);
        } else {
            assert forall|k: int| 0 <= k < h.len() implies !set.contains(#[trigger] h[k]) by {
                if k < front.len() {
                    assert(h[k] == front[k]);
                } else if k > front.len() {
                    assert(h[k] == c[k - front.len() - 1]);
                }
            }
            text::lemma_split_single(h, set);
        }
    }
}

proof fn lemma_next_word(first: Seq<char>, rest: Seq<char>)
    requires
        token(first),
        rest.len() == 0 || text::white_space(rest[0]),
    ensures
        text::words(first + rest) == seq![first] + text::words(rest),
{
    let s = first + rest;
    assert(s[0] == first[0]);
    text::lemma_prefix_len(s, text::blank(), 0);
    assert(text::trim_start(s) =~= s);
    assert forall|k: int| 0 <= k < first.len() implies text::visible()(#[trigger] s[k]) by {
        assert(s[k] == first[k]);
    }
    text::lemma_prefix_len(s, text::visible(), first.len() as int);
    assert(s.take(first.len() as int) =~= first);
    assert(s.skip(first.len() as int) =~= rest);
}

proof fn lemma_words_after_blank(c: char, rest: Seq<char>)
    requires
        text::white_space(c),
    ensures
        text::words(seq![c] + rest) == text::words(rest),
{
    let s = seq![c] + rest;
    assert(s.drop_first() =~= rest);
    text::lemma_prefix_len_bounds(rest, text::blank());
    let n = text::prefix_len(rest, text::blank()) as int;
    assert(text::prefix_len(s, text::blank()) == n + 1);
    assert(s.skip(n + 1) =~= rest.skip(n));
    assert(text::trim_start(s) == text::trim_start(rest));
    text::lemma_prefix_len_bounds(text::trim_start(rest), text::visible());
}

/// The fields of three tokens with white space between them.
proof fn lemma_three_words(m: Seq<char>, x: char, v: Seq<char>, y: char, c: Seq<char>)
    requires
        token(m),
        token(v),
        token(c),
        text::white_space(x),
        text::white_space(y),
    ensures
        raw_fields(m + seq![x] + (v + seq![y] + c)) == seq![m, v, c],
{
    lemma_sets(seq![';'], seq![':', '|'], seq![';', ':', '|']);
    let set = seq![';'];
    let any = seq![';', ':', '|'];
    let tail = v + seq![y] + c;
    let h = m + seq![x] + tail;
    let none = Seq::<char>::empty();
    lemma_token(m, any);
    lemma_token(v, any);
    lemma_token(c, any);
    assert forall|k: int| 0 <= k < h.len() implies !separates(#[trigger] h[k]) by {
        if k < m.len() {
            assert(h[k] == m[k]);
        } else if k > m.len() {
            let j = k - m.len() - 1;
            assert(h[k] == tail[j]);
            if j < v.len() {
                assert(tail[j] == v[j]);
            } else if j > v.len() {
                assert(tail[j] == c[j - v.len() - 1]);
            }
        }
    }
    text::lemma_split_single(h, set);
    text::lemma_split_single(h, any);
    assert(h =~= m + (seq![x] + tail));
    lemma_next_word(m, seq![x] + tail);
    lemma_words_after_blank(x, tail);
    assert(tail =~= v + (seq![y] + c));
    lemma_next_word(v, seq![y] + c);
    lemma_words_after_blank(y, c);
    assert(c =~= c + none);
    lemma_next_word(c, none);
    assert(text::words(none) =~= Seq::<Seq<char>>::empty());
    assert(text::words(h) =~= seq![m, v, c]);
}

/// Three fields are repaired exactly where two of them or all three show what they are,
/// unless the version asks for a Vault ID, which nobody can make up. It makes no matter
/// which of the separators stand between the fields, whether white space does instead,
/// and whether there is white space around them.
pub proof fn law_two_hints_repair_a_header(
    before: Seq<char>,
    m: Seq<char>,
    x: char,
    v: Seq<char>,
    y: char,
    c: Seq<char>,
    behind: Seq<char>,
)
    requires
        token(m),
        token(v),
        token(c),
        separates(x) && separates(y) || text::white_space(x) && text::white_space(y),
        text::all_blank(before),
        text::all_blank(behind),
    ensures
        canonical(before + (m + seq![x] + (v + seq![y] + c)) + behind) == if hints(m, v, c) >= 2
            && digits(v) != "12"@ {
            Some("$ANSIBLE_VAULT;1.1;AES256"@)
        } else {
            None::<Seq<char>>
        },
{
    let h = m + seq![x] + (v + seq![y] + c);
    lemma_sets(seq![';'], seq![':', '|'], seq![';', ':', '|']);
    if separates(x) {
        lemma_three_fields(m, x, v, y, c);
    } else {
        lemma_three_words(m, x, v, y, c);
    }
    text::law_white_space_around_is_trimmed(before, h, behind);
    assert(h[0] == m[0] && h.last() == c.last());
    lemma_token(m, seq![';']);
    lemma_token(v, seq![';']);
    lemma_token(c, seq![';']);
    assert(repaired(before + h + behind) =~= seq![m, v, c]);
    reveal_strlit("11");
    reveal_strlit("12");
    assert("11"@[1] != "12"@[1]);
}

/// Four fields are repaired exactly where two of the first three or all of them show what
/// they are, and the last is kept as the label of the Vault ID, whatever the version.
pub proof fn law_labels_survive_the_repair(
    before: Seq<char>,
    m: Seq<char>,
    v: Seq<char>,
    c: Seq<char>,
    id: Seq<char>,
    behind: Seq<char>,
)
    requires
        token(m),
        token(v),
        token(c),
        id.len() > 0,
        !id.contains(';'),
        !text::white_space(id[0]),
        !text::white_space(id.last()),
        text::all_blank(before),
        text::all_blank(behind),
    ensures
        canonical(before + (m + ";"@ + (v + ";"@ + (c + ";"@ + id))) + behind) == if hints(m, v, c)
            >= 2 {
            Some("$ANSIBLE_VAULT;1.2;AES256;"@ + id)
        } else {
            None::<Seq<char>>
        },
{
    reveal_strlit(";");
    reveal_strlit("11");
    reveal_strlit("12");
    let set = seq![';'];
    assert(";"@ =~= set);
    lemma_sets(seq![';'], seq![':', '|'], seq![';', ':', '|']);
    let h = m + set + (v + set + (c + set + id));
    lemma_token(m, set);
    lemma_token(v, set);
    lemma_token(c, set);
    text::lemma_split_first(m, ';', v + set + (c + set + id), set);
    text::lemma_split_first(v, ';', c + set + id, set);
    text::lemma_split_first(c, ';', id, set);
    assert forall|k: int| 0 <= k < id.len() implies !set.contains(#[trigger] id[k]) by {
        assert(id.contains(id[k]));
    }
    text::lemma_split_single(id, set);
    assert(fields(h) =~= seq![m, v, c, id]);
    text::lemma_trim_fixed(id);
    assert(h[0] == m[0] && h.last() == id.last());
    text::law_white_space_around_is_trimmed(before, h, behind);
    assert(repaired(before + h + behind) =~= seq![m, v, c, id]);
}

/// A label behind a colon or a bar is a label all the same.
pub proof fn law_labels_behind_other_separators_are_kept(
    m: Seq<char>,
    v: Seq<char>,
    c: Seq<char>,
    y: char,
    id: Seq<char>,
)
    requires
        token(m),
        token(v),
        token(c),
        y == ':' || y == '|',
        distance::distance(compact(c), "AES256"@) <= 2,
        id.len() > 0,
        !id.contains(';'),
        !text::white_space(id[0]),
        !text::white_space(id.last()),
    ensures
        canonical(m + ";"@ + (v + ";"@ + (c + seq![y] + id))) == if hints(m, v, c) >= 2 {
            Some("$ANSIBLE_VAULT;1.2;AES256;"@ + id)
        } else {
            None::<Seq<char>>
        },
{
    reveal_strlit(";");
    reveal_strlit("11");
    reveal_strlit("12");
    let set = seq![';'];
    let inner = seq![':', '|'];
    assert(";"@ =~= set);
    lemma_sets(seq![';'], seq![':', '|'], seq![';', ':', '|']);
    let last = c + seq![y] + id;
    let h = m + set + (v + set + last);
    lemma_token(m, set);
    lemma_token(v, set);
    lemma_token(c, inner);
    text::lemma_split_first(m, ';', v + set + last, set);
    text::lemma_split_first(v, ';', last, set);
    assert forall|k: int| 0 <= k < last.len() implies !set.contains(#[trigger] last[k]) by {
        if k < c.len() {
            assert(last[k] == c[k]);
        } else if k > c.len() {
            assert(last[k] == id[k - c.len() - 1]);
            assert(id.contains(id[k - c.len() - 1]));
        }
    }
    text::lemma_split_single(last, set);
    assert(fields(h) =~= seq![m, v, last]);
    let n = c.len() as int;
    assert forall|k: int| 0 <= k < n implies text::outside(inner)(#[trigger] last[k]) by {
        assert(last[k] == c[k]);
    }
    assert(last[n] == y);
    text::lemma_prefix_len(last, text::outside(inner), n);
    assert(last.take(n) =~= c);
    assert(last.skip(n + 1) =~= id);
    text::lemma_trim_fixed(id);
    assert(raw_fields(h) =~= seq![m, v, c, id]);
    assert(h[0] == m[0] && h.last() == id.last());
    text::lemma_trim_fixed(h);
    assert(repaired(h) =~= seq![m, v, c, id]);
}

/// A line of three fields is taken for a Vault header exactly where the first field is
/// the marker but for letter case or for one byte, or where it begins with a dollar sign
/// or is at most two edits away from the marker and the line can be repaired.
pub proof fn law_headers_are_recognised_by_their_marker(
    m: Seq<char>,
    x: char,
    v: Seq<char>,
    y: char,
    c: Seq<char>,
)
    requires
        token(m),
        token(v),
        token(c),
        separates(x) && separates(y) || text::white_space(x) && text::white_space(y),
    ensures
        candidate_line(m + seq![x] + (v + seq![y] + c)) <==> {
            ||| m.len() == 14 && forall|i: int|
                0 <= i < 14 ==> text::lower(#[trigger] m[i]) == text::lower("$ANSIBLE_VAULT"@[i])
            ||| distance::one_edit(
                vstd::utf8::encode_utf8(m),
                vstd::utf8::encode_utf8("$ANSIBLE_VAULT"@),
            )
            ||| (m[0] == '$' || distance::distance(compact(m), "ANSIBLEVAULT"@) <= 2) && hints(
                m,
                v,
                c,
            ) >= 2 && digits(v) != "12"@
        },
{
    let h = m + seq![x] + (v + seq![y] + c);
    let none = Seq::<char>::empty();
    lemma_sets(seq![';'], seq![':', '|'], seq![';', ':', '|']);
    lemma_literals();
    if separates(x) {
        lemma_three_fields(m, x, v, y, c);
    } else {
        lemma_three_words(m, x, v, y, c);
    }
    law_two_hints_repair_a_header(none, m, x, v, y, c, none);
    assert(none + h + none =~= h);
    assert(h[0] == m[0] && h.last() == c.last());
    text::lemma_trim_fixed(h);
    lemma_token(m, seq![';']);
    lemma_token(v, seq![';']);
    lemma_token(c, seq![';']);
    assert(repaired(h) =~= seq![m, v, c]);
    assert(m.take(1) =~= seq![m[0]]);
    assert(seq![m[0]] == seq!['$'] <==> m[0] == '$') by {
        assert(seq![m[0]][0] == m[0]);
        assert(seq!['$'][0] == '$');
    }
}

/// A colon or a bar in the third field ends it only behind something like the name of the
/// cipher, and only where something is behind it.
pub proof fn law_only_ciphers_end_at_a_colon(
    m: Seq<char>,
    v: Seq<char>,
    c: Seq<char>,
    y: char,
    id: Seq<char>,
)
    requires
        token(m),
        token(v),
        token(c),
        y == ':' || y == '|',
        !id.contains(';'),
        id.len() > 0 ==> !text::white_space(id[0]) && !text::white_space(id.last()),
        distance::distance(compact(c), "AES256"@) > 2 || id.len() == 0,
    ensures
        canonical(m + ";"@ + (v + ";"@ + (c + seq![y] + id))) == if hints(m, v, c + seq![y] + id)
            >= 2 && digits(v) != "12"@ {
            Some("$ANSIBLE_VAULT;1.1;AES256"@)
        } else {
            None::<Seq<char>>
        },
{
    reveal_strlit(";");
    reveal_strlit("11");
    reveal_strlit("12");
    assert("11"@[1] != "12"@[1]);
    let set = seq![';'];
    let inner = seq![':', '|'];
    assert(";"@ =~= set);
    lemma_sets(seq![';'], seq![':', '|'], seq![';', ':', '|']);
    let last = c + seq![y] + id;
    let h = m + set + (v + set + last);
    lemma_token(m, set);
    lemma_token(v, set);
    lemma_token(c, inner);
    text::lemma_split_first(m, ';', v + set + last, set);
    text::lemma_split_first(v, ';', last, set);
    assert forall|k: int| 0 <= k < last.len() implies !set.contains(#[trigger] last[k]) by {
        if k < c.len() {
            assert(last[k] == c[k]);
        } else if k > c.len() {
            assert(last[k] == id[k - c.len() - 1]);
            assert(id.contains(id[k - c.len() - 1]));
        }
    }
    text::lemma_split_single(last, set);
    assert(fields(h) =~= seq![m, v, last]);
    let n = c.len() as int;
    assert forall|k: int| 0 <= k < n implies text::outside(inner)(#[trigger] last[k]) by {
        assert(last[k] == c[k]);
    }
    assert(last[n] == y);
    text::lemma_prefix_len(last, text::outside(inner), n);
    assert(last.take(n) =~= c);
    assert(last.skip(n + 1) =~= id);
    text::lemma_trim_fixed(id);
    assert(last[0] == c[0]);
    if id.len() > 0 {
        assert(last.last() == id.last());
    } else {
        assert(last.last() == y);
    }
    text::lemma_trim_fixed(last);
    assert(raw_fields(h) =~= seq![m, v, last]);
    assert(h[0] == m[0] && h.last() == last.last());
    text::lemma_trim_fixed(h);
    assert(repaired(h) =~= seq![m, v, last]);
}

} // verus!
