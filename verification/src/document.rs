//! Editor documents and the two ways of pointing into them: byte offsets into
//! the UTF-8 text, and positions made of a line and a UTF-16 column.
use crate::text;
use vstd::prelude::*;

verus! {

/// An open editor document.
#[derive(Clone, Debug)]
pub struct Document {
    pub text: String,
    pub version: i32,
}

/// A zero-based line and a zero-based column counted in UTF-16 code units.
#[derive(Clone, Copy, Debug, PartialEq, Eq, Structural)]
pub struct Position {
    pub line: u32,
    pub character: u32,
}

/// The text from `start` up to `end`.
#[derive(Clone, Copy, Debug, PartialEq, Eq, Structural)]
pub struct Range {
    pub start: Position,
    pub end: Position,
}

impl Position {
    pub fn new(line: u32, character: u32) -> (r: Position)
        ensures
            r == (Position { line, character }),
    {
        Position { line, character }
    }

    /// Whether `self` stands before `other` in reading order.
    pub open spec fn before(self, other: Position) -> bool {
        self.line < other.line || (self.line == other.line && self.character < other.character)
    }

    pub fn is_before(self, other: Position) -> (r: bool)
        ensures
            r == self.before(other),
    {
        self.line < other.line || (self.line == other.line && self.character < other.character)
    }
}

impl Range {
    pub fn new(start: Position, end: Position) -> (r: Range)
        ensures
            r == (Range { start, end }),
    {
        Range { start, end }
    }
}

// ---------------------------------------------------------------------------
// Lines and columns
// ---------------------------------------------------------------------------

/// The number of UTF-16 code units that encode `c`.
pub open spec fn utf16_len(c: char) -> nat {
    if c as u32 > 0xffff {
        2
    } else {
        1
    }
}

/// The number of line feeds in `s`.
pub open spec fn line_feeds(s: Seq<char>) -> nat
    decreases s.len(),
{
    if s.len() == 0 {
        0
    } else if s.last() == '\n' {
        line_feeds(s.drop_last()) + 1
    } else {
        line_feeds(s.drop_last())
    }
}

/// The number of UTF-16 code units behind the last line feed of `s`.
pub open spec fn column(s: Seq<char>) -> nat
    decreases s.len(),
{
    if s.len() == 0 || s.last() == '\n' {
        0
    } else {
        column(s.drop_last()) + utf16_len(s.last())
    }
}

/// The line and the column of the place before the `i`th character of `s`.
pub open spec fn place(s: Seq<char>, i: int) -> (nat, nat) {
    (line_feeds(s.take(i)), column(s.take(i)))
}

/// Whether the place before some character of `s`, or its end, has the given
/// line and column.
pub open spec fn has_place(s: Seq<char>, line: nat, character: nat) -> bool {
    exists|i: int| 0 <= i <= s.len() && #[trigger] place(s, i) == (line, character)
}

/// The byte offset of the given line and column.
pub open spec fn offset_at(s: Seq<char>, line: nat, character: nat) -> Option<nat> {
    if has_place(s, line, character) {
        let i = choose|i: int|
            0 <= i <= s.len() && #[trigger] place(s, i) == (line, character);
        Some(text::byte_len(s.take(i)))
    } else {
        None
    }
}

/// The number of whole characters in the first `offset` bytes of `s`.
pub open spec fn chars_before(s: Seq<char>, offset: int) -> int
    decreases s.len(),
{
    if s.len() == 0 || offset < text::char_len(s[0]) {
        0
    } else {
        1 + chars_before(s.drop_first(), offset - text::char_len(s[0]))
    }
}

/// Whether `offset` lies between two characters of `s`, or at one of its ends.
pub open spec fn boundary(s: Seq<char>, offset: int) -> bool {
    text::byte_len(s.take(chars_before(s, offset))) == offset
}

/// The line and the column of a byte offset. Beyond the end they are those of
/// the end.
pub open spec fn position_at(s: Seq<char>, offset: int) -> (nat, nat) {
    place(s, chars_before(s, offset))
}

/// The position that holds a line and a column. Counts over `u32::MAX` are
/// truncated.
pub open spec fn truncated(at: (nat, nat)) -> Position {
    Position { line: at.0 as u32, character: at.1 as u32 }
}

proof fn lemma_place_step(s: Seq<char>, i: int)
    requires
        0 <= i < s.len(),
    ensures
        s[i] == '\n' ==> place(s, i + 1) == (line_feeds(s.take(i)) + 1, 0nat),
        s[i] != '\n' ==> place(s, i + 1) == (line_feeds(s.take(i)), column(s.take(i)) + utf16_len(
            s[i],
        )),
{
    assert(s.take(i + 1).drop_last() =~= s.take(i));
    assert(s.take(i + 1).last() == s[i]);
}

/// Later places have later positions: further down, or further right.
pub proof fn lemma_places_ordered(s: Seq<char>, i: int, j: int)
    requires
        0 <= i < j <= s.len(),
    ensures
        place(s, i).0 < place(s, j).0 || (place(s, i).0 == place(s, j).0 && place(s, i).1 < place(
            s,
            j,
        ).1),
    decreases j - i,
{
    lemma_place_step(s, j - 1);
    if i < j - 1 {
        lemma_places_ordered(s, i, j - 1);
    }
}

/// No two places share a position.
pub proof fn lemma_place_unique(s: Seq<char>, i: int, j: int)
    requires
        0 <= i <= s.len(),
        0 <= j <= s.len(),
        place(s, i) == place(s, j),
    ensures
        i == j,
{
    if i < j {
        lemma_places_ordered(s, i, j);
    } else if j < i {
        lemma_places_ordered(s, j, i);
    }
}

/// What `offset_at` gives for the place of a character.
pub proof fn lemma_offset_at(s: Seq<char>, i: int)
    requires
        0 <= i <= s.len(),
    ensures
        offset_at(s, place(s, i).0, place(s, i).1) == Some(text::byte_len(s.take(i))),
{
    let at = place(s, i);
    assert(has_place(s, at.0, at.1));
    let k = choose|k: int| 0 <= k <= s.len() && #[trigger] place(s, k) == (at.0, at.1);
    lemma_place_unique(s, i, k);
}

/// A character boundary is found again by the characters before it.
pub proof fn lemma_chars_before(s: Seq<char>, i: int)
    requires
        0 <= i <= s.len(),
    ensures
        chars_before(s, text::byte_len(s.take(i)) as int) == i,
        boundary(s, text::byte_len(s.take(i)) as int),
    decreases s.len(),
{
    if i == 0 {
        assert(s.take(0) =~= Seq::<char>::empty());
        if s.len() > 0 {
            text::lemma_char_len(s[0]);
        }
    } else {
        let rest = s.drop_first();
        lemma_chars_before(rest, i - 1);
        text::lemma_byte_len_add(seq![s[0]], rest.take(i - 1));
        text::lemma_byte_len_one(s[0]);
        assert(s.take(i) =~= seq![s[0]] + rest.take(i - 1));
    }
}

pub proof fn lemma_chars_before_bounds(s: Seq<char>, offset: int)
    requires
        0 <= offset,
    ensures
        0 <= chars_before(s, offset) <= s.len(),
        text::byte_len(s.take(chars_before(s, offset))) <= offset,
        offset >= text::byte_len(s) ==> chars_before(s, offset) == s.len(),
    decreases s.len(),
{
    let n = chars_before(s, offset);
    if s.len() == 0 {
        assert(s.take(0) =~= s);
        assert(vstd::utf8::encode_utf8(s).len() == 0);
    } else {
        text::lemma_byte_len_split(s, 1);
        assert(s.take(1) =~= seq![s[0]]);
        assert(s.skip(1) =~= s.drop_first());
        text::lemma_byte_len_one(s[0]);
        if offset < text::char_len(s[0]) {
            assert(s.take(0) =~= Seq::<char>::empty());
            assert(vstd::utf8::encode_utf8(Seq::<char>::empty()).len() == 0);
        } else {
            let rest = s.drop_first();
            lemma_chars_before_bounds(rest, offset - text::char_len(s[0]));
            text::lemma_byte_len_add(seq![s[0]], rest.take(n - 1));
            assert(s.take(n) =~= seq![s[0]] + rest.take(n - 1));
        }
    }
}

/// A column is no larger than the bytes before it.
proof fn lemma_column_bound(s: Seq<char>)
    ensures
        column(s) <= text::byte_len(s),
        line_feeds(s) <= s.len(),
    decreases s.len(),
{
    if s.len() > 0 {
        lemma_column_bound(s.drop_last());
        text::lemma_byte_len_step(s, s.len() - 1);
        assert(s.take(s.len() as int) =~= s);
        assert(s.take(s.len() - 1) =~= s.drop_last());
        text::lemma_char_len(s.last());
        assert(utf16_len(s.last()) <= text::char_len(s.last()));
    }
}

/// Finding the offset of a position and the position of an offset undo each
/// other: from an offset between two characters one comes back to it.
pub proof fn law_offset_round_trip(s: Seq<char>, offset: int)
    requires
        0 <= offset <= text::byte_len(s),
        boundary(s, offset),
    ensures
        offset_at(s, position_at(s, offset).0, position_at(s, offset).1) == Some(offset as nat),
{
    lemma_chars_before_bounds(s, offset);
    lemma_offset_at(s, chars_before(s, offset));
}

/// From a position that exists in the text one comes back to it too.
pub proof fn law_position_round_trip(s: Seq<char>, line: nat, character: nat)
    requires
        offset_at(s, line, character) is Some,
    ensures
        position_at(s, offset_at(s, line, character)->0 as int) == (line, character),
        boundary(s, offset_at(s, line, character)->0 as int),
{
    let i = choose|i: int| 0 <= i <= s.len() && #[trigger] place(s, i) == (line, character);
    lemma_offset_at(s, i);
    lemma_chars_before(s, i);
}

/// Positions stand in the same order as the offsets they belong to.
pub proof fn law_positions_keep_order(s: Seq<char>, first: int, second: int)
    requires
        0 <= first < second <= text::byte_len(s),
        boundary(s, first),
        boundary(s, second),
    ensures
        ({
            let (a, b) = (position_at(s, first), position_at(s, second));
            a.0 < b.0 || (a.0 == b.0 && a.1 < b.1)
        }),
{
    lemma_chars_before_bounds(s, first);
    lemma_chars_before_bounds(s, second);
    let (i, j) = (chars_before(s, first), chars_before(s, second));
    if j <= i {
        text::lemma_byte_len_monotonic(s, j, i);
    }
    lemma_places_ordered(s, i, j);
}

// ---------------------------------------------------------------------------
// Conversions
// ---------------------------------------------------------------------------

/// The byte offset of `position`, or `None` where the text has no such line, or
/// the column lies behind the end of its line or inside a surrogate pair.
pub fn position_to_offset(text: &str, position: Position) -> (r: Option<usize>)
    ensures
        match r {
            Some(offset) => offset_at(text@, position.line as nat, position.character as nat)
                == Some(offset as nat),
            None => offset_at(text@, position.line as nat, position.character as nat) is None,
        },
{
    let total: usize = text::str_len(text);
    let chars = text::chars_of(text);
    let ghost s = text@;
    let ghost wanted = (position.line as nat, position.character as nat);
    let mut i: usize = 0;
    let mut offset: usize = 0;
    let mut line: u32 = 0;
    proof {
        assert(s.take(0) =~= Seq::<char>::empty());
    }
    while line < position.line
        invariant
            s == text@,
            chars@ == s,
            total == text::byte_len(s),
            wanted == (position.line as nat, position.character as nat),
            i <= s.len(),
            offset == text::byte_len(s.take(i as int)),
            line <= position.line,
            place(s, i as int).0 == line,
            line == position.line ==> place(s, i as int).1 == 0,
            forall|k: int| 0 <= k < i ==> (#[trigger] place(s, k)).0 < position.line,
        decreases s.len() - i,
    {
        if i == chars.len() {
            return None;
        }
        proof {
            lemma_place_step(s, i as int);
            text::lemma_byte_len_step(s, i as int);
            text::lemma_byte_len_subrange(s, 0, i + 1);
        }
        offset = offset + text::width(chars[i]);
        if chars[i] == '\n' {
            line = line + 1;
        }
        i = i + 1;
    }
    let mut units: u32 = 0;
    while units < position.character
        invariant
            s == text@,
            chars@ == s,
            total == text::byte_len(s),
            wanted == (position.line as nat, position.character as nat),
            i <= s.len(),
            offset == text::byte_len(s.take(i as int)),
            units <= position.character,
            place(s, i as int) == (position.line as nat, units as nat),
            forall|k: int| 0 <= k < i ==> #[trigger] place(s, k) != wanted,
        decreases s.len() - i,
    {
        if i == chars.len() {
            return None;
        }
        let c = chars[i];
        let step: u32 = if c as u32 > 0xffff {
            2
        } else {
            1
        };
        proof {
            lemma_place_step(s, i as int);
            text::lemma_byte_len_step(s, i as int);
            text::lemma_byte_len_subrange(s, 0, i + 1);
        }
        if c == '\n' || step > position.character - units {
            proof {
                assert forall|k: int| 0 <= k <= s.len() implies #[trigger] place(s, k) != wanted by {
                    if i + 1 < k {
                        lemma_places_ordered(s, i + 1, k);
                    }
                }
            }
            return None;
        }
        offset = offset + text::width(c);
        units = units + step;
        i = i + 1;
    }
    proof {
        lemma_offset_at(s, i as int);
    }
    Some(offset)
}

/// The position of a byte offset; offsets behind the end stand for the end.
pub fn offset_to_position(text: &str, offset: usize) -> (r: Position)
    requires
        offset >= text::byte_len(text@) || boundary(text@, offset as int),
    ensures
        r == truncated(position_at(text@, offset as int)),
{
    let total: usize = text::str_len(text);
    let chars = text::chars_of(text);
    let ghost s = text@;
    let ghost end = chars_before(s, offset as int);
    let mut i: usize = 0;
    let mut passed: usize = 0;
    let mut line: usize = 0;
    let mut units: usize = 0;
    proof {
        assert(s.take(0) =~= Seq::<char>::empty());
        lemma_chars_before_bounds(s, offset as int);
    }
    while i < chars.len() && passed < offset
        invariant
            s == text@,
            chars@ == s,
            total == text::byte_len(s),
            end == chars_before(s, offset as int),
            0 <= i <= end <= s.len(),
            end == s.len() || text::byte_len(s.take(end)) == offset,
            text::byte_len(s.take(end)) <= offset,
            passed == text::byte_len(s.take(i as int)),
            place(s, i as int) == (line as nat, units as nat),
        decreases s.len() - i,
    {
        proof {
            if i == end {
                assert(end == s.len());
            }
            lemma_place_step(s, i as int);
            text::lemma_byte_len_step(s, i as int);
            text::lemma_byte_len_subrange(s, 0, i + 1);
            lemma_column_bound(s.take(i + 1));
        }
        let c = chars[i];
        passed = passed + text::width(c);
        if c == '\n' {
            line = line + 1;
            units = 0;
        } else if c as u32 > 0xffff {
            units = units + 2;
        } else {
            units = units + 1;
        }
        i = i + 1;
    }
    proof {
        if i < end {
            text::lemma_byte_len_monotonic(s, i as int, end);
        }
    }
    Position {
        line: #[verifier::truncate]
        (line as u32),
        character: #[verifier::truncate]
        (units as u32),
    }
}

/// The position of the place before the `index`th character.
pub fn index_to_position(chars: &[char], index: usize) -> (r: Position)
    requires
        index <= chars@.len(),
        text::byte_len(chars@) <= usize::MAX,
    ensures
        r == truncated(place(chars@, index as int)),
{
    let ghost s = chars@;
    let mut line: usize = 0;
    let mut units: usize = 0;
    proof {
        assert(s.take(0) =~= Seq::<char>::empty());
    }
    for i in 0..index
        invariant
            s == chars@,
            index <= s.len(),
            text::byte_len(s) <= usize::MAX,
            place(s, i as int) == (line as nat, units as nat),
    {
        proof {
            lemma_place_step(s, i as int);
            text::lemma_byte_len_subrange(s, 0, i + 1);
            lemma_column_bound(s.take(i + 1));
        }
        let c = chars[i];
        if c == '\n' {
            line = line + 1;
            units = 0;
        } else if c as u32 > 0xffff {
            units = units + 2;
        } else {
            units = units + 1;
        }
    }
    Position {
        line: #[verifier::truncate]
        (line as u32),
        character: #[verifier::truncate]
        (units as u32),
    }
}

/// The range between two places of a text.
pub open spec fn range_at(s: Seq<char>, start: int, end: int) -> Range {
    Range { start: truncated(place(s, start)), end: truncated(place(s, end)) }
}

pub fn range_of(chars: &[char], start: usize, end: usize) -> (r: Range)
    requires
        start <= chars@.len(),
        end <= chars@.len(),
        text::byte_len(chars@) <= usize::MAX,
    ensures
        r == range_at(chars@, start as int, end as int),
{
    Range::new(index_to_position(chars, start), index_to_position(chars, end))
}

/// The number of whole characters before a byte offset.
pub fn index_at(chars: &[char], offset: usize) -> (r: usize)
    ensures
        r == chars_before(chars@, offset as int),
        r <= chars@.len(),
{
    let ghost s = chars@;
    let mut i: usize = 0;
    let mut left: usize = offset;
    proof {
        assert(s.skip(0) =~= s);
    }
    while i < chars.len() && left >= text::width(chars[i])
        invariant
            s == chars@,
            i <= s.len(),
            chars_before(s, offset as int) == i + chars_before(s.skip(i as int), left as int),
        decreases s.len() - i,
    {
        proof {
            assert(s.skip(i as int).drop_first() =~= s.skip(i + 1));
        }
        left = left - text::width(chars[i]);
        i = i + 1;
    }
    i
}

/// Boundaries are where the encoding of a character begins, or the text ends.
proof fn lemma_boundary(s: Seq<char>, offset: int)
    requires
        0 <= offset,
    ensures
        boundary(s, offset) == vstd::utf8::is_char_boundary(
            vstd::utf8::encode_utf8(s),
            offset,
        ),
    decreases s.len(),
{
    let bytes = vstd::utf8::encode_utf8(s);
    vstd::utf8::encode_utf8_valid_utf8(s);
    assert(s.take(0) =~= Seq::<char>::empty());
    assert(text::byte_len(Seq::<char>::empty()) == 0);
    if s.len() > 0 {
        let rest = s.drop_first();
        let n = text::char_len(s[0]);
        text::lemma_char_len(s[0]);
        vstd::utf8::encode_utf8_first_scalar(s);
        vstd::utf8::encode_utf8_valid_utf8(rest);
        assert(vstd::utf8::pop_first_scalar(bytes) =~= vstd::utf8::encode_utf8(rest));
        if offset < n {
            reveal_with_fuel(vstd::utf8::is_char_boundary, 2);
            assert(bytes.len() >= n);
        } else {
            let k = chars_before(rest, offset - n);
            lemma_chars_before_bounds(rest, offset - n);
            lemma_boundary(rest, offset - n);
            text::lemma_byte_len_add(seq![s[0]], rest.take(k));
            text::lemma_byte_len_one(s[0]);
            assert(s.take(k + 1) =~= seq![s[0]] + rest.take(k));
        }
    }
}

/// Whether an offset lies between two characters of a text, or at one of its ends.
pub fn is_boundary(text: &str, offset: usize) -> (r: bool)
    ensures
        r == boundary(text@, offset as int),
{
    proof {
        lemma_boundary(text@, offset as int);
    }
    text.is_char_boundary(offset)
}

/// The byte offset of the place before the `index`th character.
pub fn offset_of(chars: &[char], index: usize) -> (r: usize)
    requires
        index <= chars@.len(),
        text::byte_len(chars@) <= usize::MAX,
    ensures
        r == text::byte_len(chars@.take(index as int)),
{
    proof {
        text::lemma_byte_len_subrange(chars@, 0, index as int);
        assert(chars@.subrange(0, index as int) =~= chars@.take(index as int));
    }
    text::byte_len_of(&chars[0..index])
}

/// The positions of two byte offsets.
pub fn byte_range_to_lsp(text: &str, start: usize, end: usize) -> (r: Range)
    requires
        start >= text::byte_len(text@) || boundary(text@, start as int),
        end >= text::byte_len(text@) || boundary(text@, end as int),
    ensures
        r == (Range {
            start: truncated(position_at(text@, start as int)),
            end: truncated(position_at(text@, end as int)),
        }),
{
    Range::new(offset_to_position(text, start), offset_to_position(text, end))
}

/// The byte offsets of both ends of `range`, where both exist.
pub fn lsp_range_to_bytes(text: &str, range: Range) -> (r: Option<(usize, usize)>)
    ensures
        ({
            let start = offset_at(text@, range.start.line as nat, range.start.character as nat);
            let end = offset_at(text@, range.end.line as nat, range.end.character as nat);
            match r {
                Some((a, b)) => start == Some(a as nat) && end == Some(b as nat),
                None => start is None || end is None,
            }
        }),
{
    match position_to_offset(text, range.start) {
        None => None,
        Some(start) => match position_to_offset(text, range.end) {
            None => None,
            Some(end) => Some((start, end)),
        },
    }
}

/// Places are counted from zero. A line feed ends a line. On a line, a character counts
/// for two where it lies beyond the first 65536, and else for one.
pub proof fn law_places_are_counted(s: Seq<char>, i: int)
    requires
        0 <= i < s.len(),
    ensures
        place(s, 0) == (0nat, 0nat),
        s[i] == '\n' ==> place(s, i + 1) == (place(s, i).0 + 1, 0nat),
        s[i] != '\n' && (s[i] as u32) < 0x10000 ==> place(s, i + 1) == (
            place(s, i).0,
            place(s, i).1 + 1,
        ),
        s[i] != '\n' && (s[i] as u32) >= 0x10000 ==> place(s, i + 1) == (
            place(s, i).0,
            place(s, i).1 + 2,
        ),
{
    lemma_place_step(s, i);
    assert(s.take(0) =~= Seq::<char>::empty());
}

/// Positions are ordered by their lines, and on one line by their columns.
pub proof fn law_positions_are_ordered(a: Position, b: Position)
    ensures
        a.line < b.line ==> a.before(b) && !b.before(a),
        a.line == b.line ==> (a.before(b) <==> a.character < b.character),
        !a.before(b) && !b.before(a) <==> a == b,
{
}

} // verus!
