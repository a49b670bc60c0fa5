//! How many blocks of a YAML text the parser's scanner can come to hold.
//!
//! The scanner of `tree_sitter_yaml` keeps a stack with an entry for each block
//! that it takes for open, and the column of that block. It saves the stack in 1024
//! bytes: 10 bytes, and 4 for each entry. The entry 254 does not fit, and the
//! process is aborted over it. Two bounds keep a text below that, and each is enough
//! by itself. Both hold whatever errors the text has, and whatever the parser does
//! to recover from them.
//!
//! The first counts the places at which an entry can be made at all. An entry is
//! made together with a token that contains a dash, a question mark or a colon with
//! white space behind it, or that begins a block scalar with `|` or `>`. No
//! character is in two tokens, so there are at most as many entries as places.
//!
//! The second follows the columns, line by line, and also knows when entries have
//! gone. What it rests on is in `scan` in `scanner.c` and in the tables of
//! `parser.c`; "line" stands for what is between two line ends, where a carriage
//! return and a line feed are one each.
//!
//! - A token that is the first on its line is only accepted where its column is
//!   that of the last entry (`is_b`) or greater (`is_br`). Otherwise the scanner
//!   removes entries (`BL`) as long as the column is not greater than that of the
//!   last entry but one. It does so where the parser expects it, and wherever the
//!   parser looks for a way out of an error, where every token is expected. The sets
//!   of expected tokens without `BL` have no token that needs the column of the last
//!   entry but the end of a flow collection. So from such a line on there is at most
//!   one entry in its column or behind it, or two where a dash stands there, or
//!   where a flow collection ends: a mapping, and a sequence in the same column.
//! - Marks that follow on the same line are only accepted directly behind a mark or
//!   at the beginning of the text: these are the states that expect
//!   `R_BLK_SEQ_BGN`, `R_BLK_KEY_BGN` or `R_BLK_VAL_BGN`, but for the one that
//!   recovers from errors, which on the same line accepts no mark.
//! - The entry for a key without a mark has the column of the first token on its
//!   line that is not a mark. The key can have begun on an earlier line, as a flow
//!   collection or in quotes; nothing is entered in between, and what was counted
//!   for that line is still free, but where the end of a flow collection stands in
//!   the column of the last entry. There one more is counted.
//! - Between two documents the scanner can accept the mark `---` or `...` while it
//!   holds entries that an error has left. A key on the same line is entered behind
//!   those, whatever their columns. So what was counted before such a line is kept
//!   for good.
//! - No entry goes because of a comment, a directive, a zero byte, or a line that is
//!   indented with tabs. On the last, a mark makes no entry.
//! - There is at most one entry for a block scalar. It is the last one, and while it
//!   is there, the parser expects nothing but its lines and its end.
//! - Rows and columns have 16 bits. Texts with more of them are left to the first
//!   bound.
use crate::text;
use vstd::prelude::*;

verus! {

/// The number of entries that the scanner can save.
pub const ENTRIES: usize = 253;

/// The greatest row and column that the scanner can count to.
pub const GREATEST: usize = 0x7fff;

pub const BYTE_ORDER_MARK: char = '\u{feff}';

// ---------------------------------------------------------------------------
// Places
// ---------------------------------------------------------------------------

/// White space, as it stands behind a mark.
pub open spec fn spacing(c: char) -> bool {
    c == ' ' || c == '\t' || c == '\n' || c == '\r' || c == '\0'
}

/// Whether white space or nothing stands at `i`.
pub open spec fn ended(s: Seq<char>, i: int) -> bool {
    i >= s.len() || spacing(s[i])
}

/// Whether a dash, question mark or colon stands alone at `i`.
pub open spec fn mark(s: Seq<char>, i: int) -> bool {
    (s[i] == '-' || s[i] == '?' || s[i] == ':') && ended(s, i + 1)
}

/// Whether an entry can be made for the character at `i`.
pub open spec fn place(s: Seq<char>, i: int) -> bool {
    mark(s, i) || s[i] == '|' || s[i] == '>'
}

/// The number of places among the first `n` characters.
pub open spec fn places(s: Seq<char>, n: int) -> nat
    decreases n,
{
    if n <= 0 {
        0
    } else {
        places(s, n - 1) + if place(s, n - 1) {
            1nat
        } else {
            0nat
        }
    }
}

// ---------------------------------------------------------------------------
// Columns
// ---------------------------------------------------------------------------

/// What stands before a character on its line.
#[derive(Clone, Copy, Debug, PartialEq, Eq, Structural)]
pub enum Before {
    /// Spaces.
    Spaces,
    /// Spaces, and a tab behind them.
    Tabs,
    /// Marks, and blanks.
    Marks,
    /// The mark between two documents, and blanks.
    Divider,
    /// Something behind which no block opens.
    Content,
}

/// What is known of the scanner's entries when a part of the text has been read.
pub struct Margin {
    pub row: nat,
    pub column: nat,
    pub before: Before,
    /// The number of spaces that the line begins with.
    pub spaces: nat,
    /// At most as many entries lie before a column as there are smaller numbers
    /// here, beside those that are kept for good.
    pub columns: Seq<nat>,
    /// The number of entries that are kept for good.
    pub kept: nat,
    /// Whether there was room for all of them, and for one more, at any time.
    pub held: bool,
}

/// The columns up to `limit`.
pub open spec fn up_to(columns: Seq<nat>, limit: nat) -> Seq<nat>
    decreases columns.len(),
{
    if columns.len() == 0 {
        columns
    } else {
        let rest = up_to(columns.drop_last(), limit);
        if columns.last() <= limit {
            rest.push(columns.last())
        } else {
            rest
        }
    }
}

/// How often a column is listed.
pub open spec fn times(columns: Seq<nat>, column: nat) -> nat
    decreases columns.len(),
{
    if columns.len() == 0 {
        0
    } else {
        times(columns.drop_last(), column) + if columns.last() == column {
            1nat
        } else {
            0nat
        }
    }
}

/// The columns with one of them listed `count` times more.
pub open spec fn repeated(columns: Seq<nat>, column: nat, count: int) -> Seq<nat>
    decreases count,
{
    if count <= 0 {
        columns
    } else {
        repeated(columns, column, count - 1).push(column)
    }
}

/// The columns with one of them listed `count` times at least.
pub open spec fn listed(columns: Seq<nat>, column: nat, count: nat) -> Seq<nat> {
    repeated(columns, column, count - times(columns, column))
}

/// How many entries there can be from the column of a line on, by the first
/// character of the line.
pub open spec fn entries_of_line(s: Seq<char>, i: int) -> nat {
    if s[i] == ']' || s[i] == '}' {
        3
    } else if s[i] == '-' && ended(s, i + 1) {
        2
    } else {
        1
    }
}

/// Whether the mark between two documents begins at `i`.
pub open spec fn divider(s: Seq<char>, i: int) -> bool {
    &&& i + 3 <= s.len()
    &&& s[i] == '-' || s[i] == '.'
    &&& s[i + 1] == s[i]
    &&& s[i + 2] == s[i]
    &&& ended(s, i + 3)
}

/// Whether a line that begins with this character in this column leaves the entries
/// as they are: a comment, a directive or a zero byte.
pub open spec fn passed_over(c: char, column: nat) -> bool {
    c == '#' || c == '\0' || c == '%' && column == 0
}

/// What follows the visible character at `i`.
pub open spec fn margin_behind(s: Seq<char>, i: int, m: Margin) -> Margin {
    let behind = if mark(s, i) {
        Before::Marks
    } else {
        Before::Content
    };
    match m.before {
        Before::Content => m,
        Before::Marks => Margin { columns: m.columns.push(m.column), before: behind, ..m },
        Before::Divider => if m.column < 3 {
            m
        } else if s[i] == '#' {
            Margin { before: Before::Content, ..m }
        } else {
            Margin {
                kept: m.kept + m.columns.len(),
                columns: seq![m.column],
                before: Before::Content,
                ..m
            }
        },
        Before::Tabs => if passed_over(s[i], m.column) {
            Margin { before: Before::Content, ..m }
        } else {
            Margin {
                columns: listed(m.columns, m.spaces, 1),
                before: Before::Content,
                ..m
            }
        },
        Before::Spaces => if passed_over(s[i], m.column) {
            Margin { before: Before::Content, ..m }
        } else if m.column == 0 && divider(s, i) {
            Margin { before: Before::Divider, ..m }
        } else {
            Margin {
                columns: listed(
                    up_to(m.columns, m.column),
                    m.column,
                    entries_of_line(s, i),
                ),
                before: behind,
                ..m
            }
        },
    }
}

/// What follows the character at `i`.
pub open spec fn margin_after(s: Seq<char>, i: int, m: Margin) -> Margin {
    let c = s[i];
    if i == 0 && c == BYTE_ORDER_MARK {
        m
    } else if c == '\n' || c == '\r' {
        Margin {
            row: m.row + 1,
            column: 0,
            before: Before::Spaces,
            spaces: 0,
            held: m.held && m.row < GREATEST,
            ..m
        }
    } else {
        let next = if c == ' ' {
            if m.before == Before::Spaces {
                Margin { spaces: m.spaces + 1, ..m }
            } else {
                m
            }
        } else if c == '\t' {
            if m.before == Before::Spaces {
                Margin { before: Before::Tabs, ..m }
            } else {
                m
            }
        } else {
            margin_behind(s, i, m)
        };
        Margin {
            column: m.column + 1,
            held: m.held && m.column < GREATEST && next.kept + next.columns.len() < ENTRIES,
            ..next
        }
    }
}

/// What is known of the scanner's entries behind the first `n` characters.
pub open spec fn margin(s: Seq<char>, n: int) -> Margin
    decreases n,
{
    if n <= 0 {
        Margin {
            row: 0,
            column: 0,
            before: Before::Spaces,
            spaces: 0,
            columns: Seq::empty(),
            kept: 0,
            held: true,
        }
    } else {
        margin_after(s, n - 1, margin(s, n - 1))
    }
}

// ---------------------------------------------------------------------------
// Both bounds
// ---------------------------------------------------------------------------

/// Whether the scanner has room for the blocks of a text.
pub open spec fn shallow(s: Seq<char>) -> bool {
    places(s, s.len() as int) <= ENTRIES || margin(s, s.len() as int).held
}

/// Once there was too little room, this is not forgotten.
proof fn lemma_held(s: Seq<char>, n: int, m: int)
    requires
        0 <= n <= m,
        !margin(s, n).held,
    ensures
        !margin(s, m).held,
    decreases m - n,
{
    if n < m {
        lemma_held(s, n, m - 1);
    }
}

/// A list of columns as contracts speak of it.
pub open spec fn nats(columns: Seq<usize>) -> Seq<nat> {
    Seq::new(columns.len(), |i: int| columns[i] as nat)
}

proof fn lemma_nats_push(columns: Seq<usize>, column: usize)
    ensures
        nats(columns.push(column)) == nats(columns).push(column as nat),
{
    assert(nats(columns.push(column)) =~= nats(columns).push(column as nat));
}

fn is_ended(chars: &Vec<char>, i: usize) -> (r: bool)
    ensures
        r == ended(chars@, i as int),
{
    i >= chars.len() || chars[i] == ' ' || chars[i] == '\t' || chars[i] == '\n' || chars[i] == '\r'
        || chars[i] == '\0'
}

fn is_mark(chars: &Vec<char>, i: usize) -> (r: bool)
    requires
        i < chars@.len(),
    ensures
        r == mark(chars@, i as int),
{
    let n: usize = chars.len();
    (chars[i] == '-' || chars[i] == '?' || chars[i] == ':') && (i + 1 == n || is_ended(
        chars,
        i + 1,
    ))
}

fn is_divider(chars: &Vec<char>, i: usize) -> (r: bool)
    requires
        i < chars@.len(),
    ensures
        r == divider(chars@, i as int),
{
    let n: usize = chars.len();
    if n - i < 3 {
        return false;
    }
    (chars[i] == '-' || chars[i] == '.') && chars[i + 1] == chars[i] && chars[i + 2] == chars[i]
        && is_ended(chars, i + 3)
}

fn is_passed_over(c: char, column: usize) -> (r: bool)
    ensures
        r == passed_over(c, column as nat),
{
    c == '#' || c == '\0' || c == '%' && column == 0
}

fn count_places(chars: &Vec<char>) -> (r: usize)
    ensures
        r == places(chars@, chars@.len() as int),
{
    let mut count: usize = 0;
    for i in 0..chars.len()
        invariant
            count == places(chars@, i as int),
            count <= i,
    {
        if is_mark(chars, i) || chars[i] == '|' || chars[i] == '>' {
            count = count + 1;
        }
    }
    count
}

/// Drops the columns behind `limit`.
fn cut(columns: Vec<usize>, limit: usize) -> (r: Vec<usize>)
    ensures
        nats(r@) == up_to(nats(columns@), limit as nat),
        r@.len() <= columns@.len(),
{
    let mut out: Vec<usize> = Vec::new();
    proof {
        assert(nats(columns@).take(0) =~= Seq::<nat>::empty());
        assert(nats(out@) =~= Seq::<nat>::empty());
    }
    for i in 0..columns.len()
        invariant
            nats(out@) == up_to(nats(columns@).take(i as int), limit as nat),
            out@.len() <= i,
    {
        let ghost next = nats(columns@).take(i + 1);
        proof {
            assert(next.drop_last() =~= nats(columns@).take(i as int));
            assert(next.last() == columns@[i as int] as nat);
        }
        if columns[i] <= limit {
            proof {
                lemma_nats_push(out@, columns@[i as int]);
            }
            out.push(columns[i]);
        }
    }
    proof {
        assert(nats(columns@).take(columns@.len() as int) =~= nats(columns@));
    }
    out
}

fn count_column(columns: &Vec<usize>, column: usize) -> (r: usize)
    ensures
        r == times(nats(columns@), column as nat),
        r <= columns@.len(),
{
    let mut count: usize = 0;
    proof {
        assert(nats(columns@).take(0) =~= Seq::<nat>::empty());
    }
    for i in 0..columns.len()
        invariant
            count == times(nats(columns@).take(i as int), column as nat),
            count <= i,
    {
        let ghost next = nats(columns@).take(i + 1);
        proof {
            assert(next.drop_last() =~= nats(columns@).take(i as int));
            assert(next.last() == columns@[i as int] as nat);
        }
        if columns[i] == column {
            count = count + 1;
        }
    }
    proof {
        assert(nats(columns@).take(columns@.len() as int) =~= nats(columns@));
    }
    count
}

/// Lists a column `count` times at least.
fn list(columns: Vec<usize>, column: usize, count: usize) -> (r: Vec<usize>)
    ensures
        nats(r@) == listed(nats(columns@), column as nat, count as nat),
        r@.len() <= columns@.len() + count,
{
    let there = count_column(&columns, column);
    let mut out = columns;
    let mut done: usize = there;
    while done < count
        invariant
            nats(out@) == repeated(nats(columns@), column as nat, done - there),
            there <= done,
            out@.len() == columns@.len() + done - there,
            there <= count ==> done <= count,
            there > count ==> done == there,
        decreases count - done,
    {
        proof {
            lemma_nats_push(out@, column);
        }
        out.push(column);
        done = done + 1;
    }
    out
}

/// Whether the columns leave room for all entries.
fn is_held(chars: &Vec<char>) -> (r: bool)
    ensures
        r == margin(chars@, chars@.len() as int).held,
{
    let ghost s = chars@;
    let mut row: usize = 0;
    let mut column: usize = 0;
    let mut before = Before::Spaces;
    let mut spaces: usize = 0;
    let mut columns: Vec<usize> = Vec::new();
    let mut kept: usize = 0;
    proof {
        assert(nats(columns@) =~= Seq::<nat>::empty());
    }
    for i in 0..chars.len()
        invariant
            s == chars@,
            row <= GREATEST,
            column <= GREATEST,
            spaces <= column,
            kept + columns@.len() < ENTRIES,
            margin(s, i as int) == (Margin {
                row: row as nat,
                column: column as nat,
                before,
                spaces: spaces as nat,
                columns: nats(columns@),
                kept: kept as nat,
                held: true,
            }),
    {
        let c = chars[i];
        let ghost m = margin(s, i as int);
        let mut fits = true;
        if i == 0 && c == BYTE_ORDER_MARK {
        } else if c == '\n' || c == '\r' {
            fits = row < GREATEST;
            row = row + 1;
            column = 0;
            before = Before::Spaces;
            spaces = 0;
        } else {
            fits = column < GREATEST;
            if c == ' ' {
                if before == Before::Spaces {
                    spaces = spaces + 1;
                }
            } else if c == '\t' {
                if before == Before::Spaces {
                    before = Before::Tabs;
                }
            } else {
                let behind = if is_mark(chars, i) {
                    Before::Marks
                } else {
                    Before::Content
                };
                match before {
                    Before::Content => {},
                    Before::Marks => {
                        proof {
                            lemma_nats_push(columns@, column);
                        }
                        columns.push(column);
                        before = behind;
                    },
                    Before::Divider => {
                        if column >= 3 {
                            before = Before::Content;
                            if c != '#' {
                                kept = kept + columns.len();
                                columns = Vec::new();
                                columns.push(column);
                                proof {
                                    assert(nats(columns@) =~= seq![column as nat]);
                                }
                            }
                        }
                    },
                    Before::Tabs => {
                        before = Before::Content;
                        if !is_passed_over(c, column) {
                            columns = list(columns, spaces, 1);
                        }
                    },
                    Before::Spaces => {
                        if is_passed_over(c, column) {
                            before = Before::Content;
                        } else if column == 0 && is_divider(chars, i) {
                            before = Before::Divider;
                        } else {
                            let count: usize = if c == ']' || c == '}' {
                                3
                            } else if c == '-' && behind == Before::Marks {
                                2
                            } else {
                                1
                            };
                            columns = list(cut(columns, column), column, count);
                            before = behind;
                        }
                    },
                }
                fits = fits && kept + columns.len() < ENTRIES;
            }
            column = column + 1;
        }
        if !fits {
            proof {
                assert(!margin(s, i + 1).held);
                lemma_held(s, i + 1, s.len() as int);
            }
            return false;
        }
    }
    true
}

/// Whether the scanner has room for the blocks of a text.
pub fn is_shallow(text: &str) -> (r: bool)
    ensures
        r == shallow(text@),
{
    let chars = text::chars_of(text);
    count_places(&chars) <= ENTRIES || is_held(&chars)
}

// ---------------------------------------------------------------------------
// What is let through
// ---------------------------------------------------------------------------

/// The number of dashes, question marks, colons, bars and angle brackets among the first `n`
/// characters.
pub open spec fn signs(s: Seq<char>, n: int) -> nat
    decreases n,
{
    if n <= 0 {
        0
    } else {
        let c = s[n - 1];
        signs(s, n - 1) + if c == '-' || c == '?' || c == ':' || c == '|' || c == '>' {
            1nat
        } else {
            0nat
        }
    }
}

proof fn lemma_places_are_signs(s: Seq<char>, n: int)
    requires
        0 <= n <= s.len(),
    ensures
        places(s, n) <= signs(s, n),
    decreases n,
{
    if n > 0 {
        lemma_places_are_signs(s, n - 1);
    }
}

/// A text with no more signs than the scanner has entries is let through, whatever it is.
pub proof fn law_few_signs_are_shallow(s: Seq<char>)
    requires
        signs(s, s.len() as int) <= 253,
    ensures
        shallow(s),
{
    lemma_places_are_signs(s, s.len() as int);
}

/// Whether a line begins at `i`.
pub open spec fn begins_line(s: Seq<char>, i: int) -> bool {
    i == 0 || s[i - 1] == '\n'
}

/// A text whose lines are keys in the first column: none begins with white space, a comment,
/// a directive, a byte order mark or a mark of a block, nor is empty.
pub open spec fn keys_alone(s: Seq<char>) -> bool {
    &&& forall|i: int| 0 <= i < s.len() ==> #[trigger] s[i] != '\r'
    &&& forall|i: int|
        0 <= i < s.len() && #[trigger] begins_line(s, i) ==> 'a' <= s[i] <= 'z'
}

proof fn lemma_keys_alone(s: Seq<char>, n: int)
    requires
        keys_alone(s),
        s.len() <= 0x7fff,
        0 <= n <= s.len(),
    ensures
        ({
            let m = margin(s, n);
            &&& m.row <= n
            &&& m.column <= n
            &&& m.kept == 0
            &&& m.columns == if n == 0 {
                Seq::<nat>::empty()
            } else {
                seq![0nat]
            }
            &&& m.held
            &&& m.before == if begins_line(s, n) {
                Before::Spaces
            } else {
                Before::Content
            }
            &&& begins_line(s, n) ==> m.column == 0
        }),
    decreases n,
{
    if n > 0 {
        let i = n - 1;
        lemma_keys_alone(s, i);
        let m = margin(s, i);
        let c = s[i];
        if begins_line(s, i) {
            assert('a' <= c <= 'z');
            assert(!divider(s, i));
            assert(!mark(s, i));
            reveal_with_fuel(up_to, 3);
            reveal_with_fuel(times, 3);
            reveal_with_fuel(repeated, 3);
            assert(up_to(Seq::<nat>::empty(), 0) =~= Seq::<nat>::empty());
            assert(seq![0nat].drop_last() =~= Seq::<nat>::empty());
            assert(Seq::<nat>::empty().push(0nat) =~= seq![0nat]);
            assert(up_to(seq![0nat], 0) =~= seq![0nat]);
            assert(listed(up_to(m.columns, 0), 0, 1) =~= seq![0nat]);
        }
    } else {
        assert(margin(s, n).columns =~= Seq::<nat>::empty());
    }
}

/// Any number of keys in the first column is let through, up to the rows that the scanner
/// can count.
pub proof fn law_keys_alone_are_shallow(s: Seq<char>)
    requires
        keys_alone(s),
        s.len() <= 0x7fff,
    ensures
        shallow(s),
{
    lemma_keys_alone(s, s.len() as int);
}

/// Sequences in one another: so many dashes on a line, each with a space behind it.
pub open spec fn dashes(n: nat) -> Seq<char> {
    Seq::new(
        2 * n,
        |i: int|
            if i % 2 == 0 {
                '-'
            } else {
                ' '
            },
    )
}

proof fn lemma_dashes(n: nat, k: int)
    requires
        0 <= k <= n,
    ensures
        places(dashes(n), 2 * k) == k,
        k >= 1 ==> {
            let m = margin(dashes(n), 2 * k);
            &&& m.before == Before::Marks
            &&& m.kept == 0
            &&& m.columns.len() == k + 1
            &&& k >= 252 ==> !m.held
        },
    decreases k,
{
    let s = dashes(n);
    if k > 0 {
        lemma_dashes(n, k - 1);
        let i = 2 * (k - 1);
        assert(i % 2 == 0 && (i + 1) % 2 == 1);
        assert(s[i] == '-' && s[i + 1] == ' ');
        assert(mark(s, i) && !place(s, i + 1));
        assert(places(s, i + 1) == places(s, i) + 1);
        assert(places(s, i + 2) == places(s, i + 1));
        let m = margin(s, i);
        let first = margin_after(s, i, m);
        assert(margin(s, i + 1) == first);
        assert(margin(s, i + 2) == margin_after(s, i + 1, first));
        if k == 1 {
            assert(!divider(s, 0));
            reveal_with_fuel(up_to, 2);
            reveal_with_fuel(times, 2);
            reveal_with_fuel(repeated, 4);
            assert(up_to(Seq::<nat>::empty(), 0) =~= Seq::<nat>::empty());
            assert(m.columns =~= Seq::<nat>::empty());
            assert(entries_of_line(s, 0) == 2);
            assert(listed(Seq::<nat>::empty(), 0, 2).len() == 2);
        }
    }
}

/// Sequences in one another are let through exactly up to the depth that the scanner has
/// entries for.
pub proof fn law_too_deep_sequences_are_refused(n: nat)
    ensures
        shallow(dashes(n)) <==> n <= 253,
{
    lemma_dashes(n, n as int);
}

proof fn lemma_times_up_to(columns: Seq<nat>, limit: nat, c: nat)
    ensures
        times(up_to(columns, limit), c) == if c <= limit {
            times(columns, c)
        } else {
            0
        },
    decreases columns.len(),
{
    if columns.len() > 0 {
        lemma_times_up_to(columns.drop_last(), limit, c);
        let rest = up_to(columns.drop_last(), limit);
        assert(rest.push(columns.last()).drop_last() =~= rest);
    }
}

proof fn lemma_times_repeated(columns: Seq<nat>, column: nat, count: int, c: nat)
    ensures
        times(repeated(columns, column, count), c) == times(columns, c) + if c == column && count
            > 0 {
            count
        } else {
            0
        },
        repeated(columns, column, count).len() == columns.len() + if count > 0 {
            count
        } else {
            0
        },
    decreases count,
{
    if count > 0 {
        lemma_times_repeated(columns, column, count - 1, c);
        let rest = repeated(columns, column, count - 1);
        assert(rest.push(column).drop_last() =~= rest);
    }
}

/// The greater of two numbers.
pub open spec fn greater(a: nat, b: nat) -> nat {
    if a >= b {
        a
    } else {
        b
    }
}

/// What the first visible character of a line does to the entries that are counted. A comment
/// and a zero byte do nothing, nor does a directive in the first column. Any other character
/// ends the entries behind its column, and there is one in its column from then on, or two
/// where it is a dash alone, or three where it closes a flow collection.
pub proof fn law_lines_end_the_entries_behind_them(s: Seq<char>, i: int, m: Margin, c: nat)
    requires
        0 <= i < s.len(),
        m.before == Before::Spaces,
        s[i] != ' ',
        s[i] != '\t',
        s[i] != '\n',
        s[i] != '\r',
        s[i] != '\u{feff}',
    ensures
        ({
            let next = margin_after(s, i, m);
            let alone = i + 1 >= s.len() || s[i + 1] == ' ' || s[i + 1] == '\t' || s[i + 1] == '\n'
                || s[i + 1] == '\r' || s[i + 1] == '\0';
            let three = i + 3 <= s.len() && s[i + 1] == s[i] && s[i + 2] == s[i] && (i + 3
                >= s.len() || s[i + 3] == ' ' || s[i + 3] == '\t' || s[i + 3] == '\n' || s[i + 3]
                == '\r' || s[i + 3] == '\0');
            let divides = m.column == 0 && (s[i] == '-' || s[i] == '.') && three;
            let sign = (s[i] == '-' || s[i] == '?' || s[i] == ':') && alone;
            let count: nat = if s[i] == ']' || s[i] == '}' {
                3
            } else if s[i] == '-' && alone {
                2
            } else {
                1
            };
            &&& next.kept == m.kept
            &&& if s[i] == '#' || s[i] == '\0' || s[i] == '%' && m.column == 0 {
                next.columns == m.columns && next.before == Before::Content
            } else if divides {
                next.columns == m.columns && next.before == Before::Divider
            } else {
                &&& times(next.columns, c) == if c < m.column {
                    times(m.columns, c)
                } else if c == m.column {
                    greater(times(m.columns, c), count)
                } else {
                    0
                }
                &&& next.before == if sign {
                    Before::Marks
                } else {
                    Before::Content
                }
            }
        }),
{
    lemma_times_up_to(m.columns, m.column, c);
    lemma_times_up_to(m.columns, m.column, m.column);
    let kept = up_to(m.columns, m.column);
    let count = entries_of_line(s, i);
    lemma_times_repeated(kept, m.column, count - times(kept, m.column), c);
}

/// What a visible character does behind others on its line. Behind marks it makes one more
/// entry, in its own column. Behind the mark between two documents everything counted so far
/// is kept for good. Behind a tab it makes sure of an entry for the spaces before the tab.
/// Behind anything else it does nothing.
pub proof fn law_marks_make_entries(s: Seq<char>, i: int, m: Margin, c: nat)
    requires
        0 < i < s.len(),
        s[i] != ' ',
        s[i] != '\t',
        s[i] != '\n',
        s[i] != '\r',
    ensures
        ({
            let next = margin_after(s, i, m);
            let alone = i + 1 >= s.len() || s[i + 1] == ' ' || s[i + 1] == '\t' || s[i + 1] == '\n'
                || s[i + 1] == '\r' || s[i + 1] == '\0';
            let sign = (s[i] == '-' || s[i] == '?' || s[i] == ':') && alone;
            &&& m.before == Before::Content ==> next.columns == m.columns && next.kept == m.kept
                && next.before == Before::Content
            &&& m.before == Before::Marks ==> times(next.columns, c) == times(m.columns, c) + (if c
                == m.column {
                1nat
            } else {
                0nat
            }) && next.kept == m.kept && (next.before == Before::Marks <==> sign)
            &&& m.before == Before::Divider && m.column < 3 ==> next.columns == m.columns
                && next.kept == m.kept && next.before == Before::Divider
            &&& m.before == Before::Divider && m.column >= 3 && s[i] == '#' ==> next.columns
                == m.columns && next.kept == m.kept && next.before == Before::Content
            &&& m.before == Before::Divider && m.column >= 3 && s[i] != '#' ==> next.columns
                == seq![m.column] && next.kept == m.kept + m.columns.len() && next.before
                == Before::Content
            &&& m.before == Before::Tabs && (s[i] == '#' || s[i] == '\0' || s[i] == '%' && m.column
                == 0) ==> next.columns == m.columns && next.before == Before::Content
            &&& m.before == Before::Tabs && !(s[i] == '#' || s[i] == '\0' || s[i] == '%'
                && m.column == 0) ==> times(next.columns, c) == (if c == m.spaces {
                greater(times(m.columns, c), 1)
            } else {
                times(m.columns, c)
            }) && next.kept == m.kept && next.before == Before::Content
        }),
{
    assert(m.columns.push(m.column).drop_last() =~= m.columns);
    lemma_times_repeated(m.columns, m.spaces, 1 - times(m.columns, m.spaces), c);
}

/// How lines and columns are counted, and when there is no more room: as soon as the entries,
/// with those that are kept, are 253 or more, or a row or a column is too great to count.
pub proof fn law_room_is_counted(s: Seq<char>, i: int, m: Margin)
    requires
        0 <= i < s.len(),
        i > 0 || s[i] != '\u{feff}',
    ensures
        ({
            let next = margin_after(s, i, m);
            let ends = s[i] == '\n' || s[i] == '\r';
            &&& ends ==> next.row == m.row + 1 && next.column == 0 && next.spaces == 0
                && next.before == Before::Spaces && next.columns == m.columns && next.kept == m.kept
                && (next.held <==> m.held && m.row < 0x7fff)
            &&& !ends ==> next.row == m.row && next.column == m.column + 1 && (next.held <==> m.held
                && m.column < 0x7fff && next.kept + next.columns.len() < 253)
            &&& s[i] == ' ' || s[i] == '\t' ==> next.columns == m.columns && next.kept == m.kept
            &&& s[i] == ' ' ==> next.before == m.before
            &&& s[i] == ' ' && m.before == Before::Spaces ==> next.spaces == m.spaces + 1
            &&& s[i] != ' ' && !ends || m.before != Before::Spaces && !ends ==> next.spaces
                == m.spaces
            &&& s[i] == '\t' ==> next.before == if m.before == Before::Spaces {
                Before::Tabs
            } else {
                m.before
            }
        }),
{
}

} // verus!
