//! Values in YAML documents: finding the one that the user points at, and
//! writing the one that takes its place.
use crate::document;
use crate::document::Range;
use crate::error::AppError;
use crate::error::AppResult;
use crate::error::Failure;
use crate::syntax;
use crate::syntax::Branch;
use crate::syntax::SyntaxNode;
use crate::text;
use crate::validation;
use vstd::prelude::*;

verus! {

pub const OUTSIDE: &'static str = "The selection is outside the current document";

pub const UNPARSED: &'static str = "Unable to parse the YAML document";

pub const MISPLACED: &'static str = "the syntax tree does not fit the document";

pub const NOT_ONE_SCALAR: &'static str = "The selection must contain exactly one YAML scalar value";

pub const NO_SCALAR: &'static str = "Place the cursor on a YAML key or inside its scalar value";

pub const IS_KEY: &'static str = "Ansible Vault can encrypt YAML values, not mapping keys";

pub const IN_FLOW: &'static str =
    "Block-style !vault values cannot be inserted into a flow-style YAML collection";

pub const NOT_A_STRING: &'static str = "The selected YAML scalar is not a string value";

pub const FIX_BEFORE_ENCRYPTING: &'static str =
    "Fix YAML syntax errors before encrypting a scalar value";

pub const FIX_BEFORE_DECRYPTING: &'static str =
    "Fix YAML syntax errors before decrypting a !vault value";

pub const NO_VAULT: &'static str = "Place the cursor inside exactly one !vault block";

pub const MANY_VAULTS: &'static str = "The selection intersects more than one !vault block";

/// A scalar value that can be encrypted: its bytes in the document, what it
/// says, and the indentation of the lines that are to follow its tag.
#[derive(Clone, Debug, PartialEq, Eq)]
pub struct ScalarTarget {
    pub start: usize,
    pub end: usize,
    pub plaintext: String,
    pub continuation_indent: String,
}

/// A `!vault` value that can be decrypted: its bytes in the document, its
/// payload, and the indentation of its lines.
#[derive(Clone, Debug, PartialEq, Eq)]
pub struct VaultTarget {
    pub start: usize,
    pub end: usize,
    pub vault_text: String,
    pub continuation_indent: String,
}

/// What the user points at.
#[derive(Clone, Copy, Debug, PartialEq, Eq, Structural)]
pub enum ValueContext {
    Plaintext,
    Vault,
}

/// A target as contracts speak of it.
pub struct Found {
    pub start: int,
    pub end: int,
    pub content: Seq<char>,
    pub continuation_indent: Seq<char>,
}

impl View for ScalarTarget {
    type V = Found;

    open spec fn view(&self) -> Found {
        Found {
            start: self.start as int,
            end: self.end as int,
            content: self.plaintext@,
            continuation_indent: self.continuation_indent@,
        }
    }
}

impl View for VaultTarget {
    type V = Found;

    open spec fn view(&self) -> Found {
        Found {
            start: self.start as int,
            end: self.end as int,
            content: self.vault_text@,
            continuation_indent: self.continuation_indent@,
        }
    }
}

/// Whether a result is the one that a specification gives.
pub open spec fn agrees<T: View<V = Found>>(
    result: AppResult<T>,
    wanted: Result<Found, Failure>,
) -> bool {
    match (result, wanted) {
        (Ok(target), Ok(found)) => target@ == found,
        (Err(error), Err(failure)) => error@ == failure,
        _ => false,
    }
}

/// Whether two byte offsets enclose whole characters of a text.
pub open spec fn placed(s: Seq<char>, start: int, end: int) -> bool {
    &&& 0 <= start <= end <= text::byte_len(s)
    &&& document::boundary(s, start)
    &&& document::boundary(s, end)
}

// ---------------------------------------------------------------------------
// Selections
// ---------------------------------------------------------------------------

/// The byte offsets of both ends of a range, where both exist.
pub open spec fn selection(s: Seq<char>, range: Range) -> Option<(int, int)> {
    let start = document::offset_at(s, range.start.line as nat, range.start.character as nat);
    let end = document::offset_at(s, range.end.line as nat, range.end.character as nat);
    match (start, end) {
        (Some(a), Some(b)) => Some((a as int, b as int)),
        _ => None,
    }
}

/// What the YAML parser says of a text. One that is too long or too deep for it
/// counts as one without a tree.
pub open spec fn syntax_gate(s: Seq<char>) -> Result<Option<bool>, Seq<char>> {
    if syntax::parsable(s) {
        syntax::yaml_error(s)
    } else {
        Ok(None)
    }
}

fn syntax_gate_of(text: &str) -> (r: Result<Option<bool>, String>)
    ensures
        match r {
            Ok(found) => syntax_gate(text@) == Ok::<Option<bool>, Seq<char>>(found),
            Err(message) => syntax_gate(text@) == Err::<Option<bool>, Seq<char>>(message@),
        },
{
    if syntax::is_parsable(text) {
        syntax::syntax_error(text)
    } else {
        Ok(None)
    }
}

proof fn lemma_len_bytes(s: Seq<char>)
    ensures
        s.len() <= text::byte_len(s),
{
    text::lemma_byte_len_monotonic(s, 0, s.len() as int);
    assert(s.take(s.len() as int) =~= s);
}

// ---------------------------------------------------------------------------
// Vault values
// ---------------------------------------------------------------------------

/// The column of a `!vault` tag that opens a block scalar. The tag stands at the
/// start of the line, behind a colon or behind a dash, and a bar follows it.
pub open spec fn tag_column(line: Seq<char>) -> Option<int> {
    match text::find(line, validation::VAULT_TAG@) {
        None => None,
        Some(column) => {
            let prefix = text::trim_end(line.take(column));
            if prefix.len() > 0 && prefix.last() != ':' && prefix.last() != '-' {
                None
            } else if text::starts_with(
                text::trim_start(line.skip(column + validation::VAULT_TAG@.len())),
                seq!['|'],
            ) {
                Some(column)
            } else {
                None
            }
        },
    }
}

/// The line on which the payload under the tag on the line `index` begins: the
/// next one that is not blank.
pub open spec fn payload_start(s: Seq<char>, lines: Seq<(int, int)>, index: int) -> int {
    validation::next_visible(s, lines, index + 1)
}

/// The indentation of the payload under the tag on the line `index`: that of its
/// first line, where it is deeper than that of the tag's line.
pub open spec fn payload_depth(s: Seq<char>, lines: Seq<(int, int)>, index: int) -> Option<nat> {
    let first = payload_start(s, lines, index);
    if first < lines.len() && validation::indent(validation::content(s, lines[first]))
        > validation::indent(validation::content(s, lines[index])) {
        Some(validation::indent(validation::content(s, lines[first])))
    } else {
        None
    }
}

/// The line behind the last one, from `index` on, that belongs to a payload of the
/// given depth. Blank lines belong to it where a line follows that is deep enough.
pub open spec fn payload_stop(s: Seq<char>, lines: Seq<(int, int)>, index: int, depth: nat) -> int
    decreases lines.len() - index,
{
    let next = validation::next_visible(s, lines, index);
    if 0 <= index <= next < lines.len() && validation::indent(validation::content(s, lines[next]))
        >= depth {
        payload_stop(s, lines, next + 1, depth)
    } else {
        index
    }
}

/// The line behind the payload under the tag on the line `index`.
pub open spec fn payload_end(s: Seq<char>, lines: Seq<(int, int)>, index: int) -> int {
    match payload_depth(s, lines, index) {
        Some(depth) => payload_stop(s, lines, payload_start(s, lines, index), depth),
        None => index + 1,
    }
}

/// The lines from `first` up to `stop` that are not blank, without their first
/// `depth` characters.
pub open spec fn cut_lines(
    s: Seq<char>,
    lines: Seq<(int, int)>,
    first: int,
    stop: int,
    depth: nat,
) -> Seq<Seq<char>>
    decreases stop - first,
{
    if stop <= first {
        Seq::empty()
    } else {
        let before = cut_lines(s, lines, first, stop - 1, depth);
        let last = validation::content(s, lines[stop - 1]);
        if validation::blank_line(last) {
            before
        } else {
            before.push(last.skip(depth as int))
        }
    }
}

/// The value whose tag stands in the given column of the line `index`.
pub open spec fn vault_at(s: Seq<char>, lines: Seq<(int, int)>, index: int, column: int) -> Found {
    let stop = payload_end(s, lines, index);
    let payload = match payload_depth(s, lines, index) {
        Some(depth) => cut_lines(s, lines, payload_start(s, lines, index), stop, depth),
        None => Seq::empty(),
    };
    let indent = match payload_depth(s, lines, index) {
        Some(depth) => depth,
        None => validation::indent(validation::content(s, lines[index])) + 2,
    };
    Found {
        start: text::byte_len(s.take(lines[index].0 + column)) as int,
        end: text::byte_len(s.take(lines[stop - 1].1)) as int,
        content: text::join(payload, seq!['\n']) + seq!['\n'],
        continuation_indent: text::spaces(indent),
    }
}

/// Whether a selection lies in the value or on the line of its tag, in part at
/// least.
pub open spec fn selects(
    s: Seq<char>,
    lines: Seq<(int, int)>,
    index: int,
    start: int,
    end: int,
) -> bool {
    let from = text::byte_len(s.take(lines[index].0));
    let to = text::byte_len(s.take(lines[payload_end(s, lines, index) - 1].1));
    if start == end {
        from <= start <= to
    } else {
        start < to && end > from
    }
}

/// The values from the line `index` on that are selected.
pub open spec fn selected_vaults(
    s: Seq<char>,
    lines: Seq<(int, int)>,
    index: int,
    start: int,
    end: int,
) -> Seq<Found>
    decreases lines.len() - index,
{
    if !(0 <= index < lines.len()) {
        Seq::empty()
    } else {
        match tag_column(validation::content(s, lines[index])) {
            None => selected_vaults(s, lines, index + 1, start, end),
            Some(column) => {
                proof {
                    lemma_payload_end(s, lines, index);
                }
                let rest = selected_vaults(s, lines, payload_end(s, lines, index), start, end);
                if selects(s, lines, index, start, end) {
                    seq![vault_at(s, lines, index, column)] + rest
                } else {
                    rest
                }
            },
        }
    }
}

pub proof fn lemma_payload_end(s: Seq<char>, lines: Seq<(int, int)>, index: int)
    requires
        0 <= index < lines.len(),
    ensures
        index < payload_end(s, lines, index) <= lines.len(),
        payload_depth(s, lines, index) is Some ==> index < payload_start(s, lines, index)
            < payload_end(s, lines, index),
{
    let first = payload_start(s, lines, index);
    validation::lemma_next_visible(s, lines, index + 1);
    match payload_depth(s, lines, index) {
        Some(depth) => {
            lemma_payload_stop(s, lines, first + 1, depth);
        },
        None => {},
    }
}

pub proof fn lemma_payload_stop(s: Seq<char>, lines: Seq<(int, int)>, index: int, depth: nat)
    requires
        0 <= index <= lines.len(),
    ensures
        index <= payload_stop(s, lines, index, depth) <= lines.len(),
    decreases lines.len() - index,
{
    let next = validation::next_visible(s, lines, index);
    validation::lemma_next_visible(s, lines, index);
    if next < lines.len() && validation::indent(validation::content(s, lines[next])) >= depth {
        lemma_payload_stop(s, lines, next + 1, depth);
    }
}

/// Blank lines add nothing to a payload.
proof fn lemma_cut_over_blank_lines(
    s: Seq<char>,
    lines: Seq<(int, int)>,
    first: int,
    stop: int,
    depth: nat,
)
    requires
        0 <= first <= stop <= lines.len(),
    ensures
        cut_lines(s, lines, first, validation::next_visible(s, lines, stop), depth) == cut_lines(
            s,
            lines,
            first,
            stop,
            depth,
        ),
    decreases lines.len() - stop,
{
    if stop < lines.len() && validation::blank_line(validation::content(s, lines[stop])) {
        lemma_cut_over_blank_lines(s, lines, first, stop + 1, depth);
    }
}

/// The one `!vault` value that a range selects, or why there is none. `syntax`
/// is what the YAML parser says of the text.
pub open spec fn vault_outcome(
    s: Seq<char>,
    range: Range,
    syntax: Result<Option<bool>, Seq<char>>,
) -> Result<Found, Failure> {
    match syntax {
        Err(message) => Err(Failure::Internal(message)),
        Ok(None) => Err(Failure::User(UNPARSED@)),
        Ok(Some(true)) => Err(Failure::User(FIX_BEFORE_DECRYPTING@)),
        Ok(Some(false)) => match selection(s, range) {
            None => Err(Failure::User(OUTSIDE@)),
            Some((start, end)) => {
                let found = selected_vaults(s, validation::document_lines(s, 0), 0, start, end);
                if found.len() == 1 {
                    Ok(found[0])
                } else if found.len() == 0 {
                    Err(Failure::User(NO_VAULT@))
                } else {
                    Err(Failure::User(MANY_VAULTS@))
                }
            },
        },
    }
}

/// What `find_vault` finds.
pub open spec fn found_vault(s: Seq<char>, range: Range) -> Result<Found, Failure> {
    vault_outcome(s, range, syntax_gate(s))
}

fn vault_tag_column(line: &[char]) -> (r: Option<usize>)
    ensures
        match r {
            Some(column) => tag_column(line@) == Some(column as int) && column <= line@.len(),
            None => tag_column(line@) is None,
        },
{
    let bar: [char; 1] = ['|'];
    proof {
        assert(bar@ =~= seq!['|']);
    }
    let length: usize = line.len();
    let tag = text::chars_of(validation::VAULT_TAG);
    match text::found(line, tag.as_slice()) {
        None => None,
        Some(column) => {
            proof {
                assert(line@.subrange(0, column as int) =~= line@.take(column as int));
                assert(line@.subrange(column + tag@.len(), line@.len() as int) =~= line@.skip(
                    column + tag@.len(),
                ));
            }
            let prefix = text::trimmed_end(&line[0..column]);
            if prefix.len() > 0 && prefix[prefix.len() - 1] != ':' && prefix[prefix.len() - 1]
                != '-' {
                return None;
            }
            let behind: &[char] = &line[column + tag.len()..length];
            if text::has_prefix(text::trimmed_start(behind), bar.as_slice()) {
                Some(column)
            } else {
                None
            }
        },
    }
}

proof fn lemma_indent(line: Seq<char>)
    ensures
        validation::indent(line) <= line.len(),
{
    text::lemma_prefix_len_bounds(line, validation::space());
}

proof fn lemma_vault_placed(s: Seq<char>, lines: Seq<(int, int)>, index: int, column: int)
    requires
        0 <= index < lines.len(),
        validation::all_in_text(s, lines),
        validation::lines_in_order(lines),
        0 <= column <= lines[index].1 - lines[index].0,
    ensures
        placed(
            s,
            vault_at(s, lines, index, column).start,
            vault_at(s, lines, index, column).end,
        ),
{
    lemma_payload_end(s, lines, index);
    let last = payload_end(s, lines, index) - 1;
    let from = lines[index].0 + column;
    let to = lines[last].1;
    assert(validation::in_text(s, lines[index]) && validation::in_text(s, lines[last]));
    if index < last {
        assert(lines[index].1 < lines[last].0);
    }
    document::lemma_chars_before(s, from);
    document::lemma_chars_before(s, to);
    text::lemma_byte_len_monotonic(s, from, to);
    text::lemma_byte_len_subrange(s, 0, to);
}

fn next_visible_of(chars: &[char], lines: &Vec<(usize, usize)>, index: usize) -> (r: usize)
    requires
        index <= lines@.len(),
        validation::all_in_text(chars@, validation::spans(lines@)),
    ensures
        r == validation::next_visible(chars@, validation::spans(lines@), index as int),
        index <= r <= lines@.len(),
{
    let ghost s = chars@;
    let ghost all = validation::spans(lines@);
    let mut next: usize = index;
    while next < lines.len() && validation::is_blank_line(&chars[lines[next].0..lines[next].1])
        invariant
            s == chars@,
            all == validation::spans(lines@),
            validation::all_in_text(s, all),
            index <= next <= lines@.len(),
            validation::next_visible(s, all, index as int) == validation::next_visible(
                s,
                all,
                next as int,
            ),
        decreases lines@.len() - next,
    {
        proof {
            assert(all[next as int] == (lines@[next as int].0 as int, lines@[next as int].1 as int));
        }
        next = next + 1;
    }
    proof {
        if next < lines@.len() {
            assert(all[next as int] == (lines@[next as int].0 as int, lines@[next as int].1 as int));
        }
    }
    next
}

fn collect_vaults(
    chars: &[char],
    lines: &Vec<(usize, usize)>,
    start: usize,
    end: usize,
) -> (r: Vec<VaultTarget>)
    requires
        text::byte_len(chars@) <= syntax::LONGEST_TEXT,
        validation::all_in_text(chars@, validation::spans(lines@)),
        validation::lines_in_order(validation::spans(lines@)),
    ensures
        ({
            let wanted = selected_vaults(
                chars@,
                validation::spans(lines@),
                0,
                start as int,
                end as int,
            );
            r@.len() == wanted.len() && forall|i: int|
                0 <= i < wanted.len() ==> (#[trigger] r@[i])@ == wanted[i]
        }),
        forall|i: int|
            0 <= i < r@.len() ==> placed(
                chars@,
                (#[trigger] r@[i]).start as int,
                r@[i].end as int,
            ),
{
    let ghost s = chars@;
    let ghost all = validation::spans(lines@);
    let mut out: Vec<VaultTarget> = Vec::new();
    let mut index: usize = 0;
    let ghost mut done: Seq<Found> = Seq::empty();
    let newline: [char; 1] = ['\n'];
    proof {
        assert(newline@ =~= seq!['\n']);
        assert(done + selected_vaults(s, all, 0, start as int, end as int) =~= selected_vaults(
            s,
            all,
            0,
            start as int,
            end as int,
        ));
        lemma_len_bytes(s);
    }
    while index < lines.len()
        invariant
            s == chars@,
            all == validation::spans(lines@),
            newline@ == seq!['\n'],
            s.len() <= text::byte_len(s) <= syntax::LONGEST_TEXT,
            validation::all_in_text(s, all),
            validation::lines_in_order(all),
            index <= all.len(),
            out@.len() == done.len(),
            forall|i: int| 0 <= i < done.len() ==> (#[trigger] out@[i])@ == done[i],
            forall|i: int|
                0 <= i < out@.len() ==> placed(
                    s,
                    (#[trigger] out@[i]).start as int,
                    out@[i].end as int,
                ),
            done + selected_vaults(s, all, index as int, start as int, end as int)
                == selected_vaults(s, all, 0, start as int, end as int),
        decreases all.len() - index,
    {
        let (line_start, line_end) = lines[index];
        proof {
            assert(all[index as int] == (line_start as int, line_end as int));
            assert(validation::in_text(s, all[index as int]));
        }
        let line: &[char] = &chars[line_start..line_end];
        match vault_tag_column(line) {
            None => {
                index = index + 1;
            },
            Some(column) => {
                let line_indent = validation::line_indent(line);
                let first = next_visible_of(chars, lines, index + 1);
                let mut depth: Option<usize> = None;
                if first < lines.len() {
                    let (next_start, next_end) = lines[first];
                    proof {
                        assert(all[first as int] == (next_start as int, next_end as int));
                        assert(validation::in_text(s, all[first as int]));
                    }
                    let next: &[char] = &chars[next_start..next_end];
                    if validation::line_indent(next) > line_indent {
                        depth = Some(validation::line_indent(next));
                    }
                }
                proof {
                    assert(payload_depth(s, all, index as int) == match depth {
                        Some(d) => Some(d as nat),
                        None => None,
                    });
                    lemma_payload_end(s, all, index as int);
                    lemma_indent(line@);
                }
                let mut stop: usize = index + 1;
                let mut payload: Vec<&[char]> = Vec::new();
                if let Some(required) = depth {
                    stop = first;
                    proof {
                        assert(text::views(payload@) =~= cut_lines(
                            s,
                            all,
                            first as int,
                            first as int,
                            required as nat,
                        ));
                    }
                    let mut next: usize = first;
                    proof {
                        validation::lemma_next_visible(s, all, index + 1);
                        assert(validation::next_visible(s, all, first as int) == first);
                    }
                    while next < lines.len() && validation::line_indent(
                        &chars[lines[next].0..lines[next].1],
                    ) >= required
                        invariant
                            s == chars@,
                            all == validation::spans(lines@),
                            validation::all_in_text(s, all),
                            index < first <= stop <= next <= all.len(),
                            next == validation::next_visible(s, all, stop as int),
                            text::views(payload@) == cut_lines(
                                s,
                                all,
                                first as int,
                                stop as int,
                                required as nat,
                            ),
                            payload_stop(s, all, first as int, required as nat) == payload_stop(
                                s,
                                all,
                                stop as int,
                                required as nat,
                            ),
                        decreases all.len() - next,
                    {
                        let (from, to) = lines[next];
                        let ghost before = payload@;
                        proof {
                            assert(all[next as int] == (from as int, to as int));
                            lemma_indent(s.subrange(from as int, to as int));
                            validation::lemma_next_visible(s, all, stop as int);
                            lemma_cut_over_blank_lines(
                                s,
                                all,
                                first as int,
                                stop as int,
                                required as nat,
                            );
                        }
                        let content: &[char] = &chars[from..to];
                        payload.push(&content[required..content.len()]);
                        proof {
                            assert(text::views(payload@) =~= text::views(before).push(
                                content@.skip(required as int),
                            ));
                        }
                        stop = next + 1;
                        next = next_visible_of(chars, lines, stop);
                    }
                    proof {
                        if next < lines@.len() {
                            assert(all[next as int] == (
                                lines@[next as int].0 as int,
                                lines@[next as int].1 as int,
                            ));
                        }
                    }
                }
                proof {
                    assert(stop == payload_end(s, all, index as int));
                    assert(all[stop - 1] == (lines@[stop - 1].0 as int, lines@[stop - 1].1 as int));
                    assert(validation::in_text(s, all[stop - 1]));
                }
                let from = document::offset_of(chars, line_start);
                let to = document::offset_of(chars, lines[stop - 1].1);
                let selected = if start == end {
                    start >= from && start <= to
                } else {
                    start < to && end > from
                };
                proof {
                    assert(selected == selects(s, all, index as int, start as int, end as int));
                }
                let ghost rest = selected_vaults(s, all, stop as int, start as int, end as int);
                if selected {
                    let mut vault_text = text::joined(&payload, newline.as_slice());
                    vault_text.push('\n');
                    let indent: usize = match depth {
                        Some(required) => required,
                        None => line_indent + 2,
                    };
                    let target = VaultTarget {
                        start: document::offset_of(chars, line_start + column),
                        end: to,
                        vault_text,
                        continuation_indent: text::spaces_of(indent),
                    };
                    proof {
                        if depth is None {
                            assert(text::views(payload@) =~= Seq::<Seq<char>>::empty());
                        }
                        let wanted = vault_at(s, all, index as int, column as int);
                        assert(target@.content =~= wanted.content);
                        assert(target@ == wanted);
                        lemma_vault_placed(s, all, index as int, column as int);
                        assert(selected_vaults(s, all, index as int, start as int, end as int)
                            == seq![wanted] + rest);
                        assert(done.push(wanted) + rest =~= done + (seq![wanted] + rest));
                        done = done.push(wanted);
                    }
                    out.push(target);
                }
                index = stop;
            },
        }
    }
    proof {
        let rest = selected_vaults(s, all, index as int, start as int, end as int);
        assert(rest =~= Seq::<Found>::empty());
        assert(done + rest =~= done);
    }
    out
}

/// The one `!vault` value that a range selects, given what the YAML parser says
/// of the text: an error message, no tree, or whether the tree has an error.
pub fn find_vault_checked(
    text: &str,
    range: Range,
    syntax: Result<Option<bool>, String>,
) -> (r: AppResult<VaultTarget>)
    requires
        text::byte_len(text@) <= syntax::LONGEST_TEXT,
    ensures
        agrees(
            r,
            vault_outcome(
                text@,
                range,
                match syntax {
                    Ok(found) => Ok(found),
                    Err(message) => Err(message@),
                },
            ),
        ),
        r matches Ok(target) ==> placed(text@, target.start as int, target.end as int),
{
    match syntax {
        Err(message) => Err(AppError::Internal(message)),
        Ok(None) => Err(AppError::told(UNPARSED)),
        Ok(Some(true)) => Err(AppError::told(FIX_BEFORE_DECRYPTING)),
        Ok(Some(false)) => match document::lsp_range_to_bytes(text, range) {
            None => Err(AppError::told(OUTSIDE)),
            Some((start, end)) => {
                let held = text::chars_of(text);
                let chars: &[char] = held.as_slice();
                let lines = validation::lines(chars);
                let mut found = collect_vaults(chars, &lines, start, end);
                if found.len() == 1 {
                    Ok(found.remove(0))
                } else if found.len() == 0 {
                    Err(AppError::told(NO_VAULT))
                } else {
                    Err(AppError::told(MANY_VAULTS))
                }
            },
        },
    }
}

/// The one `!vault` value that a range selects. A document with YAML errors is
/// refused.
pub fn find_vault(text: &str, range: Range) -> (r: AppResult<VaultTarget>)
    ensures
        agrees(r, found_vault(text@, range)),
        r matches Ok(target) ==> placed(text@, target.start as int, target.end as int),
{
    if !syntax::is_parsable(text) {
        return Err(AppError::told(UNPARSED));
    }
    find_vault_checked(text, range, syntax::syntax_error(text))
}

// ---------------------------------------------------------------------------
// Scalar values
// ---------------------------------------------------------------------------

/// What a YAML parser makes of the text of one scalar, where it is a string.
pub uninterp spec fn yaml_string(raw: Seq<char>) -> Option<Seq<char>>;

/// The errors of the YAML deserializer.
#[verifier::external_type_specification]
#[verifier::external_body]
pub struct ExYamlError(serde_saphyr::Error);

/// Reads a scalar with `serde_saphyr::from_str`. Claimed: whether it is a string,
/// and which, depends on its text alone. Nothing is claimed of the error.
#[verifier::external_body]
fn read_string(raw: &str) -> (r: Result<String, serde_saphyr::Error>)
    ensures
        match r {
            Ok(value) => yaml_string(raw@) == Some(value@),
            Err(_) => yaml_string(raw@) is None,
        },
{
    serde_saphyr::from_str::<String>(raw)
}

/// The bytes whose smallest surrounding node is looked for: the selection, or
/// the byte at the cursor, or the last byte where the cursor is at the end.
pub open spec fn probe(s: Seq<char>, start: int, end: int) -> (int, int) {
    let length = text::byte_len(s) as int;
    if length == 0 {
        (0, 0)
    } else {
        let from = if start < length {
            start
        } else {
            length - 1
        };
        let wide = if end > from + 1 {
            end
        } else {
            from + 1
        };
        (from, if wide < length {
            wide
        } else {
            length
        })
    }
}

/// Every node covers whole characters of the text.
pub open spec fn well_placed(s: Seq<char>, t: Seq<Branch>) -> bool {
    forall|i: int| 0 <= i < t.len() ==> placed(s, (#[trigger] t[i]).start, t[i].end)
}

/// The text between two byte offsets.
pub open spec fn slice(s: Seq<char>, start: int, end: int) -> Seq<char> {
    s.subrange(document::chars_before(s, start), document::chars_before(s, end))
}

/// The scalar around the probed bytes.
pub open spec fn scalar_around(s: Seq<char>, t: Seq<Branch>) -> Option<int> {
    if s.len() == 0 {
        None
    } else {
        match syntax::probed_from(t, 0) {
            Some(i) => syntax::enclosing_scalar(t, i),
            None => None,
        }
    }
}

/// The scalar that the user means. A selection means the scalar around it. A
/// cursor means the scalar around it unless that is a key, and otherwise the
/// value of the narrowest pair on its line or around it.
pub open spec fn meant_scalar(
    s: Seq<char>,
    start: int,
    end: int,
    line: int,
    t: Seq<Branch>,
) -> Result<int, Failure> {
    let around = scalar_around(s, t);
    if start != end {
        match around {
            Some(i) => Ok(i),
            None => Err(Failure::User(NOT_ONE_SCALAR@)),
        }
    } else if around is Some && !syntax::in_key(t, around->0) {
        Ok(around->0)
    } else {
        match syntax::narrowest_pair(t, t.len() as int, start, line) {
            Some((_, scalar)) => Ok(scalar),
            None => Err(Failure::User(NO_SCALAR@)),
        }
    }
}

/// Whether the selected text, but for white space at its ends, is the text from
/// `from` to `to`.
pub open spec fn selects_exactly(
    s: Seq<char>,
    start: int,
    end: int,
    from: int,
    to: int,
) -> bool {
    let selected = slice(s, start, end);
    &&& start <= end
    &&& start + text::byte_len(selected) - text::byte_len(text::trim_start(selected)) == from
    &&& start + text::byte_len(text::trim_end(selected)) == to
}

/// The beginning of the line on which the place before the `i`th character lies.
pub open spec fn line_start(s: Seq<char>, i: int) -> int
    decreases i,
{
    if i <= 0 || s[i - 1] == '\n' {
        i
    } else {
        line_start(s, i - 1)
    }
}

/// The indentation of lines that continue a value: the column of the value, but
/// at least two more than that of its line.
pub open spec fn child_depth(s: Seq<char>, offset: int) -> nat {
    let i = document::chars_before(s, offset);
    let from = line_start(s, i);
    let column = text::byte_len(s.subrange(from, i));
    let least = validation::indent(s.skip(from)) + 2;
    if column >= least {
        column
    } else {
        least
    }
}

/// What a scalar says: a plain one its own text, any other what the YAML parser
/// reads.
pub open spec fn decoded(kind: Seq<char>, raw: Seq<char>) -> Option<Seq<char>> {
    if kind == "plain_scalar"@ {
        Some(raw)
    } else {
        yaml_string(raw)
    }
}

/// The scalar value that a selection or a cursor means, or why there is none.
/// `t` is the syntax tree of the text.
pub open spec fn scalar_outcome(
    s: Seq<char>,
    start: int,
    end: int,
    line: int,
    t: Seq<Branch>,
) -> Result<Found, Failure> {
    match meant_scalar(s, start, end, line, t) {
        Err(failure) => Err(failure),
        Ok(i) => {
            let node = t[i];
            if syntax::in_key(t, i) {
                Err(Failure::User(IS_KEY@))
            } else if syntax::in_flow(t, i) {
                Err(Failure::User(IN_FLOW@))
            } else if start != end && !selects_exactly(s, start, end, node.start, node.end) {
                Err(Failure::User(NOT_ONE_SCALAR@))
            } else {
                match decoded(node.kind, slice(s, node.start, node.end)) {
                    None => Err(Failure::User(NOT_A_STRING@)),
                    Some(plaintext) => Ok(
                        Found {
                            start: node.start,
                            end: node.end,
                            content: plaintext,
                            continuation_indent: text::spaces(child_depth(s, node.start)),
                        },
                    ),
                }
            }
        },
    }
}

/// What `find_scalar` finds.
pub open spec fn found_scalar(s: Seq<char>, range: Range) -> Result<Found, Failure> {
    match selection(s, range) {
        None => Err(Failure::User(OUTSIDE@)),
        Some((start, end)) => match syntax_gate(s) {
            Err(message) => Err(Failure::Internal(message)),
            Ok(None) => Err(Failure::User(UNPARSED@)),
            Ok(Some(true)) => Err(Failure::User(FIX_BEFORE_ENCRYPTING@)),
            Ok(Some(false)) => match syntax::yaml_nodes(
                s,
                probe(s, start, end).0,
                probe(s, start, end).1,
                "value"@,
            ) {
                None => Err(Failure::User(UNPARSED@)),
                Some(t) => if well_placed(s, t) {
                    scalar_outcome(s, start, end, range.start.line as int, t)
                } else {
                    Err(Failure::Internal(MISPLACED@))
                },
            },
        },
    }
}

fn is_well_placed(text: &str, nodes: &Vec<SyntaxNode>) -> (r: bool)
    ensures
        r == well_placed(text@, syntax::branches(nodes@)),
{
    let length: usize = text::str_len(text);
    let ghost s = text@;
    let ghost t = syntax::branches(nodes@);
    for i in 0..nodes.len()
        invariant
            s == text@,
            t == syntax::branches(nodes@),
            length == text::byte_len(s),
            forall|k: int| 0 <= k < i ==> placed(s, (#[trigger] t[k]).start, t[k].end),
    {
        let node = &nodes[i];
        proof {
            assert(t[i as int] == nodes@[i as int]@);
        }
        if !(node.start <= node.end && node.end <= length && document::is_boundary(text, node.start)
            && document::is_boundary(text, node.end)) {
            return false;
        }
    }
    true
}

fn probe_of(text: &str, start: usize, end: usize) -> (r: (usize, usize))
    ensures
        (r.0 as int, r.1 as int) == probe(text@, start as int, end as int),
{
    let length: usize = text::str_len(text);
    if length == 0 {
        return (0, 0);
    }
    let from: usize = if start < length {
        start
    } else {
        length - 1
    };
    let wide: usize = if end > from + 1 {
        end
    } else {
        from + 1
    };
    (from, if wide < length {
        wide
    } else {
        length
    })
}

fn line_start_of(chars: &[char], index: usize) -> (r: usize)
    requires
        index <= chars@.len(),
    ensures
        r == line_start(chars@, index as int),
        r <= index,
{
    let mut i: usize = index;
    while i > 0 && chars[i - 1] != '\n'
        invariant
            i <= index <= chars@.len(),
            line_start(chars@, index as int) == line_start(chars@, i as int),
        decreases i,
    {
        i = i - 1;
    }
    i
}

fn child_indent(chars: &[char], offset: usize) -> (r: String)
    requires
        text::byte_len(chars@) <= syntax::LONGEST_TEXT,
    ensures
        r@ == text::spaces(child_depth(chars@, offset as int)),
{
    let ghost s = chars@;
    let i = document::index_at(chars, offset);
    let from = line_start_of(chars, i);
    proof {
        lemma_len_bytes(s);
        lemma_indent(s.skip(from as int));
        text::lemma_byte_len_subrange(s, from as int, i as int);
        assert(s.subrange(from as int, s.len() as int) =~= s.skip(from as int));
    }
    let column = text::byte_len_of(&chars[from..i]);
    let least: usize = validation::line_indent(&chars[from..chars.len()]) + 2;
    if column >= least {
        text::spaces_of(column)
    } else {
        text::spaces_of(least)
    }
}

fn decode_scalar(kind: &str, raw: &str) -> (r: AppResult<String>)
    ensures
        match r {
            Ok(value) => decoded(kind@, raw@) == Some(value@),
            Err(error) => decoded(kind@, raw@) is None && error@ == Failure::User(NOT_A_STRING@),
        },
{
    if text::same_str(kind, "plain_scalar") {
        return Ok(raw.to_string());
    }
    match read_string(raw) {
        Ok(value) => Ok(value),
        Err(_) => Err(AppError::told(NOT_A_STRING)),
    }
}

fn is_exact_selection(
    chars: &[char],
    start: usize,
    end: usize,
    from: usize,
    to: usize,
) -> (r: bool)
    requires
        text::byte_len(chars@) <= usize::MAX,
        start <= text::byte_len(chars@),
        end <= text::byte_len(chars@),
        document::boundary(chars@, start as int),
        document::boundary(chars@, end as int),
    ensures
        r == selects_exactly(chars@, start as int, end as int, from as int, to as int),
{
    if start > end {
        return false;
    }
    let ghost s = chars@;
    let i = document::index_at(chars, start);
    let j = document::index_at(chars, end);
    proof {
        if j < i {
            text::lemma_byte_len_monotonic(s, j as int, i as int);
        }
        text::lemma_byte_len_subrange(s, i as int, j as int);
    }
    let selected: &[char] = &chars[i..j];
    let tail = text::trimmed_start(selected);
    let head = text::trimmed_end(selected);
    proof {
        text::lemma_prefix_len_bounds(selected@, text::blank());
        text::lemma_suffix_len_bounds(selected@, text::blank());
        text::lemma_byte_len_split(selected@, text::prefix_len(selected@, text::blank()) as int);
        text::lemma_byte_len_split(selected@, selected@.len() - text::suffix_len(
            selected@,
            text::blank(),
        ));
    }
    let left: usize = text::byte_len_of(selected) - text::byte_len_of(tail);
    let right: usize = text::byte_len_of(head);
    start + left == from && start + right == to
}

/// The scalar value that a selection or a cursor means, given the syntax tree of
/// the text.
pub fn find_scalar_in(
    text: &str,
    start: usize,
    end: usize,
    line: u32,
    nodes: &Vec<SyntaxNode>,
) -> (r: AppResult<ScalarTarget>)
    requires
        text::byte_len(text@) <= syntax::LONGEST_TEXT,
        start <= text::byte_len(text@),
        end <= text::byte_len(text@),
        document::boundary(text@, start as int),
        document::boundary(text@, end as int),
        well_placed(text@, syntax::branches(nodes@)),
    ensures
        agrees(
            r,
            scalar_outcome(
                text@,
                start as int,
                end as int,
                line as int,
                syntax::branches(nodes@),
            ),
        ),
        r matches Ok(target) ==> placed(text@, target.start as int, target.end as int),
{
    let ghost s = text@;
    let ghost t = syntax::branches(nodes@);
    let held = text::chars_of(text);
    let chars: &[char] = held.as_slice();
    let parents = syntax::parents_of(nodes);
    proof {
        assert forall|i: int| 0 <= i < nodes@.len() implies (#[trigger] nodes@[i]).start
            <= nodes@[i].end by {
            assert(t[i] == nodes@[i]@);
        }
    }
    let mut around: Option<usize> = None;
    if chars.len() > 0 {
        if let Some(i) = syntax::probed_node(nodes) {
            around = syntax::enclosing_scalar_of(nodes, &parents, i);
        }
    }
    proof {
        assert(match around {
            Some(i) => scalar_around(s, t) == Some(i as int) && i < nodes@.len(),
            None => scalar_around(s, t) is None,
        });
    }
    let meant: usize = if start != end {
        match around {
            Some(i) => i,
            None => {
                return Err(AppError::told(NOT_ONE_SCALAR));
            },
        }
    } else {
        let usable = match around {
            Some(i) => !syntax::is_mapping_key(nodes, &parents, i),
            None => false,
        };
        match around {
            Some(i) if usable => i,
            _ => match syntax::mapping_value_for_cursor(nodes, &parents, start, line as usize) {
                Some(i) => i,
                None => {
                    return Err(AppError::told(NO_SCALAR));
                },
            },
        }
    };
    proof {
        assert(meant_scalar(s, start as int, end as int, line as int, t) == Ok::<int, Failure>(
            meant as int,
        ));
        assert(t[meant as int] == nodes@[meant as int]@);
    }
    if syntax::is_mapping_key(nodes, &parents, meant) {
        return Err(AppError::told(IS_KEY));
    }
    if syntax::has_flow_collection_ancestor(nodes, &parents, meant) {
        return Err(AppError::told(IN_FLOW));
    }
    let node = &nodes[meant];
    if start != end && !is_exact_selection(chars, start, end, node.start, node.end) {
        return Err(AppError::told(NOT_ONE_SCALAR));
    }
    let from = document::index_at(chars, node.start);
    let to = document::index_at(chars, node.end);
    proof {
        if to < from {
            text::lemma_byte_len_monotonic(s, to as int, from as int);
        }
    }
    let raw = text::string_of(&chars[from..to]);
    match decode_scalar(node.kind.as_str(), raw.as_str()) {
        Err(error) => Err(error),
        Ok(plaintext) => Ok(
            ScalarTarget {
                start: node.start,
                end: node.end,
                plaintext,
                continuation_indent: child_indent(chars, node.start),
            },
        ),
    }
}

/// The scalar value that a range means: one that is selected as a whole, or the
/// value at the cursor or on its line. A document with YAML errors is refused.
pub fn find_scalar(text: &str, range: Range) -> (r: AppResult<ScalarTarget>)
    ensures
        agrees(r, found_scalar(text@, range)),
        r matches Ok(target) ==> placed(text@, target.start as int, target.end as int),
{
    match document::lsp_range_to_bytes(text, range) {
        None => Err(AppError::told(OUTSIDE)),
        Some((start, end)) => {
            proof {
                document::law_position_round_trip(
                    text@,
                    range.start.line as nat,
                    range.start.character as nat,
                );
                document::law_position_round_trip(
                    text@,
                    range.end.line as nat,
                    range.end.character as nat,
                );
                document::lemma_chars_before_bounds(text@, start as int);
                document::lemma_chars_before_bounds(text@, end as int);
                text::lemma_byte_len_subrange(
                    text@,
                    0,
                    document::chars_before(text@, start as int),
                );
                text::lemma_byte_len_subrange(text@, 0, document::chars_before(text@, end as int));
            }
            match syntax_gate_of(text) {
                Err(message) => Err(AppError::Internal(message)),
                Ok(None) => Err(AppError::told(UNPARSED)),
                Ok(Some(true)) => Err(AppError::told(FIX_BEFORE_ENCRYPTING)),
                Ok(Some(false)) => {
                    let (from, to) = probe_of(text, start, end);
                    match syntax::syntax_nodes(text, from, to, "value") {
                        None => Err(AppError::told(UNPARSED)),
                        Some(nodes) => {
                            if is_well_placed(text, &nodes) {
                                find_scalar_in(text, start, end, range.start.line, &nodes)
                            } else {
                                Err(AppError::Internal(MISPLACED.to_string()))
                            }
                        },
                    }
                },
            }
        },
    }
}

/// What a range points at: a `!vault` value before a scalar value.
pub fn classify_value(text: &str, range: Range) -> (r: Option<ValueContext>)
    ensures
        r == if found_vault(text@, range) is Ok {
            Some(ValueContext::Vault)
        } else if found_scalar(text@, range) is Ok {
            Some(ValueContext::Plaintext)
        } else {
            None
        },
{
    if find_vault(text, range).is_ok() {
        Some(ValueContext::Vault)
    } else if find_scalar(text, range).is_ok() {
        Some(ValueContext::Plaintext)
    } else {
        None
    }
}

// ---------------------------------------------------------------------------
// Laws
// ---------------------------------------------------------------------------

/// Whether a node is a scalar that can be encrypted where it stands: no key, and
/// in no collection in flow style.
pub open spec fn encryptable(t: Seq<Branch>, i: int) -> bool {
    &&& 0 <= i < t.len()
    &&& syntax::scalar_kind(t[i].kind)
    &&& !syntax::in_key(t, i)
    &&& !syntax::in_flow(t, i)
}

/// What a selection or a cursor means is a scalar of the tree.
proof fn lemma_meant_scalar(s: Seq<char>, start: int, end: int, line: int, t: Seq<Branch>)
    ensures
        meant_scalar(s, start, end, line, t) matches Ok(i) ==> 0 <= i < t.len()
            && syntax::scalar_kind(t[i].kind),
{
    syntax::lemma_probed_from(t, 0);
    if let Some(i) = syntax::probed_from(t, 0) {
        syntax::lemma_enclosing_scalar(t, i);
    }
    syntax::lemma_narrowest_pair(t, t.len() as int, start, line);
    if let Some((pair, _)) = syntax::narrowest_pair(t, t.len() as int, start, line) {
        if let Some(value) = syntax::field_child_from(t, pair, pair + 1) {
            syntax::lemma_sole_scalar(t, value);
        }
    }
}

/// Only values are found for encryption, each with its own bytes and its own text:
/// scalars that are no keys and stand in no collection in flow style.
pub proof fn law_found_scalars_are_values(
    s: Seq<char>,
    start: int,
    end: int,
    line: int,
    t: Seq<Branch>,
)
    ensures
        scalar_outcome(s, start, end, line, t) matches Ok(found) ==> exists|i: int| #[trigger]
            encryptable(t, i) && found.start == t[i].start && found.end == t[i].end && decoded(
                t[i].kind,
                slice(s, t[i].start, t[i].end),
            ) == Some(found.content),
{
    lemma_meant_scalar(s, start, end, line, t);
    if let Ok(i) = meant_scalar(s, start, end, line, t) {
        if scalar_outcome(s, start, end, line, t) is Ok {
            assert(encryptable(t, i));
        }
    }
}

/// From anywhere on the line of a key whose value is one scalar, and from anywhere
/// inside the pair, a cursor means a scalar. Where it stands in no scalar but a key,
/// that is the value of a pair that is no wider than this one.
pub proof fn law_pairs_answer_from_their_line(
    s: Seq<char>,
    cursor: int,
    line: int,
    t: Seq<Branch>,
    pair: int,
)
    requires
        0 <= pair < t.len(),
        syntax::pair_value(t, pair, cursor, line) is Some,
    ensures
        meant_scalar(s, cursor, cursor, line, t) is Ok,
        (scalar_around(s, t) matches Some(i) ==> syntax::in_key(t, i)) ==> exists|other: int|
            0 <= other < t.len() && #[trigger] syntax::pair_value(t, other, cursor, line) == Some(
                meant_scalar(s, cursor, cursor, line, t)->Ok_0,
            ) && t[other].end - t[other].start <= t[pair].end - t[pair].start,
{
    syntax::lemma_narrowest_pair(t, t.len() as int, cursor, line);
}

/// Whether the node `a` lies around the node `i`: in the order of a walk through the
/// tree, everything behind it up to `i` lies deeper.
pub open spec fn around(t: Seq<Branch>, a: int, i: int) -> bool {
    &&& 0 <= a < i < t.len()
    &&& forall|k: int| a < k <= i ==> (#[trigger] t[k]).depth > t[a].depth
}

/// Whether the node `c` lies directly in the node `p`.
pub open spec fn directly_in(t: Seq<Branch>, p: int, c: int) -> bool {
    &&& 0 <= p < c < t.len()
    &&& t[p].depth < t[c].depth
    &&& forall|k: int| p < k < c ==> (#[trigger] t[k]).depth >= t[c].depth
}

/// Whether a node is a list in brackets or a mapping in braces.
pub open spec fn in_brackets(node: Branch) -> bool {
    node.kind == "flow_sequence"@ || node.kind == "flow_mapping"@
}

/// Whether a node joins a key and a value.
pub open spec fn joins(node: Branch) -> bool {
    node.kind == "block_mapping_pair"@ || node.kind == "flow_pair"@
}

/// Whether a node is one scalar, in one of the ways in which YAML writes them.
pub open spec fn one_scalar(node: Branch) -> bool {
    ||| node.kind == "plain_scalar"@
    ||| node.kind == "single_quote_scalar"@
    ||| node.kind == "double_quote_scalar"@
    ||| node.kind == "block_scalar"@
}

/// Whether the node `key` is the key of the pair `p`: the first named node in it.
pub open spec fn is_key_of(t: Seq<Branch>, p: int, key: int) -> bool {
    &&& directly_in(t, p, key)
    &&& t[key].named
    &&& forall|k: int| p < k < key && #[trigger] directly_in(t, p, k) ==> !t[k].named
}

/// Whether the node `i` stands in the key `key` of the nearest pair `p` around it, as
/// the node `c` of that pair or a part of it.
pub open spec fn stands_in_key(t: Seq<Branch>, i: int, c: int, p: int, key: int) -> bool {
    &&& directly_in(t, p, c)
    &&& c == i || around(t, c, i)
    &&& joins(t[p])
    &&& forall|q: int| p < q && #[trigger] around(t, q, i) ==> !joins(t[q])
    &&& is_key_of(t, p, key)
    &&& t[key].start <= t[c].start
    &&& t[c].end <= t[key].end
}

proof fn lemma_parent(t: Seq<Branch>, p: int, i: int)
    requires
        0 <= i < t.len(),
    ensures
        syntax::parent(t, i) == Some(p) <==> directly_in(t, p, i),
{
    syntax::lemma_last_above(t, i - 1, t[i].depth);
    if directly_in(t, p, i) {
        match syntax::parent(t, i) {
            None => {
                assert(t[p].depth >= t[i].depth);
            },
            Some(q) => {
                if q < p {
                    assert(t[p].depth >= t[i].depth);
                } else if p < q {
                    assert(t[q].depth >= t[i].depth);
                }
            },
        }
    }
}

/// What lies around a node is its parent or lies around that.
proof fn lemma_around(t: Seq<Branch>, a: int, i: int)
    requires
        0 <= i < t.len(),
    ensures
        around(t, a, i) <==> (syntax::parent(t, i) matches Some(p) && (p == a || around(t, a, p))),
{
    syntax::lemma_last_above(t, i - 1, t[i].depth);
    match syntax::parent(t, i) {
        None => {
            if around(t, a, i) {
                assert(t[a].depth >= t[i].depth);
                assert(t[i].depth > t[a].depth);
            }
        },
        Some(p) => {
            lemma_parent(t, p, i);
            if around(t, a, i) {
                assert(t[i].depth > t[a].depth);
                if p < a {
                    assert(t[a].depth >= t[i].depth);
                }
            }
            if p == a || around(t, a, p) {
                assert forall|k: int| a < k <= i implies (#[trigger] t[k]).depth > t[a].depth by {
                    if k > p && k < i {
                        assert(t[k].depth >= t[i].depth);
                    }
                    if a < p {
                        assert(t[p].depth > t[a].depth);
                    }
                }
            }
        },
    }
}

proof fn lemma_in_flow(t: Seq<Branch>, i: int)
    requires
        0 <= i < t.len(),
    ensures
        syntax::in_flow(t, i) <==> exists|a: int| #[trigger] around(t, a, i) && in_brackets(t[a]),
    decreases i,
{
    syntax::lemma_last_above(t, i - 1, t[i].depth);
    match syntax::parent(t, i) {
        None => {
            assert forall|a: int| !(#[trigger] around(t, a, i)) by {
                lemma_around(t, a, i);
            }
        },
        Some(p) => {
            lemma_in_flow(t, p);
            if syntax::in_flow(t, i) {
                if in_brackets(t[p]) {
                    lemma_around(t, p, i);
                } else {
                    let a = choose|a: int| #[trigger] around(t, a, p) && in_brackets(t[a]);
                    lemma_around(t, a, i);
                }
            }
            if exists|a: int| #[trigger] around(t, a, i) && in_brackets(t[a]) {
                let a = choose|a: int| #[trigger] around(t, a, i) && in_brackets(t[a]);
                lemma_around(t, a, i);
            }
        },
    }
}

proof fn lemma_named_child(t: Seq<Branch>, p: int, j: int)
    requires
        0 <= p < j,
        forall|k: int| p < k < j && #[trigger] directly_in(t, p, k) ==> !t[k].named,
    ensures
        match syntax::named_child_from(t, p, j) {
            Some(key) => is_key_of(t, p, key),
            None => forall|key: int| !(#[trigger] is_key_of(t, p, key)),
        },
    decreases t.len() - j,
{
    if j < t.len() {
        lemma_parent(t, p, j);
        if !(t[j].named && syntax::parent(t, j) == Some(p)) {
            lemma_named_child(t, p, j + 1);
        }
    } else {
        assert forall|key: int| !(#[trigger] is_key_of(t, p, key)) by {
            if is_key_of(t, p, key) {
                assert(directly_in(t, p, key));
            }
        }
    }
}

proof fn lemma_one_key(t: Seq<Branch>, p: int, a: int, b: int)
    requires
        is_key_of(t, p, a),
        is_key_of(t, p, b),
    ensures
        a == b,
{
    assert(directly_in(t, p, a) && directly_in(t, p, b));
}

proof fn lemma_in_key(t: Seq<Branch>, i: int, at: int)
    requires
        0 <= i < t.len(),
        0 <= at <= i,
        at == i || around(t, at, i),
        forall|q: int| at <= q && #[trigger] around(t, q, i) ==> !joins(t[q]),
    ensures
        syntax::in_key(t, at) <==> exists|c: int, p: int, key: int| #[trigger]
            stands_in_key(t, i, c, p, key),
    decreases at,
{
    syntax::lemma_last_above(t, at - 1, t[at].depth);
    match syntax::parent(t, at) {
        None => {
            assert forall|c: int, p: int, key: int| !(#[trigger] stands_in_key(t, i, c, p, key)) by {
                if stands_in_key(t, i, c, p, key) {
                    lemma_key_around(t, i, c, p);
                    if p < at {
                        lemma_around_chain(t, p, at, i);
                        lemma_around(t, p, at);
                    }
                }
            }
        },
        Some(up) => {
            lemma_parent(t, up, at);
            lemma_around(t, up, at);
            if at < i {
                lemma_around_up(t, up, at, i);
            }
            assert(around(t, up, i));
            assert forall|q: int| up < q && #[trigger] around(t, q, i) implies !joins(t[q]) by {
                lemma_between(t, up, q, at, i);
            }
            if joins(t[up]) {
                lemma_named_child(t, up, up + 1);
                assert forall|c: int, p: int, key: int| #[trigger]
                    stands_in_key(t, i, c, p, key) implies p == up && c == at by {
                    lemma_key_around(t, i, c, p);
                    if p < up {
                        assert(around(t, up, i));
                    } else if up < p {
                        assert(around(t, p, i));
                    }
                    if c < at {
                        lemma_around_chain(t, c, at, i);
                        lemma_around(t, c, at);
                        assert(directly_in(t, up, c));
                    } else if at < c {
                        lemma_around_chain(t, at, c, i);
                        lemma_parent(t, up, c);
                        lemma_around(t, at, c);
                    }
                }
                match syntax::named_child_from(t, up, up + 1) {
                    Some(key) => {
                        if t[at].start >= t[key].start && t[at].end <= t[key].end {
                            assert(stands_in_key(t, i, at, up, key));
                        }
                        assert forall|c: int, p: int, other: int| #[trigger]
                            stands_in_key(t, i, c, p, other) implies other == key by {
                            lemma_one_key(t, up, other, key);
                        }
                    },
                    None => {
                        assert forall|c: int, p: int, other: int| !(#[trigger] stands_in_key(
                            t,
                            i,
                            c,
                            p,
                            other,
                        )) by {
                            if stands_in_key(t, i, c, p, other) {
                                assert(is_key_of(t, up, other));
                            }
                        }
                    },
                }
            } else {
                lemma_in_key(t, i, up);
            }
        },
    }
}

proof fn lemma_key_around(t: Seq<Branch>, i: int, c: int, p: int)
    requires
        directly_in(t, p, c),
        c == i || around(t, c, i),
    ensures
        around(t, p, i),
{
    lemma_parent(t, p, c);
    lemma_around(t, p, c);
    if c < i {
        lemma_around_up(t, p, c, i);
    }
}

proof fn lemma_around_up(t: Seq<Branch>, a: int, b: int, i: int)
    requires
        around(t, a, b),
        around(t, b, i),
    ensures
        around(t, a, i),
{
    assert forall|k: int| a < k <= i implies (#[trigger] t[k]).depth > t[a].depth by {
        if k > b {
            assert(t[k].depth > t[b].depth);
            assert(t[b].depth > t[a].depth);
        }
    }
}

/// Of two nodes around a third, the first lies around the second.
proof fn lemma_around_chain(t: Seq<Branch>, a: int, b: int, i: int)
    requires
        around(t, a, i),
        b == i || around(t, b, i),
        !(b <= a),
    ensures
        around(t, a, b),
{
}

/// Nothing around a node lies between another node and that one's parent.
proof fn lemma_between(t: Seq<Branch>, up: int, q: int, at: int, i: int)
    requires
        directly_in(t, up, at) || syntax::parent(t, at) == Some(up),
        0 <= at < t.len(),
        at == i || around(t, at, i),
        around(t, q, i),
        up < q,
        forall|k: int| at <= k && #[trigger] around(t, k, i) ==> !joins(t[k]),
    ensures
        !joins(t[q]),
{
    lemma_parent(t, up, at);
    if q < at {
        assert(t[q].depth >= t[at].depth);
        assert(t[at].depth > t[q].depth);
    }
}

/// Whether a node can be encrypted where it stands: one scalar, in no list in brackets
/// and no mapping in braces, however far out, and in no key.
pub open spec fn replaceable(t: Seq<Branch>, i: int) -> bool {
    &&& 0 <= i < t.len()
    &&& one_scalar(t[i])
    &&& forall|a: int| #[trigger] around(t, a, i) ==> !in_brackets(t[a])
    &&& forall|c: int, p: int, key: int| !(#[trigger] stands_in_key(t, i, c, p, key))
}

proof fn lemma_replaceable(t: Seq<Branch>, i: int)
    requires
        0 <= i < t.len(),
    ensures
        replaceable(t, i) <==> encryptable(t, i),
{
    lemma_in_flow(t, i);
    lemma_in_key(t, i, i);
}

/// A value is only replaced by a tagged block where YAML allows one: what is found for
/// encryption is one scalar that lies in no brackets or braces and in no key. It is
/// found with its own bytes, and a scalar without quotes with its own characters.
pub proof fn law_nothing_in_brackets_is_encrypted(
    s: Seq<char>,
    start: int,
    end: int,
    line: int,
    t: Seq<Branch>,
)
    ensures
        scalar_outcome(s, start, end, line, t) matches Ok(found) ==> exists|i: int| #[trigger]
            replaceable(t, i) && found.start == t[i].start && found.end == t[i].end && (t[i].kind
                == "plain_scalar"@ ==> found.content == slice(s, t[i].start, t[i].end)) && (
            t[i].kind != "plain_scalar"@ ==> yaml_string(slice(s, t[i].start, t[i].end)) == Some(
                found.content,
            )),
{
    law_found_scalars_are_values(s, start, end, line, t);
    if let Ok(found) = scalar_outcome(s, start, end, line, t) {
        let i = choose|i: int| #[trigger]
            encryptable(t, i) && found.start == t[i].start && found.end == t[i].end && decoded(
                t[i].kind,
                slice(s, t[i].start, t[i].end),
            ) == Some(found.content);
        lemma_replaceable(t, i);
    }
}

/// The scalar at the cursor is the one that is found, wherever it can be encrypted: the
/// node around the cursor, with its own bytes and characters.
pub proof fn law_scalar_at_the_cursor_is_found(
    s: Seq<char>,
    cursor: int,
    line: int,
    t: Seq<Branch>,
    i: int,
)
    requires
        s.len() > 0,
        replaceable(t, i),
        t[i].probed,
        forall|k: int| 0 <= k < i ==> !(#[trigger] t[k]).probed,
    ensures
        t[i].kind == "plain_scalar"@ ==> (scalar_outcome(s, cursor, cursor, line, t) matches Ok(found)
            && found.start == t[i].start && found.end == t[i].end && found.content == slice(
            s,
            t[i].start,
            t[i].end,
        )),
        t[i].kind != "plain_scalar"@ ==> match yaml_string(slice(s, t[i].start, t[i].end)) {
            Some(text) => scalar_outcome(s, cursor, cursor, line, t) matches Ok(found)
                && found.start == t[i].start && found.end == t[i].end && found.content == text,
            None => scalar_outcome(s, cursor, cursor, line, t) == Err::<Found, Failure>(
                Failure::User("The selected YAML scalar is not a string value"@),
            ),
        },
{
    lemma_replaceable(t, i);
    lemma_first_probed(t, i, 0);
}

proof fn lemma_first_probed(t: Seq<Branch>, i: int, from: int)
    requires
        0 <= from <= i < t.len(),
        t[i].probed,
        forall|k: int| from <= k < i ==> !(#[trigger] t[k]).probed,
    ensures
        syntax::probed_from(t, from) == Some(i),
    decreases i - from,
{
    if from < i {
        assert(!t[from].probed);
        lemma_first_probed(t, i, from + 1);
    }
}

/// A scalar in brackets or braces, or in a key, is refused with the reason, where the
/// user has selected it.
pub proof fn law_refusals_tell_why(
    s: Seq<char>,
    start: int,
    end: int,
    line: int,
    t: Seq<Branch>,
    i: int,
)
    requires
        s.len() > 0,
        start != end,
        0 <= i < t.len(),
        one_scalar(t[i]),
        t[i].probed,
        forall|k: int| 0 <= k < i ==> !(#[trigger] t[k]).probed,
        !replaceable(t, i),
    ensures
        ({
            let outcome = scalar_outcome(s, start, end, line, t);
            if exists|c: int, p: int, key: int| #[trigger] stands_in_key(t, i, c, p, key) {
                outcome == Err::<Found, Failure>(
                    Failure::User("Ansible Vault can encrypt YAML values, not mapping keys"@),
                )
            } else {
                outcome == Err::<Found, Failure>(
                    Failure::User(
                        "Block-style !vault values cannot be inserted into a flow-style YAML collection"@,
                    ),
                )
            }
        }),
{
    lemma_replaceable(t, i);
    lemma_in_key(t, i, i);
    lemma_first_probed(t, i, 0);
}

/// A document with YAML errors is neither encrypted nor decrypted in parts, and the
/// user is told to mend it first.
pub proof fn law_broken_documents_stay_as_they_are(s: Seq<char>, range: Range)
    requires
        syntax::parsable(s),
        syntax::yaml_error(s) == Ok::<Option<bool>, Seq<char>>(Some(true)),
        selection(s, range) is Some,
    ensures
        found_vault(s, range) == Err::<Found, Failure>(
            Failure::User("Fix YAML syntax errors before decrypting a !vault value"@),
        ),
        found_scalar(s, range) == Err::<Found, Failure>(
            Failure::User("Fix YAML syntax errors before encrypting a scalar value"@),
        ),
{
}

/// Whether a value node holds one scalar and nothing else: the scalar is the only node
/// in it.
pub open spec fn holds_one_scalar(t: Seq<Branch>, v: int) -> bool {
    &&& 0 <= v && v + 1 < t.len()
    &&& t[v].kind == "flow_node"@ || t[v].kind == "block_node"@
    &&& t[v + 1].depth == t[v].depth + 1
    &&& t[v + 1].named
    &&& one_scalar(t[v + 1])
    &&& forall|k: int| v + 1 < k < t.len() && around(t, v, k) ==> #[trigger] around(t, v + 1, k)
}

/// Whether a pair in block style begins on a line or lies around a cursor.
pub open spec fn near(node: Branch, cursor: int, line: int) -> bool {
    node.kind == "block_mapping_pair"@ && (node.row == line || node.start <= cursor <= node.end)
}

proof fn lemma_no_more_children(t: Seq<Branch>, v: int, j: int)
    requires
        holds_one_scalar(t, v),
        v + 1 < j,
    ensures
        syntax::child_scalars(t, v, j) == Seq::<int>::empty(),
    decreases t.len() - j,
{
    if j < t.len() {
        lemma_no_more_children(t, v, j + 1);
        if syntax::parent(t, j) == Some(v) {
            lemma_parent(t, v, j);
            lemma_around(t, v, j);
            assert(around(t, v + 1, j));
            assert(t[v + 1].depth >= t[j].depth);
            assert(t[j].depth > t[v + 1].depth);
        }
    }
}

proof fn lemma_holds_one_scalar(t: Seq<Branch>, v: int)
    requires
        holds_one_scalar(t, v),
    ensures
        syntax::sole_scalar(t, v) == Some(v + 1),
{
    reveal_strlit("flow_node");
    reveal_strlit("block_node");
    reveal_strlit("plain_scalar");
    reveal_strlit("single_quote_scalar");
    reveal_strlit("double_quote_scalar");
    reveal_strlit("block_scalar");
    reveal_strlit("block_mapping");
    reveal_strlit("block_sequence");
    reveal_strlit("flow_sequence");
    reveal_strlit("flow_mapping");
    reveal_strlit("block_mapping_pair");
    reveal_strlit("flow_pair");
    reveal_strlit("block_sequence_item");
    lemma_no_more_children(t, v, v + 2);
    lemma_parent(t, v, v + 1);
    assert(t[v].kind.len() == 9 || t[v].kind.len() == 10);
    assert(t[v].kind.len() == 9 ==> t[v].kind[5] == 'n' && "flow_pair"@[5] == 'p');
    assert(syntax::sole_scalar(t, v + 1) == Some(v + 1));
    let found = syntax::child_scalars(t, v, v + 1);
    assert(found =~= seq![v + 1]);
}

proof fn lemma_reached(t: Seq<Branch>, p: int)
    requires
        0 <= p < t.len(),
        p == 0 || around(t, 0, p) && t[p].named,
        forall|a: int| 0 < a && #[trigger] around(t, a, p) ==> t[a].named,
    ensures
        syntax::reached(t, p),
    decreases p,
{
    if p > 0 {
        syntax::lemma_last_above(t, p - 1, t[p].depth);
        lemma_around(t, 0, p);
        let up = syntax::parent(t, p)->0;
        lemma_around(t, up, p);
        assert forall|a: int| 0 < a && #[trigger] around(t, a, up) implies t[a].named by {
            lemma_around(t, a, p);
        }
        lemma_reached(t, up);
    }
}

proof fn lemma_field_child(t: Seq<Branch>, p: int, v: int, j: int)
    requires
        0 <= p < j <= v,
        directly_in(t, p, v),
        t[v].in_field,
        forall|k: int| p < k < v && #[trigger] directly_in(t, p, k) ==> !t[k].in_field,
    ensures
        syntax::field_child_from(t, p, j) == Some(v),
    decreases v - j,
{
    lemma_parent(t, p, j);
    if j < v {
        lemma_field_child(t, p, v, j + 1);
    }
}

/// On the line of a key, the cursor means the key's value: where the value of the pair
/// is one scalar, and no other pair that lies as near is as narrow, that scalar is
/// found, whether the cursor stands in the key or in no scalar at all.
pub proof fn law_key_line_means_its_value(
    s: Seq<char>,
    cursor: int,
    line: int,
    t: Seq<Branch>,
    p: int,
    v: int,
)
    requires
        0 <= p < t.len(),
        near(t[p], cursor, line),
        p == 0 || around(t, 0, p) && t[p].named,
        forall|a: int| 0 < a && #[trigger] around(t, a, p) ==> t[a].named,
        directly_in(t, p, v),
        t[v].in_field,
        forall|k: int| p < k < v && #[trigger] directly_in(t, p, k) ==> !t[k].in_field,
        holds_one_scalar(t, v),
        forall|q: int|
            0 <= q < t.len() && q != p && #[trigger] near(t[q], cursor, line) ==> t[p].end
                - t[p].start < t[q].end - t[q].start,
        replaceable(t, v + 1),
        t[v + 1].kind == "plain_scalar"@,
        (forall|k: int| 0 <= k < t.len() ==> !(#[trigger] t[k]).probed) || exists|
            i: int,
            c: int,
            q: int,
            key: int,
        |
            0 <= i < t.len() && one_scalar(t[i]) && t[i].probed && (forall|k: int|
                0 <= k < i ==> !(#[trigger] t[k]).probed) && #[trigger] stands_in_key(
                t,
                i,
                c,
                q,
                key,
            ),
    ensures
        scalar_outcome(s, cursor, cursor, line, t) matches Ok(found) && found.start == t[v
            + 1].start && found.end == t[v + 1].end && found.content == slice(
            s,
            t[v + 1].start,
            t[v + 1].end,
        ),
{
    lemma_holds_one_scalar(t, v);
    lemma_reached(t, p);
    lemma_field_child(t, p, v, p + 1);
    assert(syntax::pair_value(t, p, cursor, line) == Some(v + 1));
    syntax::lemma_narrowest_pair(t, t.len() as int, cursor, line);
    let (pair, scalar) = syntax::narrowest_pair(t, t.len() as int, cursor, line)->0;
    assert(near(t[pair], cursor, line));
    assert(pair == p && scalar == v + 1);
    lemma_replaceable(t, v + 1);
    if forall|k: int| 0 <= k < t.len() ==> !(#[trigger] t[k]).probed {
        syntax::lemma_probed_from(t, 0);
        if let Some(i) = syntax::probed_from(t, 0) {
            lemma_probed_is_probed(t, 0);
        }
    } else {
        let (i, c, q, key) = choose|i: int, c: int, q: int, key: int|
            0 <= i < t.len() && one_scalar(t[i]) && t[i].probed && (forall|k: int|
                0 <= k < i ==> !(#[trigger] t[k]).probed) && #[trigger] stands_in_key(
                t,
                i,
                c,
                q,
                key,
            );
        lemma_first_probed(t, i, 0);
        lemma_in_key(t, i, i);
    }
}

proof fn lemma_probed_is_probed(t: Seq<Branch>, i: int)
    requires
        0 <= i,
    ensures
        syntax::probed_from(t, i) matches Some(j) ==> i <= j < t.len() && t[j].probed,
    decreases t.len() - i,
{
    if i < t.len() && !t[i].probed {
        lemma_probed_is_probed(t, i + 1);
    }
}

/// The lines under the tag of an encrypted value are indented deeper than the line of
/// the value, so that YAML takes them for a part of it, and no less than the column of
/// the value. `from` is where that line begins, and `n` the number of spaces on it.
pub proof fn law_continuations_are_indented_deeper(
    s: Seq<char>,
    start: int,
    end: int,
    line: int,
    t: Seq<Branch>,
    from: int,
    n: int,
)
    requires
        scalar_outcome(s, start, end, line, t) is Ok,
        ({
            let at = document::chars_before(s, scalar_outcome(s, start, end, line, t)->Ok_0.start);
            &&& 0 <= from <= at <= s.len()
            &&& from == 0 || s[from - 1] == '\n'
            &&& forall|k: int| from <= k < at ==> #[trigger] s[k] != '\n'
        }),
        0 <= n,
        from + n <= s.len(),
        forall|k: int| from <= k < from + n ==> #[trigger] s[k] == ' ',
        from + n == s.len() || s[from + n] != ' ',
    ensures
        ({
            let found = scalar_outcome(s, start, end, line, t)->Ok_0;
            let at = document::chars_before(s, found.start);
            &&& forall|k: int|
                0 <= k < found.continuation_indent.len() ==> #[trigger] found.continuation_indent[k]
                    == ' '
            &&& found.continuation_indent.len() >= n + 2
            &&& found.continuation_indent.len() >= text::byte_len(s.subrange(from, at))
            &&& found.continuation_indent.len() == n + 2 || found.continuation_indent.len()
                == text::byte_len(s.subrange(from, at))
        }),
{
    let found = scalar_outcome(s, start, end, line, t)->Ok_0;
    let at = document::chars_before(s, found.start);
    lemma_line_start(s, at, from);
    let rest = s.skip(from);
    assert forall|k: int| 0 <= k < n implies validation::space()(#[trigger] rest[k]) by {
        assert(rest[k] == s[from + k]);
    }
    if from + n < s.len() {
        assert(rest[n] == s[from + n]);
    }
    text::lemma_prefix_len(rest, validation::space(), n);
}

proof fn lemma_line_start(s: Seq<char>, i: int, from: int)
    requires
        0 <= from <= i <= s.len(),
        from == 0 || s[from - 1] == '\n',
        forall|k: int| from <= k < i ==> #[trigger] s[k] != '\n',
    ensures
        line_start(s, i) == from,
    decreases i - from,
{
    if from < i {
        assert(s[i - 1] != '\n');
        lemma_line_start(s, i - 1, from);
    }
}

/// Whether a selected text covers the bytes of a value and white space around them:
/// `a` characters before, and what is behind the first `b`.
pub open spec fn fits_selection(
    selected: Seq<char>,
    start: int,
    found: Found,
    a: int,
    b: int,
) -> bool {
    &&& 0 <= a <= selected.len()
    &&& 0 <= b <= selected.len()
    &&& found.start == start + text::byte_len(selected.take(a))
    &&& found.end == start + text::byte_len(selected.take(b))
    &&& forall|k: int| 0 <= k < a ==> text::white_space(#[trigger] selected[k])
    &&& forall|k: int| b <= k < selected.len() ==> text::white_space(#[trigger] selected[k])
}

/// A selection is only taken where it is the scalar itself, but for white space before
/// and behind it.
pub proof fn law_selections_are_exact(
    s: Seq<char>,
    start: int,
    end: int,
    line: int,
    t: Seq<Branch>,
)
    requires
        start != end,
    ensures
        scalar_outcome(s, start, end, line, t) matches Ok(found) ==> exists|a: int, b: int| #[trigger]
            fits_selection(slice(s, start, end), start, found, a, b),
{
    if let Ok(found) = scalar_outcome(s, start, end, line, t) {
        let selected = slice(s, start, end);
        let a = text::prefix_len(selected, text::blank()) as int;
        let b = selected.len() - text::suffix_len(selected, text::blank());
        text::lemma_prefix_len_bounds(selected, text::blank());
        text::lemma_suffix_len_bounds(selected, text::blank());
        text::lemma_byte_len_split(selected, a);
        assert(found.start == start + text::byte_len(selected.take(a)));
        assert(found.end == start + text::byte_len(selected.take(b)));
        assert forall|k: int| 0 <= k < a implies text::white_space(#[trigger] selected[k]) by {
            assert(text::blank()(selected[k]));
        }
        assert forall|k: int| b <= k < selected.len() implies text::white_space(
            #[trigger] selected[k],
        ) by {
            assert(text::blank()(selected[k]));
        }
        assert(fits_selection(selected, start, found, a, b));
    }
}

/// A selected scalar is found, where it can be encrypted and is selected as it stands.
pub proof fn law_selected_scalars_are_found(
    s: Seq<char>,
    line: int,
    t: Seq<Branch>,
    i: int,
)
    requires
        s.len() > 0,
        replaceable(t, i),
        t[i].kind == "plain_scalar"@,
        t[i].probed,
        forall|k: int| 0 <= k < i ==> !(#[trigger] t[k]).probed,
        t[i].start < t[i].end,
        t[i].end == t[i].start + text::byte_len(slice(s, t[i].start, t[i].end)),
        ({
            let text = slice(s, t[i].start, t[i].end);
            text.len() > 0 && !text::white_space(text[0]) && !text::white_space(text.last())
        }),
    ensures
        scalar_outcome(s, t[i].start, t[i].end, line, t) matches Ok(found) && found.start
            == t[i].start && found.end == t[i].end && found.content == slice(
            s,
            t[i].start,
            t[i].end,
        ),
{
    let selected = slice(s, t[i].start, t[i].end);
    lemma_replaceable(t, i);
    lemma_first_probed(t, i, 0);
    text::lemma_prefix_len(selected, text::blank(), 0);
    text::lemma_suffix_len(selected, text::blank(), 0);
    assert(text::trim_start(selected) =~= selected);
    assert(text::trim_end(selected) =~= selected);
}

proof fn lemma_find_first(s: Seq<char>, p: Seq<char>, at: int)
    requires
        0 <= at,
        at + p.len() <= s.len(),
        s.subrange(at, at + p.len()) == p,
        forall|k: int| 0 <= k < at ==> #[trigger] s.subrange(k, k + p.len()) != p,
    ensures
        text::find(s, p) == Some(at),
    decreases at,
{
    assert(s.subrange(0, p.len() as int) =~= s.take(p.len() as int));
    if at == 0 {
    } else {
        assert(s.subrange(0, 0int + p.len()) != p);
        let rest = s.drop_first();
        assert(rest.subrange(at - 1, at - 1 + p.len()) =~= s.subrange(at, at + p.len()));
        assert forall|k: int| 0 <= k < at - 1 implies #[trigger] rest.subrange(k, k + p.len())
            != p by {
            assert(rest.subrange(k, k + p.len()) =~= s.subrange(k + 1, k + 1 + p.len()));
        }
        lemma_find_first(rest, p, at - 1);
    }
}

/// Whether the tag `!vault` stands in a column of a line and opens a block scalar
/// there: only spaces, or a colon or dash and spaces, are before it, and a bar is
/// behind it.
pub open spec fn tag_opens(line: Seq<char>, column: int, lead: int, bar: int) -> bool {
    &&& 0 <= lead <= column
    &&& column + 6 <= bar < line.len()
    &&& line.subrange(column, column + 6) == "!vault"@
    &&& forall|k: int| lead <= k < column ==> #[trigger] line[k] == ' '
    &&& lead == 0 || line[lead - 1] == ':' || line[lead - 1] == '-'
    &&& forall|k: int| column + 6 <= k < bar ==> #[trigger] line[k] == ' '
    &&& line[bar] == '|'
}

proof fn lemma_tag_parts(line: Seq<char>, column: int, lead: int, bar: int)
    requires
        tag_opens(line, column, lead, bar),
        forall|k: int| 0 <= k < column ==> #[trigger] line.subrange(k, k + 6) != "!vault"@,
    ensures
        text::find(line, "!vault"@) == Some(column),
        ({
            let prefix = text::trim_end(line.take(column));
            prefix.len() == 0 || prefix.last() == ':' || prefix.last() == '-'
        }),
        text::starts_with(text::trim_start(line.skip(column + 6)), seq!['|']),
{
    reveal_strlit("!vault");
    lemma_find_first(line, "!vault"@, column);
    let before = line.take(column);
    let n = column - lead;
    assert forall|k: int| before.len() - n <= k < before.len() implies text::blank()(
        #[trigger] before[k],
    ) by {
        assert(before[k] == line[k]);
    }
    if n < before.len() {
        assert(before[before.len() - n - 1] == line[lead - 1]);
    }
    text::lemma_suffix_len(before, text::blank(), n);
    let after = line.skip(column + 6);
    let gap = bar - column - 6;
    assert forall|k: int| 0 <= k < gap implies text::blank()(#[trigger] after[k]) by {
        assert(after[k] == line[column + 6 + k]);
    }
    assert(after[gap] == '|');
    text::lemma_prefix_len(after, text::blank(), gap);
    let shown = text::trim_start(after);
    assert(shown.take(1) =~= seq!['|']);
}

/// A tag that opens a block scalar is found, both for decryption and for validation,
/// in the first place where the line has one. For validation it must not stand in a
/// comment.
pub proof fn law_tags_are_found(line: Seq<char>, column: int, lead: int, bar: int)
    requires
        tag_opens(line, column, lead, bar),
        forall|k: int| 0 <= k < column ==> #[trigger] line.subrange(k, k + 6) != "!vault"@,
    ensures
        tag_column(line) == Some(column),
        line[0] != ' ' && line[0] != '#' && !text::white_space(line[0]) ==> validation::tag_column(
            line,
        ) == Some(column),
{
    reveal_strlit("!vault");
    lemma_tag_parts(line, column, lead, bar);
    if line[0] != ' ' && line[0] != '#' && !text::white_space(line[0]) {
        text::lemma_prefix_len(line, text::blank(), 0);
        assert(text::trim_start(line) =~= line);
        assert(line.take(1)[0] == line[0]);
    }
}

/// Where a tag is found, the line has it there, and a bar is behind it.
pub proof fn law_only_tags_are_found(line: Seq<char>)
    ensures
        tag_column(line) matches Some(column) ==> 0 <= column && column + 6 <= line.len()
            && line.subrange(column, column + 6) == "!vault"@ && line.skip(column + 6).contains('|'),
        validation::tag_column(line) matches Some(column) ==> tag_column(line) == Some(column),
{
    reveal_strlit("!vault");
    text::lemma_find(line, "!vault"@);
    if let Some(column) = tag_column(line) {
        let after = line.skip(column + 6);
        let shown = text::trim_start(after);
        text::lemma_prefix_len_bounds(after, text::blank());
        assert(shown.take(1)[0] == '|');
        assert(after[text::prefix_len(after, text::blank()) as int] == '|');
    }
}

/// A tag is looked for on indented lines too, but not in comments: `w` is the first visible
/// character of the line.
pub proof fn law_tags_are_not_looked_for_in_comments(
    line: Seq<char>,
    column: int,
    lead: int,
    bar: int,
    w: int,
)
    requires
        tag_opens(line, column, lead, bar),
        forall|k: int| 0 <= k < column ==> #[trigger] line.subrange(k, k + 6) != "!vault"@,
        0 <= w < line.len(),
        forall|k: int| 0 <= k < w ==> text::white_space(#[trigger] line[k]),
        !text::white_space(line[w]),
    ensures
        validation::tag_column(line) == if line[w] == '#' {
            None
        } else {
            Some(column)
        },
{
    reveal_strlit("!vault");
    lemma_tag_parts(line, column, lead, bar);
    assert forall|k: int| 0 <= k < w implies text::blank()(#[trigger] line[k]) by {}
    text::lemma_prefix_len(line, text::blank(), w);
    let shown = text::trim_start(line);
    assert(shown[0] == line[w]);
    assert(shown.take(1)[0] == line[w]);
    if line[w] == '#' {
        assert(shown.take(1) =~= seq!['#']);
    }
}

/// Why no value is found at all: the selection lies outside of the document, or the
/// document cannot be parsed.
pub proof fn law_documents_that_cannot_be_searched(s: Seq<char>, range: Range)
    requires
        syntax::parsable(s),
    ensures
        selection(s, range) is None ==> found_scalar(s, range) == Err::<Found, Failure>(
            Failure::User("The selection is outside the current document"@),
        ),
        selection(s, range) is None && syntax::yaml_error(s) == Ok::<Option<bool>, Seq<char>>(
            Some(false),
        ) ==> found_vault(s, range) == Err::<Found, Failure>(
            Failure::User("The selection is outside the current document"@),
        ),
        syntax::yaml_error(s) == Ok::<Option<bool>, Seq<char>>(None) ==> found_vault(s, range)
            == Err::<Found, Failure>(Failure::User("Unable to parse the YAML document"@)),
        selection(s, range) is Some && syntax::yaml_error(s) == Ok::<Option<bool>, Seq<char>>(None)
            ==> found_scalar(s, range) == Err::<Found, Failure>(
            Failure::User("Unable to parse the YAML document"@),
        ),
        syntax::yaml_error(s) matches Err(message) ==> found_vault(s, range) == Err::<
            Found,
            Failure,
        >(Failure::Internal(message)),
{
}

/// Two values are taken for one by no selection, and none is made up where there is none.
pub proof fn law_exactly_one_value_is_decrypted(s: Seq<char>, range: Range, start: int, end: int)
    requires
        syntax::parsable(s),
        syntax::yaml_error(s) == Ok::<Option<bool>, Seq<char>>(Some(false)),
        selection(s, range) == Some((start, end)),
    ensures
        ({
            let found = selected_vaults(s, validation::document_lines(s, 0), 0, start, end);
            found_vault(s, range) == if found.len() == 0 {
                Err::<Found, Failure>(
                    Failure::User("Place the cursor inside exactly one !vault block"@),
                )
            } else if found.len() == 1 {
                Ok(found[0])
            } else {
                Err(Failure::User("The selection intersects more than one !vault block"@))
            }
        }),
        (forall|at: int|
            0 <= at <= s.len() - 6 ==> #[trigger] s.subrange(at, at + 6) != "!vault"@)
            ==> found_vault(s, range) == Err::<Found, Failure>(
            Failure::User("Place the cursor inside exactly one !vault block"@),
        ),
{
    if forall|at: int| 0 <= at <= s.len() - 6 ==> #[trigger] s.subrange(at, at + 6) != "!vault"@ {
        lemma_nothing_tagged(s, validation::document_lines(s, 0), 0, start, end);
    }
}

proof fn lemma_nothing_tagged(
    s: Seq<char>,
    lines: Seq<(int, int)>,
    index: int,
    start: int,
    end: int,
)
    requires
        lines == validation::document_lines(s, 0),
        0 <= index <= lines.len(),
        forall|at: int| 0 <= at <= s.len() - 6 ==> #[trigger] s.subrange(at, at + 6) != "!vault"@,
    ensures
        selected_vaults(s, lines, index, start, end).len() == 0,
    decreases lines.len() - index,
{
    if index < lines.len() {
        lemma_nothing_tagged(s, lines, index + 1, start, end);
        validation::lemma_lines_ordered(s, 0);
        let span = lines[index];
        let line = validation::content(s, span);
        reveal_strlit("!vault");
        text::lemma_find(line, "!vault"@);
        assert(validation::in_text(s, span));
        if let Some(at) = text::find(line, "!vault"@) {
            assert(s.subrange(span.0 + at, span.0 + at + 6) =~= line.subrange(at, at + 6));
        }
    }
}

/// Where the selection is around no scalar, and where the cursor is neither in a scalar nor
/// near a pair, the user is told what to do.
pub proof fn law_selections_without_scalar_are_refused(
    s: Seq<char>,
    start: int,
    end: int,
    line: int,
    t: Seq<Branch>,
)
    requires
        forall|k: int| 0 <= k < t.len() ==> !(#[trigger] t[k]).probed,
    ensures
        start != end ==> scalar_outcome(s, start, end, line, t) == Err::<Found, Failure>(
            Failure::User("The selection must contain exactly one YAML scalar value"@),
        ),
        start == end && (forall|k: int|
            0 <= k < t.len() ==> !near(#[trigger] t[k], start, line)) ==> scalar_outcome(
            s,
            start,
            end,
            line,
            t,
        ) == Err::<Found, Failure>(
            Failure::User("Place the cursor on a YAML key or inside its scalar value"@),
        ),
{
    syntax::lemma_probed_from(t, 0);
    lemma_probed_is_probed(t, 0);
    syntax::law_narrowest_pair_counts(t, t.len() as int, start, line);
    if let Some((pair, _)) = syntax::narrowest_pair(t, t.len() as int, start, line) {
        assert(near(t[pair], start, line));
    }
}

/// The node that is asked for is the one around the selected bytes, and around the byte at a
/// cursor; at the end of the document it is the one around the last byte.
pub proof fn law_selected_bytes_are_probed(s: Seq<char>, start: int, end: int)
    requires
        0 <= start <= end <= text::byte_len(s),
    ensures
        start < end ==> probe(s, start, end) == (start, end),
        start == end && start < text::byte_len(s) ==> probe(s, start, end) == (start, start + 1),
        start == end && start == text::byte_len(s) && start > 0 ==> probe(s, start, end) == (
            start - 1,
            start,
        ),
        text::byte_len(s) == 0 ==> probe(s, start, end) == (0int, 0int),
{
}

/// A pair means its value only where it is in block style and near the cursor, and where it
/// and every node around it but the outermost have names.
pub proof fn law_pairs_are_reached_by_name(t: Seq<Branch>, p: int, cursor: int, line: int, a: int)
    requires
        0 <= p < t.len(),
        syntax::pair_value(t, p, cursor, line) is Some,
    ensures
        near(t[p], cursor, line),
        p > 0 ==> t[p].named,
        0 < a && around(t, a, p) ==> t[a].named,
{
    lemma_reached_is_named(t, p, a);
}

proof fn lemma_reached_is_named(t: Seq<Branch>, p: int, a: int)
    requires
        0 <= p < t.len(),
        syntax::reached(t, p),
    ensures
        p > 0 ==> t[p].named,
        0 < a && around(t, a, p) ==> t[a].named,
    decreases p,
{
    if p > 0 {
        syntax::lemma_last_above(t, p - 1, t[p].depth);
        let up = syntax::parent(t, p)->0;
        lemma_reached_is_named(t, up, a);
        lemma_around(t, a, p);
    }
}

/// A tree that does not fit the document is not used: no node reaches beyond the end.
pub proof fn law_trees_have_to_fit_the_document(
    s: Seq<char>,
    range: Range,
    start: int,
    end: int,
    t: Seq<Branch>,
    i: int,
)
    requires
        syntax::parsable(s),
        syntax::yaml_error(s) == Ok::<Option<bool>, Seq<char>>(Some(false)),
        selection(s, range) == Some((start, end)),
        syntax::yaml_nodes(s, probe(s, start, end).0, probe(s, start, end).1, "value"@) == Some(t),
        0 <= i < t.len(),
        t[i].end > text::byte_len(s) || t[i].end < t[i].start || t[i].start < 0,
    ensures
        found_scalar(s, range) is Err,
{
    assert(!placed(s, t[i].start, t[i].end));
}

/// A line that is not indented deeper than the line of a tag is no part of the value: the
/// value ends with the line of the tag and holds nothing.
pub proof fn law_lines_beside_a_tag_are_left_alone(
    s: Seq<char>,
    lines: Seq<(int, int)>,
    index: int,
    column: int,
)
    requires
        0 <= index,
        index + 1 < lines.len(),
        !validation::blank_line(validation::content(s, lines[index + 1])),
        validation::indent(validation::content(s, lines[index + 1])) <= validation::indent(
            validation::content(s, lines[index]),
        ),
    ensures
        ({
            let found = vault_at(s, lines, index, column);
            &&& found.start == text::byte_len(s.take(lines[index].0 + column))
            &&& found.end == text::byte_len(s.take(lines[index].1))
            &&& found.content == "\n"@
            &&& found.continuation_indent == text::spaces(
                validation::indent(validation::content(s, lines[index])) + 2,
            )
        }),
{
    reveal_strlit("\n");
    assert(validation::next_visible(s, lines, index + 1) == index + 1);
    assert(text::join(Seq::<Seq<char>>::empty(), seq!['\n']) =~= Seq::<char>::empty());
    assert(Seq::<char>::empty() + seq!['\n'] =~= "\n"@);
}

} // verus!
