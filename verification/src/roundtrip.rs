//! Writing a value into a document and reading it again.
//!
//! What `format_encrypted_value` writes into a document, `find_vault` takes out
//! of it unchanged, and what `format_plaintext_value` writes as a block holds every
//! line of the text.
use crate::document::Range;
use crate::error::Failure;
use crate::text;
use crate::validation;
use crate::vault;
use crate::writing;
use crate::yaml;
use crate::yaml::Found;
use vstd::prelude::*;

verus! {

// ---------------------------------------------------------------------------
// Lines of a text
// ---------------------------------------------------------------------------

/// A line whose content holds no line end runs up to the next line feed.
pub proof fn lemma_next_line(s: Seq<char>, from: int, stop: int)
    requires
        0 <= from <= stop <= s.len(),
        from < s.len(),
        forall|k: int| from <= k < stop ==> #[trigger] s[k] != '\n' && s[k] != '\r',
        stop == s.len() || s[stop] == '\n',
    ensures
        validation::document_lines(s, from) == seq![(from, stop)] + validation::document_lines(
            s,
            if stop < s.len() {
                stop + 1
            } else {
                stop
            },
        ),
{
    let rest = s.skip(from);
    let next = if stop < s.len() {
        stop + 1
    } else {
        stop
    };
    assert forall|k: int| 0 <= k < stop - from implies #[trigger] rest[k] != '\n' by {
        assert(rest[k] == s[from + k]);
    }
    text::lemma_line_len(rest, stop - from);
    assert(text::line_len(rest) == next - from);
    let line = s.subrange(from, next);
    let ends = seq!['\r', '\n'];
    let n = next - stop;
    assert(ends.contains(ends[1]));
    assert forall|k: int| line.len() - n <= k < line.len() implies text::among(ends)(
        #[trigger] line[k],
    ) by {
        assert(line[k] == s[from + k]);
    }
    if n < line.len() {
        assert(line[line.len() - n - 1] == s[stop - 1]);
    }
    text::lemma_suffix_len(line, text::among(ends), n);
    assert(text::trim_end_of(line, ends).len() == stop - from);
}

/// The lines from a place on are those up to a line's beginning and those from
/// there on.
pub proof fn lemma_lines_split(s: Seq<char>, from: int, mid: int) -> (first: Seq<(int, int)>)
    requires
        0 <= from <= mid <= s.len(),
        mid == from || s[mid - 1] == '\n',
    ensures
        validation::document_lines(s, from) == first + validation::document_lines(s, mid),
    decreases mid - from,
{
    if from == mid {
        assert(Seq::empty() + validation::document_lines(s, mid) =~= validation::document_lines(
            s,
            mid,
        ));
        Seq::empty()
    } else {
        let rest = s.skip(from);
        let set = seq!['\n'];
        let n = text::prefix_len(rest, text::outside(set)) as int;
        text::lemma_prefix_len_bounds(rest, text::outside(set));
        if from + n >= mid {
            assert(text::outside(set)(rest[mid - 1 - from]));
            assert(set[0] == rest[mid - 1 - from]);
        }
        let next = from + text::line_len(rest);
        assert(next == from + n + 1);
        assert(set.contains(rest[n]));
        assert(s[next - 1] == '\n');
        let later = lemma_lines_split(s, next, mid);
        let here = validation::document_lines(s, from)[0];
        assert(validation::document_lines(s, from) =~= seq![here] + validation::document_lines(
            s,
            next,
        ));
        assert(seq![here] + (later + validation::document_lines(s, mid)) =~= (seq![here] + later)
            + validation::document_lines(s, mid));
        seq![here] + later
    }
}

// ---------------------------------------------------------------------------
// A cursor
// ---------------------------------------------------------------------------

proof fn lemma_selected_later(
    s: Seq<char>,
    lines: Seq<(int, int)>,
    index: int,
    cursor: int,
)
    requires
        0 <= index,
        forall|i: int|
            0 <= i < lines.len() ==> 0 <= (#[trigger] lines[i]).0 <= lines[i].1 <= s.len(),
        forall|i: int, j: int|
            0 <= i < j < lines.len() ==> (#[trigger] lines[i]).1 < (#[trigger] lines[j]).0,
    ensures
        yaml::selected_vaults(s, lines, index, cursor, cursor).len() <= 1,
        index < lines.len() && cursor < text::byte_len(s.take(lines[index].0))
            ==> yaml::selected_vaults(s, lines, index, cursor, cursor).len() == 0,
    decreases lines.len() - index,
{
    if index < lines.len() {
        match yaml::tag_column(validation::content(s, lines[index])) {
            None => {
                lemma_selected_later(s, lines, index + 1, cursor);
                if index + 1 < lines.len() {
                    text::lemma_byte_len_monotonic(s, lines[index].0, lines[index + 1].0);
                }
            },
            Some(_) => {
                let stop = yaml::payload_end(s, lines, index);
                yaml::lemma_payload_end(s, lines, index);
                lemma_selected_later(s, lines, stop, cursor);
                if stop < lines.len() {
                    text::lemma_byte_len_monotonic(s, lines[stop - 1].1, lines[stop].0);
                    text::lemma_byte_len_monotonic(s, lines[index].0, lines[stop].0);
                }
            },
        }
    }
}

/// A cursor never stands in two `!vault` values at once.
pub proof fn law_cursor_selects_one_value(s: Seq<char>, cursor: int)
    ensures
        yaml::selected_vaults(s, validation::document_lines(s, 0), 0, cursor, cursor).len() <= 1,
{
    validation::lemma_lines_ordered(s, 0);
    lemma_selected_later(s, validation::document_lines(s, 0), 0, cursor);
}

/// Whether the search for values comes from the line `i` to the line `index`, and
/// does not take the latter for a part of a payload.
pub open spec fn comes_to(s: Seq<char>, lines: Seq<(int, int)>, i: int, index: int) -> bool
    decreases lines.len() - i,
{
    if !(0 <= i < lines.len()) || i > index {
        false
    } else if i == index {
        true
    } else {
        match yaml::tag_column(validation::content(s, lines[i])) {
            None => comes_to(s, lines, i + 1, index),
            Some(_) => {
                proof {
                    yaml::lemma_payload_end(s, lines, i);
                }
                comes_to(s, lines, yaml::payload_end(s, lines, i), index)
            },
        }
    }
}

proof fn lemma_cursor_finds(
    s: Seq<char>,
    lines: Seq<(int, int)>,
    i: int,
    index: int,
    column: int,
    cursor: int,
)
    requires
        0 <= i <= index < lines.len(),
        forall|i: int|
            0 <= i < lines.len() ==> 0 <= (#[trigger] lines[i]).0 <= lines[i].1 <= s.len(),
        forall|i: int, j: int|
            0 <= i < j < lines.len() ==> (#[trigger] lines[i]).1 < (#[trigger] lines[j]).0,
        comes_to(s, lines, i, index),
        yaml::tag_column(validation::content(s, lines[index])) == Some(column),
        yaml::selects(s, lines, index, cursor, cursor),
    ensures
        yaml::selected_vaults(s, lines, i, cursor, cursor) == seq![
            yaml::vault_at(s, lines, index, column),
        ],
    decreases lines.len() - i,
{
    let stop = yaml::payload_end(s, lines, i);
    yaml::lemma_payload_end(s, lines, i);
    if i == index {
        lemma_selected_later(s, lines, stop, cursor);
        if stop < lines.len() {
            text::lemma_byte_len_monotonic(s, lines[stop - 1].1, lines[stop].0);
        }
        let rest = yaml::selected_vaults(s, lines, stop, cursor, cursor);
        assert(rest =~= Seq::<Found>::empty());
        assert(seq![yaml::vault_at(s, lines, index, column)] + rest =~= seq![
            yaml::vault_at(s, lines, index, column),
        ]);
    } else {
        match yaml::tag_column(validation::content(s, lines[i])) {
            None => {
                lemma_cursor_finds(s, lines, i + 1, index, column, cursor);
            },
            Some(_) => {
                assert(comes_to(s, lines, stop, index));
                assert(stop <= index);
                lemma_cursor_finds(s, lines, stop, index, column, cursor);
                text::lemma_byte_len_monotonic(s, lines[stop - 1].1, lines[index].0);
            },
        }
    }
}

/// From anywhere between the beginning of its line and its end, a cursor finds the
/// `!vault` value on the line, and no other.
pub proof fn law_cursor_finds_its_value(s: Seq<char>, index: int, column: int, cursor: int)
    requires
        0 <= index < validation::document_lines(s, 0).len(),
        comes_to(s, validation::document_lines(s, 0), 0, index),
        yaml::tag_column(
            validation::content(s, validation::document_lines(s, 0)[index]),
        ) == Some(column),
        ({
            let lines = validation::document_lines(s, 0);
            text::byte_len(s.take(lines[index].0)) <= cursor <= text::byte_len(
                s.take(lines[yaml::payload_end(s, lines, index) - 1].1),
            )
        }),
    ensures
        yaml::selected_vaults(s, validation::document_lines(s, 0), 0, cursor, cursor) == seq![
            yaml::vault_at(s, validation::document_lines(s, 0), index, column),
        ],
{
    validation::lemma_lines_ordered(s, 0);
    lemma_cursor_finds(s, validation::document_lines(s, 0), 0, index, column, cursor);
}

proof fn lemma_blank_lines_are_skipped(s: Seq<char>, lines: Seq<(int, int)>, i: int, first: int)
    requires
        0 <= i <= first < lines.len(),
        forall|k: int|
            i <= k < first ==> validation::blank_line(
                #[trigger] validation::content(s, lines[k]),
            ),
        !validation::blank_line(validation::content(s, lines[first])),
    ensures
        validation::next_visible(s, lines, i) == first,
    decreases first - i,
{
    if i < first {
        assert(validation::blank_line(validation::content(s, lines[i])));
        lemma_blank_lines_are_skipped(s, lines, i + 1, first);
    }
}

/// Blank lines between a tag and its payload do not hide the payload: it begins on
/// the first line that is not blank, where that is indented deeper than the tag's.
pub proof fn law_blank_lines_hide_no_payload(
    s: Seq<char>,
    lines: Seq<(int, int)>,
    index: int,
    first: int,
)
    requires
        0 <= index < first < lines.len(),
        forall|k: int|
            index < k < first ==> validation::blank_line(
                #[trigger] validation::content(s, lines[k]),
            ),
        !validation::blank_line(validation::content(s, lines[first])),
        validation::indent(validation::content(s, lines[first])) > validation::indent(
            validation::content(s, lines[index]),
        ),
    ensures
        yaml::payload_start(s, lines, index) == first,
        yaml::payload_depth(s, lines, index) == Some(
            validation::indent(validation::content(s, lines[first])),
        ),
        first < yaml::payload_end(s, lines, index),
{
    lemma_blank_lines_are_skipped(s, lines, index + 1, first);
    yaml::lemma_payload_end(s, lines, index);
}

proof fn lemma_payload_reaches(
    s: Seq<char>,
    lines: Seq<(int, int)>,
    i: int,
    line: int,
    depth: nat,
)
    requires
        0 <= i <= line < lines.len(),
        !validation::blank_line(validation::content(s, lines[line])),
        forall|k: int|
            i <= k <= line ==> validation::blank_line(
                #[trigger] validation::content(s, lines[k]),
            ) || validation::indent(validation::content(s, lines[k])) >= depth,
    ensures
        validation::next_visible(s, lines, i) <= line,
        line < yaml::payload_stop(s, lines, i, depth),
    decreases line - i,
{
    if i == line {
        assert(validation::indent(validation::content(s, lines[i])) >= depth);
        yaml::lemma_payload_stop(s, lines, i + 1, depth);
    } else {
        lemma_payload_reaches(s, lines, i + 1, line, depth);
        let next = validation::next_visible(s, lines, i);
        validation::lemma_next_visible(s, lines, i);
        if next == i {
            assert(validation::indent(validation::content(s, lines[i])) >= depth);
        }
    }
}

/// Every line of a payload belongs to its value, also behind blank lines: a line
/// that is indented as deep as the first one, where no line before it is indented
/// less.
pub proof fn law_every_payload_line_belongs(
    s: Seq<char>,
    lines: Seq<(int, int)>,
    index: int,
    depth: nat,
    line: int,
)
    requires
        0 <= index < lines.len(),
        yaml::payload_depth(s, lines, index) == Some(depth),
        yaml::payload_start(s, lines, index) <= line < lines.len(),
        !validation::blank_line(validation::content(s, lines[line])),
        forall|k: int|
            yaml::payload_start(s, lines, index) <= k <= line ==> validation::blank_line(
                #[trigger] validation::content(s, lines[k]),
            ) || validation::indent(validation::content(s, lines[k])) >= depth,
    ensures
        index < line < yaml::payload_end(s, lines, index),
{
    let first = yaml::payload_start(s, lines, index);
    validation::lemma_next_visible(s, lines, index + 1);
    lemma_payload_reaches(s, lines, first, line, depth);
}

// ---------------------------------------------------------------------------
// A written value
// ---------------------------------------------------------------------------

/// Where the lines of a payload lie that is written from the place `at` on with
/// `depth` spaces before every line.
pub open spec fn written_lines(lines: Seq<Seq<char>>, depth: nat, at: int) -> Seq<(int, int)>
    decreases lines.len(),
{
    if lines.len() == 0 {
        Seq::empty()
    } else {
        let stop = at + depth + lines[0].len();
        seq![(at, stop)] + written_lines(lines.skip(1), depth, stop + 1)
    }
}

/// A payload line that survives being written: visible, and on one line.
pub open spec fn one_visible_line(line: Seq<char>) -> bool {
    !validation::blank_line(line) && !line.contains('\n') && !line.contains('\r')
}

proof fn lemma_join_first(parts: Seq<Seq<char>>, sep: Seq<char>)
    requires
        parts.len() > 1,
    ensures
        text::join(parts, sep) == parts[0] + sep + text::join(parts.skip(1), sep),
    decreases parts.len(),
{
    let rest = parts.skip(1);
    if parts.len() == 2 {
        assert(parts.drop_last().len() == 1);
        assert(text::join(parts.drop_last(), sep) == parts[0]);
        assert(text::join(rest, sep) == parts[1]);
    } else {
        lemma_join_first(parts.drop_last(), sep);
        assert(parts.drop_last().skip(1) =~= rest.drop_last());
        assert(rest.last() == parts.last());
        assert(text::join(parts, sep) =~= parts[0] + sep + text::join(rest, sep));
    }
}

/// The lines of a payload are found where they were written.
pub proof fn lemma_written_lines(
    s: Seq<char>,
    at: int,
    lines: Seq<Seq<char>>,
    depth: nat,
    end: int,
)
    requires
        0 <= at <= end <= s.len(),
        lines.len() > 0,
        forall|i: int| 0 <= i < lines.len() ==> one_visible_line(#[trigger] lines[i]),
        s.subrange(at, end) == text::spaces(depth) + text::join(
            lines,
            seq!['\n'] + text::spaces(depth),
        ),
        end == s.len() || s[end] == '\n',
    ensures
        validation::document_lines(s, at) == written_lines(lines, depth, at)
            + validation::document_lines(
            s,
            if end < s.len() {
                end + 1
            } else {
                end
            },
        ),
        written_lines(lines, depth, at).len() == lines.len(),
        written_lines(lines, depth, at).last().1 == end,
        forall|i: int|
            0 <= i < lines.len() ==> validation::content(
                s,
                #[trigger] written_lines(lines, depth, at)[i],
            ) == text::spaces(depth) + lines[i],
    decreases lines.len(),
{
    let indent = text::spaces(depth);
    let sep = seq!['\n'] + indent;
    let whole = s.subrange(at, end);
    let first = lines[0];
    let stop = at + depth + first.len();
    let rest = lines.skip(1);
    assert(one_visible_line(lines[0]));
    if lines.len() == 1 {
        assert(text::join(lines, sep) == first);
    } else {
        lemma_join_first(lines, sep);
    }
    assert(whole.len() == end - at);
    assert(whole.len() >= indent.len() + first.len());
    assert(whole.take(stop - at) =~= indent + first);
    assert(s.subrange(at, stop) =~= whole.take(stop - at));
    assert(s.subrange(at, stop) =~= indent + first);
    assert forall|k: int| at <= k < stop implies #[trigger] s[k] != '\n' && s[k] != '\r' by {
        let c = s.subrange(at, stop)[k - at];
        if k - at >= depth {
            assert(first[k - at - depth] == c);
            assert(first.contains(c));
        }
    }
    text::lemma_trim_empty(first);
    let tail = if end < s.len() {
        end + 1
    } else {
        end
    };
    if lines.len() == 1 {
        assert(stop == end);
        lemma_next_line(s, at, stop);
        assert(written_lines(rest, depth, stop + 1) =~= Seq::<(int, int)>::empty());
        assert(written_lines(lines, depth, at) =~= seq![(at, stop)]);
    } else {
        assert(whole[stop - at] == '\n');
        assert(s[stop] == '\n');
        lemma_next_line(s, at, stop);
        assert forall|i: int| 0 <= i < rest.len() implies one_visible_line(#[trigger] rest[i]) by {
            assert(rest[i] == lines[i + 1]);
        }
        assert(s.subrange(stop + 1, end) =~= whole.skip(stop - at + 1));
        assert(whole.skip(stop - at + 1) =~= indent + text::join(rest, sep));
        lemma_written_lines(s, stop + 1, rest, depth, end);
        let later = written_lines(rest, depth, stop + 1);
        assert(written_lines(lines, depth, at) =~= seq![(at, stop)] + later);
        assert(seq![(at, stop)] + (later + validation::document_lines(s, tail)) =~= (seq![
            (at, stop),
        ] + later) + validation::document_lines(s, tail));
        assert forall|i: int| 0 <= i < lines.len() implies validation::content(
            s,
            #[trigger] written_lines(lines, depth, at)[i],
        ) == indent + lines[i] by {
            if i > 0 {
                assert(written_lines(lines, depth, at)[i] == later[i - 1]);
                assert(rest[i - 1] == lines[i]);
            }
        }
    }
}

/// Behind a number of spaces the indentation of a line goes on counting.
pub proof fn lemma_indented_line(depth: nat, line: Seq<char>)
    requires
        !validation::blank_line(line),
    ensures
        validation::indent(text::spaces(depth) + line) >= depth,
        line[0] != ' ' ==> validation::indent(text::spaces(depth) + line) == depth,
        !validation::blank_line(text::spaces(depth) + line),
        (text::spaces(depth) + line).skip(depth as int) == line,
{
    let all = text::spaces(depth) + line;
    text::lemma_prefix_len_bounds(all, validation::space());
    text::lemma_trim_empty(line);
    text::lemma_trim_empty(all);
    let n = validation::indent(all);
    if n < depth {
        assert(!validation::space()(all[n as int]));
    }
    if line[0] != ' ' {
        assert forall|k: int| 0 <= k < depth implies validation::space()(#[trigger] all[k]) by {}
        assert(all[depth as int] == line[0]);
        text::lemma_prefix_len(all, validation::space(), depth as int);
    }
    let k = choose|k: int| 0 <= k < line.len() && !text::white_space(#[trigger] line[k]);
    assert(all[k + depth] == line[k]);
    assert(all.skip(depth as int) =~= line);
}

/// A payload ends behind lines that are visible and deep enough, where the next
/// visible line is not.
proof fn lemma_payload_stops(
    s: Seq<char>,
    lines: Seq<(int, int)>,
    index: int,
    stop: int,
    depth: nat,
)
    requires
        0 <= index <= stop <= lines.len(),
        forall|i: int|
            index <= i < stop ==> !validation::blank_line(
                validation::content(s, #[trigger] lines[i]),
            ) && validation::indent(validation::content(s, lines[i])) >= depth,
        shallow_from(s, lines, stop, depth),
    ensures
        yaml::payload_stop(s, lines, index, depth) == stop,
        yaml::cut_lines(s, lines, index, stop, depth) == Seq::new(
            (stop - index) as nat,
            |k: int| validation::content(s, lines[index + k]).skip(depth as int),
        ),
    decreases stop - index,
{
    if index < stop {
        assert(!validation::blank_line(validation::content(s, lines[index])));
        lemma_payload_stops(s, lines, index + 1, stop, depth);
    }
    lemma_cut_visible(s, lines, index, stop, depth);
}

proof fn lemma_cut_visible(
    s: Seq<char>,
    lines: Seq<(int, int)>,
    index: int,
    stop: int,
    depth: nat,
)
    requires
        0 <= index <= stop <= lines.len(),
        forall|i: int|
            index <= i < stop ==> !validation::blank_line(
                validation::content(s, #[trigger] lines[i]),
            ),
    ensures
        yaml::cut_lines(s, lines, index, stop, depth) == Seq::new(
            (stop - index) as nat,
            |k: int| validation::content(s, lines[index + k]).skip(depth as int),
        ),
    decreases stop - index,
{
    let all = Seq::new(
        (stop - index) as nat,
        |k: int| validation::content(s, lines[index + k]).skip(depth as int),
    );
    if index < stop {
        lemma_cut_visible(s, lines, index, stop - 1, depth);
        assert(!validation::blank_line(validation::content(s, lines[stop - 1])));
        assert(yaml::cut_lines(s, lines, index, stop, depth) =~= all);
    } else {
        assert(yaml::cut_lines(s, lines, index, stop, depth) =~= all);
    }
}

/// Whether the next visible line from `index` on, if there is one, is indented less
/// than `depth`.
pub open spec fn shallow_from(
    s: Seq<char>,
    lines: Seq<(int, int)>,
    index: int,
    depth: nat,
) -> bool {
    let next = validation::next_visible(s, lines, index);
    next < lines.len() ==> validation::indent(validation::content(s, lines[next])) < depth
}

proof fn lemma_next_visible_behind(s: Seq<char>, lines: Seq<(int, int)>, from: int, i: int)
    requires
        0 <= from <= lines.len(),
        0 <= i <= lines.len() - from,
    ensures
        validation::next_visible(s, lines, from + i) == from + validation::next_visible(
            s,
            lines.skip(from),
            i,
        ),
    decreases lines.len() - i,
{
    let rest = lines.skip(from);
    if i < rest.len() {
        assert(rest[i] == lines[from + i]);
        if validation::blank_line(validation::content(s, rest[i])) {
            lemma_next_visible_behind(s, lines, from, i + 1);
        }
    }
}

/// Whether what follows a written value ends it: nothing visible, or a line that is
/// indented less.
pub open spec fn ends_value(s: Seq<char>, end: int, depth: nat) -> bool {
    end < s.len() ==> shallow_from(s, validation::document_lines(s, end + 1), 0, depth)
}

/// A payload is read back from lines that hold it.
proof fn lemma_read_back(
    s: Seq<char>,
    lines: Seq<(int, int)>,
    index: int,
    column: int,
    payload: Seq<Seq<char>>,
    depth: nat,
)
    requires
        0 <= index,
        payload.len() > 0,
        index + 1 + payload.len() <= lines.len(),
        validation::indent(validation::content(s, lines[index])) < depth,
        payload[0].len() > 0 && payload[0][0] != ' ',
        forall|i: int| 0 <= i < payload.len() ==> one_visible_line(#[trigger] payload[i]),
        forall|i: int|
            0 <= i < payload.len() ==> validation::content(s, lines[index + 1 + i]) == text::spaces(
                depth,
            ) + #[trigger] payload[i],
        shallow_from(s, lines, index + 1 + payload.len() as int, depth),
    ensures
        yaml::vault_at(s, lines, index, column) == (yaml::Found {
            start: text::byte_len(s.take(lines[index].0 + column)) as int,
            end: text::byte_len(s.take(lines[index + payload.len() as int].1)) as int,
            content: text::join(payload, seq!['\n']) + seq!['\n'],
            continuation_indent: text::spaces(depth),
        }),
{
    let indent = text::spaces(depth);
    let m = payload.len() as int;
    assert forall|i: int| index + 1 <= i < index + 1 + m implies !validation::blank_line(
        validation::content(s, #[trigger] lines[i]),
    ) && validation::indent(validation::content(s, lines[i])) >= depth by {
        let k = i - (index + 1);
        assert(validation::content(s, lines[index + 1 + k]) == indent + payload[k]);
        assert(one_visible_line(payload[k]));
        lemma_indented_line(depth, payload[k]);
    }
    assert(validation::content(s, lines[index + 1 + 0]) == indent + payload[0]);
    assert(one_visible_line(payload[0]));
    lemma_indented_line(depth, payload[0]);
    assert(yaml::payload_depth(s, lines, index) == Some(depth));
    lemma_payload_stops(s, lines, index + 1, index + 1 + m, depth);
    let cut = yaml::cut_lines(s, lines, index + 1, index + 1 + m, depth);
    assert forall|k: int| 0 <= k < m implies cut[k] == payload[k] by {
        assert(validation::content(s, lines[index + 1 + k]) == indent + payload[k]);
        assert(one_visible_line(payload[k]));
        lemma_indented_line(depth, payload[k]);
    }
    assert(cut =~= payload);
}

/// The lines of a document around a value that was written from the place `at`
/// on, behind a prefix.
pub proof fn lemma_value_lines(
    s: Seq<char>,
    base: int,
    prefix: Seq<char>,
    payload: Seq<Seq<char>>,
    depth: nat,
    end: int,
) -> (index: int)
    requires
        0 <= base < end <= s.len(),
        base == 0 || s[base - 1] == '\n',
        forall|k: int| 0 <= k < prefix.len() ==> #[trigger] prefix[k] != '\n' && prefix[k] != '\r',
        payload.len() > 0,
        forall|i: int| 0 <= i < payload.len() ==> one_visible_line(#[trigger] payload[i]),
        s.subrange(base, end) == prefix + "!vault |"@ + seq!['\n'] + (text::spaces(depth)
            + text::join(payload, seq!['\n'] + text::spaces(depth))),
        end == s.len() || s[end] == '\n',
    ensures
        ({
            let lines = validation::document_lines(s, 0);
            let rest = validation::document_lines(s, end + 1);
            &&& 0 <= index
            &&& index + 1 + payload.len() <= lines.len()
            &&& lines[index] == (base, base + prefix.len() + 8)
            &&& validation::content(s, lines[index]) == prefix + "!vault |"@
            &&& forall|i: int|
                0 <= i < payload.len() ==> validation::content(s, lines[index + 1 + i])
                    == text::spaces(depth) + #[trigger] payload[i]
            &&& lines[index + payload.len() as int].1 == end
            &&& end < s.len() ==> lines.skip(index + 1 + payload.len() as int) == rest
            &&& end == s.len() ==> lines.len() == index + 1 + payload.len()
        }),
{
    let indent = text::spaces(depth);
    let sep = seq!['\n'] + indent;
    let lines = validation::document_lines(s, 0);
    let m = payload.len() as int;
    reveal_strlit("!vault |");
    let tag = "!vault |"@;
    let whole = s.subrange(base, end);
    let body = indent + text::join(payload, sep);
    let tag_end = base + prefix.len() + 8;
    let before = lemma_lines_split(s, 0, base);
    assert(tag.len() == 8);
    assert(whole.len() == prefix.len() + 8 + 1 + body.len());
    assert(s.subrange(base, tag_end) =~= whole.take(tag_end - base));
    assert(whole.take(tag_end - base) =~= prefix + tag);
    assert forall|k: int| base <= k < tag_end implies #[trigger] s[k] != '\n' && s[k] != '\r' by {
        let c = s.subrange(base, tag_end)[k - base];
        if k - base < prefix.len() {
            assert(c == prefix[k - base]);
        } else {
            assert(c == tag[k - base - prefix.len()]);
        }
    }
    assert(s[tag_end] == whole[tag_end - base]);
    lemma_next_line(s, base, tag_end);
    assert(s.subrange(tag_end + 1, end) =~= whole.skip(tag_end + 1 - base));
    assert(whole.skip(tag_end + 1 - base) =~= body);
    lemma_written_lines(s, tag_end + 1, payload, depth, end);
    let written = written_lines(payload, depth, tag_end + 1);
    let next = if end < s.len() {
        end + 1
    } else {
        end
    };
    let rest = validation::document_lines(s, next);
    let index = before.len() as int;
    assert(lines =~= before + seq![(base, tag_end)] + written + rest);
    assert forall|i: int| 0 <= i < m implies validation::content(s, lines[index + 1 + i]) == indent
        + #[trigger] payload[i] by {
        assert(lines[index + 1 + i] == written[i]);
    }
    assert(lines[index + m] == written[m - 1]);
    assert(lines.skip(index + 1 + m) =~= rest);
    if end == s.len() {
        assert(s.skip(end) =~= Seq::<char>::empty());
        assert(rest =~= Seq::<(int, int)>::empty());
    }
    index
}

/// A payload that was written into a document: `head` is the text up to the line of
/// the value, `prefix` what stands on that line before the value, and `tail` what
/// follows. The prefix has to allow a tag behind it, the indentation has to be
/// deeper than that of the line, and what follows has to end the value.
pub open spec fn writable(
    head: Seq<char>,
    prefix: Seq<char>,
    vault_text: Seq<char>,
    depth: nat,
    tail: Seq<char>,
) -> bool {
    &&& head.len() == 0 || head.last() == '\n'
    &&& forall|k: int|
        0 <= k < prefix.len() ==> #[trigger] prefix[k] != '\n' && prefix[k] != '\r'
    &&& yaml::tag_column(prefix + "!vault |"@) == Some(prefix.len() as int)
    &&& validation::indent(prefix + "!vault |"@) < depth
    &&& writing::encrypted_value(vault_text, text::spaces(depth)) is Some
    &&& forall|i: int|
        0 <= i < writing::vault_lines(vault_text).len() ==> one_visible_line(
            #[trigger] writing::vault_lines(vault_text)[i],
        )
    &&& tail.len() == 0 || tail[0] == '\n'
    &&& ends_value(
        head + prefix + writing::encrypted_value(vault_text, text::spaces(depth))->0 + tail,
        (head + prefix + writing::encrypted_value(vault_text, text::spaces(depth))->0).len() as int,
        depth,
    )
}

/// The document that a payload was written into.
pub open spec fn written(
    head: Seq<char>,
    prefix: Seq<char>,
    vault_text: Seq<char>,
    depth: nat,
    tail: Seq<char>,
) -> Seq<char> {
    head + prefix + writing::encrypted_value(vault_text, text::spaces(depth))->0 + tail
}

/// The value that was written: its place, its indentation, and every line.
pub open spec fn written_value(
    head: Seq<char>,
    prefix: Seq<char>,
    vault_text: Seq<char>,
    depth: nat,
) -> Found {
    let value = writing::encrypted_value(vault_text, text::spaces(depth))->0;
    Found {
        start: text::byte_len(head + prefix) as int,
        end: text::byte_len(head + prefix + value) as int,
        content: text::join(writing::vault_lines(vault_text), seq!['\n']) + seq!['\n'],
        continuation_indent: text::spaces(depth),
    }
}

proof fn lemma_written(
    head: Seq<char>,
    prefix: Seq<char>,
    vault_text: Seq<char>,
    depth: nat,
    tail: Seq<char>,
) -> (index: int)
    requires
        writable(head, prefix, vault_text, depth, tail),
    ensures
        ({
            let s = written(head, prefix, vault_text, depth, tail);
            let lines = validation::document_lines(s, 0);
            let found = yaml::vault_at(s, lines, index, prefix.len() as int);
            &&& 0 <= index < lines.len()
            &&& lines[index].0 == head.len()
            &&& yaml::tag_column(validation::content(s, lines[index])) == Some(
                prefix.len() as int,
            )
            &&& found == written_value(head, prefix, vault_text, depth)
            &&& s.take(head.len() as int) == head
        }),
{
    let payload = writing::vault_lines(vault_text);
    let indent = text::spaces(depth);
    let sep = seq!['\n'] + indent;
    let value = writing::encrypted_value(vault_text, indent)->0;
    let s = head + prefix + value + tail;
    let base = head.len() as int;
    let end = (head + prefix + value).len() as int;
    reveal_strlit("!vault |\n");
    reveal_strlit("!vault |");
    reveal_strlit("$ANSIBLE_VAULT;");
    let body = indent + text::join(payload, sep);
    assert("!vault |\n"@ =~= "!vault |"@ + seq!['\n']);
    assert(value =~= "!vault |"@ + seq!['\n'] + body);
    assert(s.subrange(base, end) =~= prefix + value);
    assert(prefix + value =~= prefix + "!vault |"@ + seq!['\n'] + body);
    if base > 0 {
        assert(s[base - 1] == head.last());
    }
    if end < s.len() {
        assert(s[end] == tail[0]);
    }
    let index = lemma_value_lines(s, base, prefix, payload, depth, end);
    assert(payload[0].take(writing::VAULT_HEADER@.len() as int)[0] == '$');
    let lines = validation::document_lines(s, 0);
    let behind = index + 1 + payload.len() as int;
    lemma_next_visible_behind(s, lines, behind, 0);
    if end < s.len() {
        let rest = validation::document_lines(s, end + 1);
        let next = validation::next_visible(s, rest, 0);
        validation::lemma_next_visible(s, rest, 0);
        if next < rest.len() {
            assert(lines.skip(behind)[next] == lines[behind + next]);
        }
    }
    lemma_read_back(s, lines, index, prefix.len() as int, payload, depth);
    assert(s.take(base + prefix.len()) =~= head + prefix);
    assert(s.take(end) =~= head + prefix + value);
    assert(s.take(base) =~= head);
    index
}

/// A payload that was written into a document is found again on its line, with the
/// place it was written to, the indentation it was written with, and every line.
pub proof fn law_written_value_is_found(
    head: Seq<char>,
    prefix: Seq<char>,
    vault_text: Seq<char>,
    depth: nat,
    tail: Seq<char>,
)
    requires
        writable(head, prefix, vault_text, depth, tail),
    ensures
        ({
            let s = written(head, prefix, vault_text, depth, tail);
            let lines = validation::document_lines(s, 0);
            exists|index: int|
                0 <= index < lines.len() && lines[index].0 == head.len() && yaml::tag_column(
                    validation::content(s, lines[index]),
                ) == Some(prefix.len() as int) && #[trigger] yaml::vault_at(
                    s,
                    lines,
                    index,
                    prefix.len() as int,
                ) == written_value(head, prefix, vault_text, depth)
        }),
{
    let index = lemma_written(head, prefix, vault_text, depth, tail);
}

/// A payload that was written into a document is taken out of it again by
/// `find_vault`, from wherever the cursor is between the beginning of the value's
/// line and its end. The YAML parser must find no error in the document, and the
/// line must not lie in the payload of another value.
pub proof fn law_written_value_is_taken_out(
    head: Seq<char>,
    prefix: Seq<char>,
    vault_text: Seq<char>,
    depth: nat,
    tail: Seq<char>,
    range: Range,
    cursor: int,
)
    requires
        writable(head, prefix, vault_text, depth, tail),
        ({
            let s = written(head, prefix, vault_text, depth, tail);
            let lines = validation::document_lines(s, 0);
            &&& yaml::syntax_gate(s) == Ok::<Option<bool>, Seq<char>>(Some(false))
            &&& yaml::selection(s, range) == Some((cursor, cursor))
            &&& exists|index: int|
                0 <= index < lines.len() && lines[index].0 == head.len() && #[trigger] comes_to(
                    s,
                    lines,
                    0,
                    index,
                )
        }),
        text::byte_len(head) <= cursor <= written_value(head, prefix, vault_text, depth).end,
    ensures
        yaml::found_vault(written(head, prefix, vault_text, depth, tail), range) == Ok::<
            Found,
            Failure,
        >(written_value(head, prefix, vault_text, depth)),
{
    let s = written(head, prefix, vault_text, depth, tail);
    let lines = validation::document_lines(s, 0);
    let index = lemma_written(head, prefix, vault_text, depth, tail);
    let other = choose|index: int|
        0 <= index < lines.len() && lines[index].0 == head.len() && #[trigger] comes_to(
            s,
            lines,
            0,
            index,
        );
    validation::lemma_lines_ordered(s, 0);
    if index < other {
        assert(lines[index].1 < lines[other].0);
    } else if other < index {
        assert(lines[other].1 < lines[index].0);
    }
    law_cursor_finds_its_value(s, index, prefix.len() as int, cursor);
}

// ---------------------------------------------------------------------------
// A payload on its way
// ---------------------------------------------------------------------------

/// Lines that are joined are found again.
proof fn lemma_lines_of_join(parts: Seq<Seq<char>>)
    requires
        forall|i: int| 0 <= i < parts.len() ==> one_visible_line(#[trigger] parts[i]),
    ensures
        text::lines(text::join(parts, seq!['\n'])) == parts,
    decreases parts.len(),
{
    let sep = seq!['\n'];
    let all = text::join(parts, sep);
    if parts.len() == 0 {
        assert(text::line_len(all) == 0);
        assert(text::lines(all) =~= parts);
    } else {
        let first = parts[0];
        let n = first.len() as int;
        assert(one_visible_line(parts[0]));
        text::lemma_trim_empty(first);
        if parts.len() > 1 {
            lemma_join_first(parts, sep);
        }
        assert forall|k: int| 0 <= k < n implies #[trigger] all[k] != '\n' by {
            assert(all[k] == first[k]);
            assert(first.contains(first[k]));
        }
        text::lemma_line_len(all, n);
        assert(first.contains(first.last()));
        if parts.len() == 1 {
            assert(all.take(n) =~= first);
            assert(all.skip(n) =~= Seq::<char>::empty());
            assert(text::line_len(all.skip(n)) == 0);
            assert(text::lines_inclusive(all.skip(n)) =~= Seq::<Seq<char>>::empty());
            assert(text::lines_inclusive(all) =~= seq![first]);
        } else {
            let rest = parts.skip(1);
            let line = all.take(n + 1);
            assert forall|i: int| 0 <= i < rest.len() implies one_visible_line(
                #[trigger] rest[i],
            ) by {
                assert(rest[i] == parts[i + 1]);
            }
            lemma_lines_of_join(rest);
            assert(all.skip(n + 1) =~= text::join(rest, sep));
            assert(line.drop_last() =~= first);
            assert(text::without_line_end(line) == first);
            assert(text::lines_inclusive(all) == seq![line] + text::lines_inclusive(
                text::join(rest, sep),
            ));
            assert(text::lines(all) =~= seq![first] + text::lines(text::join(rest, sep)));
        }
        assert(text::lines(all) =~= parts);
    }
}

/// The last line stands at the end of what is joined.
proof fn lemma_join_last(parts: Seq<Seq<char>>, sep: Seq<char>)
    requires
        parts.len() > 0,
        parts.last().len() > 0,
    ensures
        text::join(parts, sep).len() > 0,
        text::join(parts, sep).last() == parts.last().last(),
{
}

proof fn lemma_line_holds(s: Seq<char>, i: int)
    requires
        0 <= i < text::lines_inclusive(s).len(),
    ensures
        !text::without_line_end(text::lines_inclusive(s)[i]).contains('\n'),
        forall|c: char|
            text::without_line_end(text::lines_inclusive(s)[i]).contains(c) ==> s.contains(c),
    decreases s.len(),
{
    let set = seq!['\n'];
    let n = text::line_len(s);
    text::lemma_prefix_len_bounds(s, text::outside(set));
    let all = text::lines_inclusive(s);
    let rest = text::lines_inclusive(s.skip(n));
    assert(all =~= seq![s.take(n)] + rest);
    let body = text::without_line_end(all[i]);
    if i == 0 {
        let m = text::prefix_len(s, text::outside(set)) as int;
        assert(set.contains(set[0]));
        assert forall|j: int| 0 <= j < body.len() implies #[trigger] body[j] != '\n' && s.contains(
            body[j],
        ) by {
            assert(body[j] == s[j]);
            if j < m {
                assert(text::outside(set)(s[j]));
            } else {
                assert(s.take(n).last() == s[m]);
            }
        }
    } else {
        lemma_line_holds(s.skip(n), i - 1);
        assert(all[i] == rest[i - 1]);
        assert forall|c: char| body.contains(c) implies s.contains(c) by {
            assert(text::without_line_end(rest[i - 1]).contains(c));
            assert(s.skip(n).contains(c));
            let j = choose|j: int| 0 <= j < s.skip(n).len() && s.skip(n)[j] == c;
            assert(s[n + j] == c);
        }
    }
}

proof fn lemma_unindented(s: Seq<char>, from: int, n: int)
    requires
        !s.contains('\r'),
        0 <= from <= text::lines(s).len(),
        0 <= n <= text::lines(s).len() - from,
    ensures
        forall|i: int|
            0 <= i < vault::unindented(text::lines(s).skip(from), n).len() ==> one_visible_line(
                #[trigger] vault::unindented(text::lines(s).skip(from), n)[i],
            ),
    decreases n,
{
    if n > 0 {
        lemma_unindented(s, from, n - 1);
        let line = text::lines(s).skip(from)[n - 1];
        lemma_line_holds(s, from + n - 1);
        let shown = text::trim_start(line);
        text::lemma_prefix_len_bounds(line, text::blank());
        if shown.len() > 0 {
            text::lemma_trim_empty(shown);
            assert(shown[0] == line[text::prefix_len(line, text::blank()) as int]);
            assert(!text::white_space(shown[0]));
            assert forall|j: int| 0 <= j < shown.len() implies line.contains(#[trigger] shown[j]) by {
                assert(shown[j] == line[j + text::prefix_len(line, text::blank())]);
            }
            assert(!shown.contains('\n') && !shown.contains('\r')) by {
                assert(!line.contains('\n') && !line.contains('\r'));
            }
            assert(one_visible_line(shown));
        }
        let before = vault::unindented(text::lines(s).skip(from), n - 1);
        let all = vault::unindented(text::lines(s).skip(from), n);
        assert forall|i: int| 0 <= i < all.len() implies one_visible_line(#[trigger] all[i]) by {
            if i < before.len() {
                assert(all[i] == before[i]);
            }
        }
    }
}

/// The payload that `ansible-vault encrypt_string` wrote can be written into a
/// document and is whole there: its lines, one under the other, are the payload.
/// With `law_written_value_is_found`, what is later taken out of the document for
/// decryption is what was encrypted.
pub proof fn law_payload_stays_whole(output: Seq<char>, indent: Seq<char>)
    requires
        vault::encrypted_payload(output) is Some,
        !output.contains('\r'),
    ensures
        ({
            let payload = vault::encrypted_payload(output)->0;
            let lines = writing::vault_lines(payload);
            &&& writing::encrypted_value(payload, indent) is Some
            &&& text::join(lines, seq!['\n']) + seq!['\n'] == payload
            &&& forall|i: int| 0 <= i < lines.len() ==> one_visible_line(#[trigger] lines[i])
        }),
{
    let payload = vault::encrypted_payload(output)->0;
    let lines = text::lines(output);
    let at = vault::marker_line(lines, 0)->0;
    let ends = seq!['\r', '\n'];
    lemma_marker_line(lines, 0);
    let rest = lines.skip(at + 1);
    let parts = vault::unindented(rest, rest.len() as int);
    lemma_unindented(output, at + 1, rest.len() as int);
    let body = text::join(parts, seq!['\n']);
    assert(one_visible_line(parts[parts.len() - 1]));
    text::lemma_trim_empty(parts.last());
    lemma_join_last(parts, seq!['\n']);
    assert(parts.last().contains(parts.last().last()));
    assert(payload =~= body.push('\n'));
    assert(ends.contains(ends[1]));
    assert(payload[payload.len() - 1] == '\n');
    assert(payload[payload.len() - 2] == body.last());
    text::lemma_suffix_len(payload, text::among(ends), 1);
    assert(text::trim_end_of(payload, ends) =~= body);
    lemma_lines_of_join(parts);
}

proof fn lemma_marker_line(lines: Seq<Seq<char>>, i: int)
    requires
        0 <= i,
    ensures
        vault::marker_line(lines, i) matches Some(at) ==> i <= at < lines.len(),
    decreases lines.len() - i,
{
    if i < lines.len() {
        lemma_marker_line(lines, i + 1);
    }
}

// ---------------------------------------------------------------------------
// A plain text
// ---------------------------------------------------------------------------

/// The lines of a written value behind its first, without the indentation.
pub open spec fn block_lines(value: Seq<char>, depth: nat) -> Seq<Seq<char>> {
    text::split_any(value, seq!['\n']).skip(1).map_values(
        |line: Seq<char>| line.skip(depth as int),
    )
}

proof fn lemma_split_indented(parts: Seq<Seq<char>>, indent: Seq<char>)
    requires
        parts.len() > 0,
        !indent.contains('\n'),
        forall|i: int| 0 <= i < parts.len() ==> !(#[trigger] parts[i]).contains('\n'),
    ensures
        text::split_any(indent + text::join(parts, seq!['\n'] + indent), seq!['\n'])
            == parts.map_values(|part: Seq<char>| indent + part),
    decreases parts.len(),
{
    let set = seq!['\n'];
    let sep = set + indent;
    let first = indent + parts[0];
    let all = indent + text::join(parts, sep);
    assert(set.contains(set[0]));
    assert(!parts[0].contains('\n'));
    assert forall|k: int| 0 <= k < first.len() implies !set.contains(#[trigger] first[k]) by {
        if k < indent.len() {
            assert(indent.contains(indent[k]));
        } else {
            assert(parts[0].contains(parts[0][k - indent.len()]));
        }
    }
    if parts.len() == 1 {
        text::lemma_split_single(first, set);
        assert(parts.map_values(|part: Seq<char>| indent + part) =~= seq![first]);
    } else {
        let rest = parts.skip(1);
        lemma_join_first(parts, sep);
        assert forall|i: int| 0 <= i < rest.len() implies !(#[trigger] rest[i]).contains('\n') by {
            assert(rest[i] == parts[i + 1]);
        }
        lemma_split_indented(rest, indent);
        let behind = indent + text::join(rest, sep);
        assert(all =~= first + seq!['\n'] + behind);
        text::lemma_split_first(first, '\n', behind, set);
        assert(parts.map_values(|part: Seq<char>| indent + part) =~= seq![first]
            + rest.map_values(|part: Seq<char>| indent + part));
    }
}

/// Pieces with the separator between them are the text.
proof fn lemma_join_split(s: Seq<char>)
    ensures
        text::join(text::split_any(s, seq!['\n']), seq!['\n']) == s,
    decreases s.len(),
{
    let set = seq!['\n'];
    let n = text::prefix_len(s, text::outside(set)) as int;
    text::lemma_prefix_len_bounds(s, text::outside(set));
    if n < s.len() {
        let rest = s.skip(n + 1);
        let parts = text::split_any(s, set);
        lemma_join_split(rest);
        text::lemma_split_pieces(rest, set);
        lemma_join_first(parts, set);
        assert(parts.skip(1) =~= text::split_any(rest, set));
        assert(s[n] == '\n');
        assert(s =~= s.take(n) + set + rest);
    }
}

/// A text with several lines loses none of them when it is written: under a first
/// line that tells whether the text ends with a line feed, the lines of the block,
/// without the indentation, are those of the text.
pub proof fn law_blocks_hold_every_line(s: Seq<char>, indent: Seq<char>)
    requires
        !indent.contains('\n'),
        writing::without_last(writing::without_last(s, '\n'), '\r').contains('\n'),
    ensures
        ({
            let value = writing::plaintext_value(s, indent);
            &&& text::split_any(value, seq!['\n'])[0] == if s.last() == '\n' {
                "|"@
            } else {
                "|-"@
            }
            &&& text::join(block_lines(value, indent.len()), seq!['\n']) == writing::without_last(
                s,
                '\n',
            )
        }),
{
    let set = seq!['\n'];
    let body = writing::without_last(s, '\n');
    let value = writing::plaintext_value(s, indent);
    let lead = if s.last() == '\n' {
        "|"@
    } else {
        "|-"@
    };
    reveal_strlit("|");
    reveal_strlit("|-");
    reveal_strlit("|\n");
    reveal_strlit("|-\n");
    let parts = text::split_any(body, set);
    text::lemma_split_pieces(body, set);
    assert(set.contains(set[0]));
    assert forall|i: int| 0 <= i < parts.len() implies !(#[trigger] parts[i]).contains('\n') by {}
    lemma_split_indented(parts, indent);
    lemma_join_split(body);
    let rest = indent + text::join(parts, set + indent);
    assert(value =~= lead + seq!['\n'] + rest);
    text::lemma_split_first(lead, '\n', rest, set);
    let all = text::split_any(value, set);
    assert(all.skip(1) =~= text::split_any(rest, set));
    assert forall|i: int| 0 <= i < parts.len() implies #[trigger] block_lines(
        value,
        indent.len(),
    )[i] == parts[i] by {
        assert((indent + parts[i]).skip(indent.len() as int) =~= parts[i]);
    }
    assert(block_lines(value, indent.len()) =~= parts);
}

// ---------------------------------------------------------------------------
// What `ansible-vault` prints
// ---------------------------------------------------------------------------

proof fn lemma_contains(s: Seq<char>, p: Seq<char>, at: int)
    requires
        0 <= at,
        at + p.len() <= s.len(),
        s.subrange(at, at + p.len()) == p,
    ensures
        text::contains(s, p),
    decreases s.len(),
{
    if at == 0 {
        assert(s.take(p.len() as int) =~= s.subrange(0, 0 + p.len() as int));
    } else if !text::starts_with(s, p) {
        assert(s.drop_first().subrange(at - 1, at - 1 + p.len()) =~= s.subrange(at, at + p.len()));
        lemma_contains(s.drop_first(), p, at - 1);
    }
}

/// A line feed at the end begins no line of its own.
proof fn lemma_last_line_feed(s: Seq<char>)
    requires
        s.len() > 0,
        s.last() != '\n',
        s.last() != '\r',
    ensures
        text::lines(s.push('\n')) == text::lines(s),
    decreases s.len(),
{
    let set = seq!['\n'];
    let t = s.push('\n');
    let n = text::prefix_len(s, text::outside(set)) as int;
    text::lemma_prefix_len_bounds(s, text::outside(set));
    assert forall|k: int| 0 <= k < n implies #[trigger] t[k] != '\n' by {
        assert(text::outside(set)(s[k]));
        assert(set[0] == '\n');
    }
    assert forall|k: int| 0 <= k < n implies #[trigger] s[k] != '\n' by {
        assert(t[k] == s[k]);
    }
    if n < s.len() {
        assert(set.contains(s[n]));
        assert(t[n] == '\n');
        text::lemma_line_len(s, n);
        text::lemma_line_len(t, n);
        let rest = s.skip(n + 1);
        if rest.len() == 0 {
            assert(s.last() == s[n]);
        }
        assert(t.skip(n + 1) =~= rest.push('\n'));
        assert(t.take(n + 1) =~= s.take(n + 1));
        lemma_last_line_feed(rest);
        let line = text::without_line_end(s.take(n + 1));
        assert(text::lines(s) =~= seq![line] + text::lines(rest));
        assert(text::lines(t) =~= seq![line] + text::lines(rest.push('\n')));
    } else {
        text::lemma_line_len(s, n);
        text::lemma_line_len(t, n);
        let none = Seq::<char>::empty();
        assert(s.take(n) =~= s);
        assert(s.skip(n) =~= none);
        assert(t.take(n + 1) =~= t);
        assert(t.skip(n + 1) =~= none);
        assert(text::line_len(none) == 0);
        assert(text::lines_inclusive(none) =~= Seq::<Seq<char>>::empty());
        assert(text::lines_inclusive(s) =~= seq![s]);
        assert(text::lines_inclusive(t) =~= seq![t]);
        assert(t.drop_last() =~= s);
        assert(text::lines(s) =~= seq![s]);
        assert(text::lines(t) =~= seq![s]);
    }
}

proof fn lemma_padding_goes(lines: Seq<Seq<char>>, padded: Seq<Seq<char>>, depth: nat, n: int)
    requires
        0 <= n <= lines.len(),
        padded.len() == lines.len(),
        forall|i: int|
            0 <= i < lines.len() ==> (#[trigger] lines[i]).len() > 0 && !text::white_space(
                lines[i][0],
            ),
        forall|i: int| 0 <= i < lines.len() ==> #[trigger] padded[i] == text::spaces(depth) + lines[i],
    ensures
        vault::unindented(padded, n) == lines.take(n),
    decreases n,
{
    if n > 0 {
        lemma_padding_goes(lines, padded, depth, n - 1);
        let whole = padded[n - 1];
        let line = lines[n - 1];
        assert forall|k: int| 0 <= k < depth implies text::blank()(#[trigger] whole[k]) by {}
        assert(whole[depth as int] == line[0]);
        text::lemma_prefix_len(whole, text::blank(), depth as int);
        assert(text::trim_start(whole) =~= line);
        assert(lines.take(n) =~= lines.take(n - 1).push(line));
    } else {
        assert(vault::unindented(padded, n) =~= lines.take(n));
    }
}

/// What `ansible-vault encrypt_string` prints: a name and the tag on one line, and under
/// it the payload, each line behind the same number of spaces.
pub open spec fn printed(name: Seq<char>, lines: Seq<Seq<char>>, depth: nat) -> Seq<char> {
    text::join(
        seq![name + "!vault |"@] + lines.map_values(
            |line: Seq<char>| text::spaces(depth) + line,
        ),
        "\n"@,
    )
}

/// The payload is read out of what `ansible-vault encrypt_string` prints: every line
/// under the tag, without the spaces before it and with a line feed behind it, where the
/// first of them begins as a Vault header does, and nothing otherwise.
pub proof fn law_printed_payloads_are_read(
    name: Seq<char>,
    lines: Seq<Seq<char>>,
    depth: nat,
    tail: Seq<char>,
)
    requires
        !name.contains('\n'),
        !name.contains('\r'),
        lines.len() > 0,
        forall|i: int|
            0 <= i < lines.len() ==> (#[trigger] lines[i]).len() > 0 && !text::white_space(
                lines[i][0],
            ) && !lines[i].contains('\n') && !lines[i].contains('\r'),
        tail == ""@ || tail == "\n"@,
    ensures
        vault::encrypted_payload(printed(name, lines, depth) + tail) == if lines[0].len() >= 15
            && lines[0].take(15) == "$ANSIBLE_VAULT;"@ {
            Some(text::join(lines, "\n"@) + "\n"@)
        } else {
            None::<Seq<char>>
        },
{
    reveal_strlit("");
    reveal_strlit("\n");
    reveal_strlit("!vault |");
    reveal_strlit("$ANSIBLE_VAULT;");
    let sep = seq!['\n'];
    assert("\n"@ =~= sep);
    let top = name + "!vault |"@;
    let padded = lines.map_values(|line: Seq<char>| text::spaces(depth) + line);
    let parts = seq![top] + padded;
    let s = printed(name, lines, depth);
    assert forall|i: int| 0 <= i < parts.len() implies one_visible_line(#[trigger] parts[i]) by {
        let part = parts[i];
        if i == 0 {
            assert(part[name.len() as int] == '!');
            text::lemma_trim_empty(part);
            assert forall|c: char| part.contains(c) implies c != '\n' && c != '\r' by {
                let k = choose|k: int| 0 <= k < part.len() && part[k] == c;
                if k < name.len() {
                    assert(name.contains(name[k]));
                } else {
                    assert(part[k] == "!vault |"@[k - name.len()]);
                }
            }
        } else {
            let line = lines[i - 1];
            assert(part == text::spaces(depth) + line);
            assert(part[depth as int] == line[0]);
            text::lemma_trim_empty(part);
            assert forall|c: char| part.contains(c) implies c != '\n' && c != '\r' by {
                let k = choose|k: int| 0 <= k < part.len() && part[k] == c;
                if k >= depth {
                    assert(part[k] == line[k - depth]);
                    assert(line.contains(line[k - depth]));
                }
            }
        }
    }
    lemma_lines_of_join(parts);
    assert(text::lines(s) == parts);
    lemma_join_last(parts, sep);
    let end = parts.last();
    assert(one_visible_line(parts[parts.len() - 1]));
    assert(end.contains(end[end.len() - 1]));
    if tail.len() == 1 {
        assert(s + tail =~= s.push('\n'));
        lemma_last_line_feed(s);
    } else {
        assert(s + tail =~= s);
    }
    assert(top.subrange(name.len() as int, name.len() + 8int) =~= "!vault |"@);
    lemma_contains(top, "!vault |"@, name.len() as int);
    assert(parts[0] == top);
    assert(vault::marker_line(parts, 0) == Some(0int));
    assert(parts.skip(1) =~= padded);
    lemma_padding_goes(lines, padded, depth, lines.len() as int);
    assert(lines.take(lines.len() as int) =~= lines);
}

/// Where no line shows the tag, there is no payload.
pub proof fn law_output_without_tag_is_refused(output: Seq<char>)
    requires
        forall|at: int|
            0 <= at <= output.len() - 8 ==> #[trigger] output.subrange(at, at + 8) != "!vault |"@,
    ensures
        vault::encrypted_payload(output) is None,
{
    reveal_strlit("!vault |");
    let lines = text::lines(output);
    lemma_no_marker(output, 0);
}

proof fn lemma_no_marker(output: Seq<char>, i: int)
    requires
        0 <= i <= text::lines(output).len(),
        forall|at: int|
            0 <= at <= output.len() - 8 ==> #[trigger] output.subrange(at, at + 8) != "!vault |"@,
    ensures
        vault::marker_line(text::lines(output), i) is None,
    decreases text::lines(output).len() - i,
{
    reveal_strlit("!vault |");
    let lines = text::lines(output);
    if i < lines.len() {
        lemma_no_marker(output, i + 1);
        let line = lines[i];
        text::lemma_find(line, "!vault |"@);
        if let Some(at) = text::find(line, "!vault |"@) {
            let from = lemma_line_place(output, i);
            assert(output.subrange(from + at, from + at + 8) =~= line.subrange(at, at + 8));
        }
    }
}

/// A line lies somewhere in its text.
proof fn lemma_line_place(s: Seq<char>, i: int) -> (from: int)
    requires
        0 <= i < text::lines(s).len(),
    ensures
        0 <= from,
        from + text::lines(s)[i].len() <= s.len(),
        s.subrange(from, from + text::lines(s)[i].len()) == text::lines(s)[i],
    decreases i,
{
    let n = text::line_len(s);
    text::lemma_prefix_len_bounds(s, text::outside(seq!['\n']));
    let rest = s.skip(n);
    assert(text::lines_inclusive(s) =~= seq![s.take(n)] + text::lines_inclusive(rest));
    let line = text::lines(s)[i];
    if i == 0 {
        assert(s.subrange(0, line.len() as int) =~= line);
        0
    } else {
        assert(text::lines(rest)[i - 1] == line);
        let from = lemma_line_place(rest, i - 1);
        assert(s.subrange(n + from, n + from + line.len()) =~= rest.subrange(
            from,
            from + line.len(),
        ));
        n + from
    }
}

/// A payload is written under the tag line by line, each line behind the indentation.
pub proof fn law_payload_lines_are_written_as_they_are(
    lines: Seq<Seq<char>>,
    indent: Seq<char>,
)
    requires
        lines.len() > 0,
        forall|i: int|
            0 <= i < lines.len() ==> one_visible_line(#[trigger] lines[i]) && !text::white_space(
                lines[i].last(),
            ),
    ensures
        writing::encrypted_value(text::join(lines, "\n"@) + "\n"@, indent) == if lines[0].len()
            >= 15 && lines[0].take(15) == "$ANSIBLE_VAULT;"@ {
            Some("!vault |\n"@ + indent + text::join(lines, "\n"@ + indent))
        } else {
            None::<Seq<char>>
        },
{
    reveal_strlit("\n");
    reveal_strlit("!vault |\n");
    reveal_strlit("$ANSIBLE_VAULT;");
    let sep = seq!['\n'];
    assert("\n"@ =~= sep);
    let ends = seq!['\r', '\n'];
    let body = text::join(lines, sep);
    let payload = body + sep;
    let last = lines[lines.len() - 1];
    assert(one_visible_line(last));
    text::lemma_trim_empty(last);
    lemma_join_last(lines, sep);
    assert(last.contains(last.last()));
    assert(payload =~= body.push('\n'));
    assert(ends.contains(ends[1]));
    assert(payload[payload.len() - 1] == '\n');
    assert(payload[payload.len() - 2] == body.last());
    text::lemma_suffix_len(payload, text::among(ends), 1);
    assert(text::trim_end_of(payload, ends) =~= body);
    lemma_lines_of_join(lines);
    assert(writing::vault_lines(payload) == lines);
    let whole = "!vault |\n"@ + indent + text::join(lines, "\n"@ + indent);
    if lines[0].len() >= 15 && lines[0].take(15) == "$ANSIBLE_VAULT;"@ {
        assert(writing::encrypted_value(payload, indent)->0 =~= whole);
    }
}

/// The lines under a tag that hold something, without the white space at their starts.
pub open spec fn under_tag(lines: Seq<Seq<char>>) -> Seq<Seq<char>> {
    lines.map_values(|line: Seq<char>| text::trim_start(line)).filter(
        |line: Seq<char>| line.len() > 0,
    )
}

proof fn lemma_under_tag(lines: Seq<Seq<char>>, n: int)
    requires
        0 <= n <= lines.len(),
    ensures
        vault::unindented(lines, n) == under_tag(lines.take(n)),
    decreases n,
{
    reveal(Seq::filter);
    let f = |line: Seq<char>| text::trim_start(line);
    if n > 0 {
        lemma_under_tag(lines, n - 1);
        let mapped = lines.take(n).map_values(f);
        assert(mapped.drop_last() =~= lines.take(n - 1).map_values(f));
        assert(mapped.last() == text::trim_start(lines[n - 1]));
    } else {
        assert(lines.take(0).map_values(f) =~= Seq::<Seq<char>>::empty());
        assert(vault::unindented(lines, 0) =~= under_tag(lines.take(0)));
    }
}

proof fn lemma_first_tag(lines: Seq<Seq<char>>, i: int, k: int)
    requires
        0 <= i <= k < lines.len(),
        text::contains(lines[k], "!vault |"@),
        forall|j: int| i <= j < k ==> !text::contains(#[trigger] lines[j], "!vault |"@),
    ensures
        vault::marker_line(lines, i) == Some(k),
    decreases k - i,
{
    if i < k {
        assert(!text::contains(lines[i], "!vault |"@));
        lemma_first_tag(lines, i + 1, k);
    }
}

/// The payload in what was printed is everything under the first line with a tag, wherever
/// that line is: without indentation and blank lines, each line with a line feed behind it,
/// where the first of them begins as a Vault header does. `at` is the place of the tag.
pub proof fn law_payload_is_what_stands_under_the_first_tag(output: Seq<char>, k: int, at: int)
    requires
        0 <= k < text::lines(output).len(),
        0 <= at <= text::lines(output)[k].len() - 8,
        text::lines(output)[k].subrange(at, at + 8) == "!vault |"@,
        forall|j: int, p: int|
            0 <= j < k && 0 <= p <= text::lines(output)[j].len() - 8 ==> (
            #[trigger] text::lines(output)[j].subrange(p, p + 8)) != "!vault |"@,
    ensures
        ({
            let payload = under_tag(text::lines(output).skip(k + 1));
            vault::encrypted_payload(output) == if payload.len() > 0 && payload[0].len() >= 15
                && payload[0].take(15) == "$ANSIBLE_VAULT;"@ {
                Some(text::join(payload, "\n"@) + "\n"@)
            } else {
                None::<Seq<char>>
            }
        }),
{
    reveal_strlit("\n");
    reveal_strlit("!vault |");
    reveal_strlit("$ANSIBLE_VAULT;");
    assert("\n"@ =~= seq!['\n']);
    let lines = text::lines(output);
    lemma_contains(lines[k], "!vault |"@, at);
    assert forall|j: int| 0 <= j < k implies !text::contains(#[trigger] lines[j], "!vault |"@) by {
        text::lemma_find(lines[j], "!vault |"@);
        if let Some(p) = text::find(lines[j], "!vault |"@) {
            assert(text::lines(output)[j].subrange(p, p + 8) == "!vault |"@);
        }
    }
    lemma_first_tag(lines, 0, k);
    let rest = lines.skip(k + 1);
    lemma_under_tag(rest, rest.len() as int);
    assert(rest.take(rest.len() as int) =~= rest);
}

// ---------------------------------------------------------------------------
// Several values
// ---------------------------------------------------------------------------

proof fn lemma_visible_up_to(s: Seq<char>, lines: Seq<(int, int)>, i: int, k: int)
    requires
        0 <= i <= k < lines.len(),
        !validation::blank_line(validation::content(s, lines[k])),
    ensures
        i <= validation::next_visible(s, lines, i) <= k,
    decreases k - i,
{
    if i < k && validation::blank_line(validation::content(s, lines[i])) {
        lemma_visible_up_to(s, lines, i + 1, k);
    }
}

proof fn lemma_payload_stop_up_to(s: Seq<char>, lines: Seq<(int, int)>, i: int, depth: nat, k: int)
    requires
        0 <= i <= k < lines.len(),
        !validation::blank_line(validation::content(s, lines[k])),
        validation::indent(validation::content(s, lines[k])) < depth,
    ensures
        i <= yaml::payload_stop(s, lines, i, depth) <= k,
    decreases k - i,
{
    lemma_visible_up_to(s, lines, i, k);
    let next = validation::next_visible(s, lines, i);
    if validation::indent(validation::content(s, lines[next])) >= depth {
        lemma_payload_stop_up_to(s, lines, next + 1, depth, k);
    }
}

proof fn lemma_payload_ends_before(s: Seq<char>, lines: Seq<(int, int)>, i: int, k: int)
    requires
        0 <= i < k < lines.len(),
        !validation::blank_line(validation::content(s, lines[k])),
        validation::indent(validation::content(s, lines[k])) == 0,
    ensures
        i < yaml::payload_end(s, lines, i) <= k,
{
    lemma_visible_up_to(s, lines, i + 1, k);
    if let Some(depth) = yaml::payload_depth(s, lines, i) {
        lemma_payload_stop_up_to(s, lines, yaml::payload_start(s, lines, i), depth, k);
        yaml::lemma_payload_end(s, lines, i);
    }
}

/// What is selected from a line in the first column on is selected whatever stands before it.
proof fn lemma_selected_behind(
    s: Seq<char>,
    lines: Seq<(int, int)>,
    i: int,
    k: int,
    start: int,
    end: int,
) -> (before: Seq<Found>)
    requires
        0 <= i <= k < lines.len(),
        !validation::blank_line(validation::content(s, lines[k])),
        validation::indent(validation::content(s, lines[k])) == 0,
    ensures
        yaml::selected_vaults(s, lines, i, start, end) == before + yaml::selected_vaults(
            s,
            lines,
            k,
            start,
            end,
        ),
    decreases k - i,
{
    let rest = yaml::selected_vaults(s, lines, k, start, end);
    let all = yaml::selected_vaults(s, lines, i, start, end);
    if i == k {
        assert(Seq::<Found>::empty() + rest =~= rest);
        Seq::empty()
    } else {
        match yaml::tag_column(validation::content(s, lines[i])) {
            None => lemma_selected_behind(s, lines, i + 1, k, start, end),
            Some(column) => {
                lemma_payload_ends_before(s, lines, i, k);
                let later = lemma_selected_behind(
                    s,
                    lines,
                    yaml::payload_end(s, lines, i),
                    k,
                    start,
                    end,
                );
                if yaml::selects(s, lines, i, start, end) {
                    let first = seq![yaml::vault_at(s, lines, i, column)];
                    assert(all =~= (first + later) + rest);
                    first + later
                } else {
                    later
                }
            },
        }
    }
}

/// A selection that covers the lines of two tags in the first column is refused: nothing is
/// decrypted, and the user is told why.
pub proof fn law_two_values_are_never_taken_for_one(
    s: Seq<char>,
    range: Range,
    start: int,
    end: int,
    i: int,
    k: int,
)
    requires
        crate::syntax::parsable(s),
        crate::syntax::yaml_error(s) == Ok::<Option<bool>, Seq<char>>(Some(false)),
        yaml::selection(s, range) == Some((start, end)),
        start != end,
        0 <= i < k < validation::document_lines(s, 0).len(),
        ({
            let lines = validation::document_lines(s, 0);
            &&& lines[i].0 < lines[i].1 && !text::white_space(s[lines[i].0])
            &&& lines[k].0 < lines[k].1 && !text::white_space(s[lines[k].0])
            &&& yaml::tag_column(validation::content(s, lines[i])) is Some
            &&& yaml::tag_column(validation::content(s, lines[k])) is Some
            &&& start <= text::byte_len(s.take(lines[i].0))
            &&& end >= text::byte_len(s.take(lines[k].1))
        }),
    ensures
        yaml::found_vault(s, range) == Err::<Found, Failure>(
            Failure::User("The selection intersects more than one !vault block"@),
        ),
{
    let lines = validation::document_lines(s, 0);
    validation::lemma_lines_ordered(s, 0);
    lemma_first_column(s, lines[i]);
    lemma_first_column(s, lines[k]);
    assert(lines[i].1 < lines[k].0);
    text::lemma_byte_len_monotonic(s, lines[i].1, lines[k].1);
    text::lemma_byte_len_monotonic(s, lines[i].0, lines[k].0);
    lemma_covered(s, lines, i, start, end);
    lemma_covered(s, lines, k, start, end);
    let before = lemma_selected_behind(s, lines, 0, i, start, end);
    lemma_payload_ends_before(s, lines, i, k);
    let between = lemma_selected_behind(
        s,
        lines,
        yaml::payload_end(s, lines, i),
        k,
        start,
        end,
    );
    assert(yaml::selected_vaults(s, lines, k, start, end).len() >= 1);
    assert(yaml::selected_vaults(s, lines, i, start, end).len() >= 2);
    assert(yaml::selected_vaults(s, lines, 0, start, end).len() >= 2);
    yaml::law_exactly_one_value_is_decrypted(s, range, start, end);
}

proof fn lemma_first_column(s: Seq<char>, span: (int, int))
    requires
        0 <= span.0 < span.1 <= s.len(),
        !text::white_space(s[span.0]),
    ensures
        !validation::blank_line(validation::content(s, span)),
        validation::indent(validation::content(s, span)) == 0,
{
    let line = validation::content(s, span);
    assert(line[0] == s[span.0]);
    text::lemma_trim_empty(line);
    text::lemma_prefix_len(line, validation::space(), 0);
}

proof fn lemma_covered(s: Seq<char>, lines: Seq<(int, int)>, i: int, start: int, end: int)
    requires
        lines == validation::document_lines(s, 0),
        0 <= i < lines.len(),
        lines[i].0 < lines[i].1,
        start != end,
        start <= text::byte_len(s.take(lines[i].0)),
        end >= text::byte_len(s.take(lines[i].1)),
    ensures
        yaml::selects(s, lines, i, start, end),
{
    validation::lemma_lines_ordered(s, 0);
    yaml::lemma_payload_end(s, lines, i);
    let last = lines[yaml::payload_end(s, lines, i) - 1];
    assert(validation::in_text(s, lines[i]) && validation::in_text(s, last));
    text::lemma_byte_len_monotonic(s, lines[i].0, lines[i].1);
    text::lemma_byte_len_monotonic(s, lines[i].1, last.1);
}

} // verus!
