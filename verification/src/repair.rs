//! Repairing a header in a document.
//!
//! Taking up the repair of a header removes what was found wrong with it, and
//! nothing else changes: every other finding stays, at its place in the new text.
use crate::header;
use crate::text;
use crate::validation;
use crate::validation::Finding;
use vstd::prelude::*;

verus! {

// ---------------------------------------------------------------------------
// Replacing a part of a line
// ---------------------------------------------------------------------------

/// A text in which `new` stands in the place of what lies between two places.
pub open spec fn replaced(s: Seq<char>, start: int, end: int, new: Seq<char>) -> Seq<char> {
    s.take(start) + new + s.skip(end)
}

/// Where a place lies once the text behind `start` has grown by `growth`.
pub open spec fn moved_place(place: int, start: int, growth: int) -> int {
    if place <= start {
        place
    } else {
        place + growth
    }
}

pub open spec fn moved_span(span: (int, int), start: int, growth: int) -> (int, int) {
    (moved_place(span.0, start, growth), moved_place(span.1, start, growth))
}

/// The lines from a place on are those from the same place of a text with the same
/// end.
proof fn lemma_lines_behind(s: Seq<char>, other: Seq<char>, from: int, growth: int)
    requires
        0 <= from <= s.len(),
        0 <= from + growth <= other.len(),
        other.skip(from + growth) == s.skip(from),
    ensures
        validation::document_lines(other, from + growth).len() == validation::document_lines(
            s,
            from,
        ).len(),
        forall|i: int|
            0 <= i < validation::document_lines(s, from).len()
                ==> #[trigger] validation::document_lines(other, from + growth)[i] == (
                validation::document_lines(s, from)[i].0 + growth,
                validation::document_lines(s, from)[i].1 + growth,
            ),
    decreases s.len() - from,
{
    let n = text::line_len(s.skip(from));
    text::lemma_prefix_len_bounds(s.skip(from), text::outside(seq!['\n']));
    assert(other.skip(from + growth).len() == s.skip(from).len());
    if 0 < n {
        assert(s.subrange(from, from + n) =~= s.skip(from).take(n));
        assert(other.subrange(from + growth, from + growth + n) =~= other.skip(from + growth).take(
            n,
        ));
        assert(other.skip(from + n + growth) =~= other.skip(from + growth).skip(n));
        assert(s.skip(from + n) =~= s.skip(from).skip(n));
        lemma_lines_behind(s, other, from + n, growth);
        let all = validation::document_lines(s, from);
        let rest = validation::document_lines(s, from + n);
        let same = validation::document_lines(other, from + growth);
        let later = validation::document_lines(other, from + n + growth);
        assert forall|i: int| 0 <= i < all.len() implies #[trigger] same[i] == (
            all[i].0 + growth,
            all[i].1 + growth,
        ) by {
            if i > 0 {
                assert(all[i] == rest[i - 1]);
                assert(same[i] == later[i - 1]);
            }
        }
    }
}

/// Whether a part of a line can be replaced so that the line stays a line: the part
/// lies in the line, and neither it nor what replaces it holds a line feed or ends
/// with white space.
spec fn replaceable(
    s: Seq<char>,
    lines: Seq<(int, int)>,
    k: int,
    start: int,
    end: int,
    new: Seq<char>,
) -> bool {
    &&& 0 <= k < lines.len()
    &&& lines[k].0 <= start < end <= lines[k].1 <= s.len()
    &&& new.len() > 0
    &&& !text::white_space(new[0])
    &&& !text::white_space(new.last())
    &&& !new.contains('\n')
}

/// The lines of a text after a part of the line `k` was replaced: that line ends
/// elsewhere, and those behind it are moved.
proof fn lemma_lines_after(
    s: Seq<char>,
    from: int,
    k: int,
    start: int,
    end: int,
    new: Seq<char>,
)
    requires
        0 <= from <= s.len(),
        replaceable(s, validation::document_lines(s, from), k, start, end, new),
    ensures
        ({
            let lines = validation::document_lines(s, from);
            let after = validation::document_lines(replaced(s, start, end, new), from);
            let growth = new.len() - (end - start);
            &&& after.len() == lines.len()
            &&& forall|i: int| 0 <= i < k ==> #[trigger] after[i] == lines[i]
            &&& after[k] == (lines[k].0, lines[k].1 + growth)
            &&& forall|i: int|
                k < i < lines.len() ==> #[trigger] after[i] == (
                    lines[i].0 + growth,
                    lines[i].1 + growth,
                )
        }),
    decreases s.len() - from,
{
    let t = replaced(s, start, end, new);
    let growth = new.len() - (end - start);
    let set = seq!['\n'];
    let ends = seq!['\r', '\n'];
    let all = validation::document_lines(s, from);
    let rest_s = s.skip(from);
    let rest_t = t.skip(from);
    let m = text::prefix_len(rest_s, text::outside(set)) as int;
    let n = text::line_len(rest_s);
    text::lemma_prefix_len_bounds(rest_s, text::outside(set));
    let next = from + n;
    let later = validation::document_lines(s, next);
    assert(all =~= seq![all[0]] + later);
    validation::lemma_lines_ordered(s, from);
    validation::lemma_lines_ordered(s, next);
    assert(set.contains(set[0]));
    if k == 0 {
        let line = s.subrange(from, next);
        let grown = t.subrange(from, next + growth);
        let tail = s.subrange(end, next);
        text::lemma_suffix_len_bounds(line, text::among(ends));
        assert(all[0] == (from, next - text::suffix_len(line, text::among(ends))));
        assert(m + from >= end) by {
            if m + from < end {
                assert(set.contains(rest_s[m]));
                assert(s[from + m] == '\n');
                assert(n == m + 1);
                assert(end <= next - text::suffix_len(line, text::among(ends)));
                assert(line.last() == '\n');
                assert(ends.contains(ends[1]));
                assert(text::among(ends)(line.last()));
            }
        }
        assert forall|j: int| 0 <= j < m + growth implies text::outside(set)(
            #[trigger] rest_t[j],
        ) by {
            if from + j < start {
                assert(rest_t[j] == rest_s[j]);
                assert(text::outside(set)(rest_s[j]));
            } else if from + j < start + new.len() {
                assert(rest_t[j] == new[from + j - start]);
                assert(new.contains(new[from + j - start]));
            } else {
                assert(rest_t[j] == rest_s[j - growth]);
                assert(text::outside(set)(rest_s[j - growth]));
            }
        }
        if m < rest_s.len() {
            assert(rest_t[m + growth] == rest_s[m]);
        }
        text::lemma_prefix_len(rest_t, text::outside(set), m + growth);
        assert(text::line_len(rest_t) == n + growth);
        let cut = text::suffix_len(line, text::among(ends)) as int;
        assert(next - cut >= end);
        assert forall|j: int| grown.len() - cut <= j < grown.len() implies text::among(ends)(
            #[trigger] grown[j],
        ) by {
            assert(grown[j] == line[j - growth]);
            assert(text::among(ends)(line[j - growth]));
        }
        let last = grown.len() - cut - 1;
        if next - cut > end {
            assert(grown[last] == line[line.len() - cut - 1]);
        } else {
            assert(grown[last] == new.last());
        }
        assert(!text::among(ends)(grown[last]));
        text::lemma_suffix_len(grown, text::among(ends), cut);
        assert(text::trim_end_of(grown, ends).len() == grown.len() - cut);
        assert(t.skip(next + growth) =~= s.skip(next));
        lemma_lines_behind(s, t, next, growth);
        let after = validation::document_lines(t, from);
        let moved = validation::document_lines(t, next + growth);
        assert(after =~= seq![(from, next - cut + growth)] + moved);
        assert forall|i: int| 0 < i < all.len() implies #[trigger] after[i] == (
            all[i].0 + growth,
            all[i].1 + growth,
        ) by {
            assert(after[i] == moved[i - 1]);
            assert(all[i] == later[i - 1]);
        }
    } else {
        assert(all[k] == later[k - 1]);
        assert(next <= start);
        lemma_lines_after(s, next, k - 1, start, end, new);
        assert(next < s.len());
        assert(m < rest_s.len());
        assert forall|j: int| 0 <= j < m implies text::outside(set)(#[trigger] rest_t[j]) by {
            assert(rest_t[j] == rest_s[j]);
            assert(text::outside(set)(rest_s[j]));
        }
        assert(rest_t[m] == rest_s[m]);
        text::lemma_prefix_len(rest_t, text::outside(set), m);
        assert(text::line_len(rest_t) == n);
        assert(t.subrange(from, next) =~= s.subrange(from, next));
        let after = validation::document_lines(t, from);
        let behind = validation::document_lines(t, next);
        assert(after =~= seq![all[0]] + behind);
        assert forall|i: int| 0 <= i < k implies #[trigger] after[i] == all[i] by {
            if i > 0 {
                assert(after[i] == behind[i - 1]);
                assert(all[i] == later[i - 1]);
            }
        }
        assert(after[k] == behind[k - 1]);
        assert forall|i: int| k < i < all.len() implies #[trigger] after[i] == (
            all[i].0 + growth,
            all[i].1 + growth,
        ) by {
            assert(after[i] == behind[i - 1]);
            assert(all[i] == later[i - 1]);
        }
    }
}

/// Two texts and their lines, where the second is the first after the visible part
/// of the line `k` was replaced.
spec fn mended(
    s: Seq<char>,
    lines: Seq<(int, int)>,
    t: Seq<char>,
    after: Seq<(int, int)>,
    k: int,
    fix: (int, int, Seq<char>),
) -> bool {
    let (start, end, new) = fix;
    let growth = new.len() - (end - start);
    &&& replaceable(s, lines, k, start, end, new)
    &&& t == replaced(s, start, end, new)
    &&& validation::trimmed_span(s, lines[k]) == (start, end)
    &&& validation::all_in_text(s, lines)
    &&& validation::lines_in_order(lines)
    &&& after.len() == lines.len()
    &&& forall|i: int| 0 <= i < k ==> #[trigger] after[i] == lines[i]
    &&& after[k] == (lines[k].0, lines[k].1 + growth)
    &&& forall|i: int|
        k < i < lines.len() ==> #[trigger] after[i] == (lines[i].0 + growth, lines[i].1 + growth)
}

/// By how much a text grows by a repair.
spec fn growth_of(fix: (int, int, Seq<char>)) -> int {
    fix.2.len() - (fix.1 - fix.0)
}

/// Whether a span lies on one side of the place where a text grows.
spec fn aside(span: (int, int), start: int) -> bool {
    0 <= span.0 <= span.1 && (span.1 <= start || span.0 > start)
}

/// Any other line shows what it showed, at its place in the new text.
proof fn lemma_other_line(
    s: Seq<char>,
    lines: Seq<(int, int)>,
    t: Seq<char>,
    after: Seq<(int, int)>,
    k: int,
    fix: (int, int, Seq<char>),
    i: int,
)
    requires
        mended(s, lines, t, after, k, fix),
        0 <= i < lines.len(),
        i != k,
    ensures
        after[i] == moved_span(lines[i], fix.0, growth_of(fix)),
        aside(lines[i], fix.0),
        validation::content(t, after[i]) == validation::content(s, lines[i]),
        validation::trimmed_span(t, after[i]) == moved_span(
            validation::trimmed_span(s, lines[i]),
            fix.0,
            growth_of(fix),
        ),
        aside(validation::trimmed_span(s, lines[i]), fix.0),
        validation::content(t, validation::trimmed_span(t, after[i])) == validation::content(
            s,
            validation::trimmed_span(s, lines[i]),
        ),
        validation::in_text(t, after[i]),
{
    let (start, end, new) = fix;
    assert(validation::in_text(s, lines[i]) && validation::in_text(s, lines[k]));
    if i < k {
        assert(lines[i].1 < lines[k].0);
        assert(after[i] == lines[i]);
    } else {
        assert(lines[k].1 < lines[i].0);
        assert(after[i] == (lines[i].0 + growth_of(fix), lines[i].1 + growth_of(fix)));
    }
    assert(validation::content(t, after[i]) =~= validation::content(s, lines[i]));
    validation::lemma_trimmed_span(s, lines[i]);
    validation::lemma_trimmed_span(t, after[i]);
}

/// The repaired line shows the repaired header, as deep as before.
proof fn lemma_mended_line(
    s: Seq<char>,
    lines: Seq<(int, int)>,
    t: Seq<char>,
    after: Seq<(int, int)>,
    k: int,
    fix: (int, int, Seq<char>),
)
    requires
        mended(s, lines, t, after, k, fix),
    ensures
        validation::in_text(t, after[k]),
        text::trim(validation::content(t, after[k])) == fix.2,
        validation::trimmed_span(t, after[k]) == (fix.0, fix.0 + fix.2.len()),
        validation::content(t, (fix.0, fix.0 + fix.2.len())) == fix.2,
        !validation::blank_line(validation::content(s, lines[k])),
        !validation::blank_line(validation::content(t, after[k])),
        validation::indent(validation::content(t, after[k])) == validation::indent(
            validation::content(s, lines[k]),
        ),
{
    let (start, end, new) = fix;
    let old_line = validation::content(s, lines[k]);
    let new_line = validation::content(t, after[k]);
    let lead = start - lines[k].0;
    let blank = text::blank();
    validation::lemma_trimmed_span(s, lines[k]);
    text::lemma_prefix_len_bounds(old_line, blank);
    assert(lead == text::prefix_len(old_line, blank));
    let rest = text::trim_start(old_line);
    text::lemma_suffix_len_bounds(rest, blank);
    assert forall|j: int| 0 <= j < lead implies #[trigger] new_line[j] == old_line[j] by {}
    assert(new_line[lead] == new[0]);
    assert forall|j: int| 0 <= j < lead implies blank(#[trigger] new_line[j]) by {
        assert(blank(old_line[j]));
    }
    text::lemma_prefix_len(new_line, blank, lead);
    let tail = text::suffix_len(rest, blank) as int;
    let kept = text::trim_start(new_line);
    assert(text::trim(old_line).len() == end - start);
    assert(rest.len() == end - start + tail);
    assert(kept.len() == new.len() + tail);
    assert forall|j: int| kept.len() - tail <= j < kept.len() implies blank(#[trigger] kept[j]) by {
        assert(kept[j] == rest[j - growth_of(fix)]);
        assert(blank(rest[j - growth_of(fix)]));
    }
    assert(kept[kept.len() - tail - 1] == new.last());
    text::lemma_suffix_len(kept, blank, tail);
    assert(text::trim(new_line) =~= new);
    assert(validation::content(t, (start, start + new.len())) =~= new);
    let space = validation::space();
    text::lemma_prefix_len_bounds(old_line, space);
    let depth = validation::indent(old_line) as int;
    assert(!blank(old_line[lead]));
    assert(depth <= lead) by {
        if depth > lead {
            assert(space(old_line[lead]));
        }
    }
    assert forall|j: int| 0 <= j < depth implies space(#[trigger] new_line[j]) by {
        assert(space(old_line[j]));
    }
    if depth < lead {
        assert(!space(old_line[depth]));
        assert(new_line[depth] == old_line[depth]);
    } else {
        assert(new_line[depth] == new[0]);
    }
    text::lemma_prefix_len(new_line, space, depth);
}

// ---------------------------------------------------------------------------
// What is found
// ---------------------------------------------------------------------------

/// A finding at its place in a text that has grown.
pub open spec fn moved(finding: Finding, start: int, growth: int) -> Finding {
    Finding {
        start: moved_place(finding.start, start, growth),
        end: moved_place(finding.end, start, growth),
        problem: finding.problem,
        fix: match finding.fix {
            Some((from, to, new)) => Some(
                (moved_place(from, start, growth), moved_place(to, start, growth), new),
            ),
            None => None,
        },
    }
}

/// The findings that a repair does not take care of, at their places in the
/// repaired text.
pub open spec fn remaining(findings: Seq<Finding>, fix: (int, int, Seq<char>)) -> Seq<Finding>
    decreases findings.len(),
{
    if findings.len() == 0 {
        Seq::empty()
    } else {
        let before = remaining(findings.drop_last(), fix);
        if findings.last().fix == Some(fix) {
            before
        } else {
            before.push(moved(findings.last(), fix.0, fix.2.len() - (fix.1 - fix.0)))
        }
    }
}

proof fn lemma_remaining_add(
    first: Seq<Finding>,
    second: Seq<Finding>,
    fix: (int, int, Seq<char>),
)
    ensures
        remaining(first + second, fix) == remaining(first, fix) + remaining(second, fix),
    decreases second.len(),
{
    if second.len() == 0 {
        assert(first + second =~= first);
        assert(remaining(first, fix) + remaining(second, fix) =~= remaining(first, fix));
    } else {
        let all = first + second;
        assert(all.drop_last() =~= first + second.drop_last());
        assert(all.last() == second.last());
        lemma_remaining_add(first, second.drop_last(), fix);
        assert(remaining(all, fix) =~= remaining(first, fix) + remaining(second, fix));
    }
}

/// Findings without this repair all remain.
proof fn lemma_all_remain(findings: Seq<Finding>, fix: (int, int, Seq<char>))
    requires
        forall|i: int| 0 <= i < findings.len() ==> (#[trigger] findings[i]).fix != Some(fix),
    ensures
        remaining(findings, fix).len() == findings.len(),
        forall|i: int|
            0 <= i < findings.len() ==> #[trigger] remaining(findings, fix)[i] == moved(
                findings[i],
                fix.0,
                growth_of(fix),
            ),
    decreases findings.len(),
{
    if findings.len() > 0 {
        assert(findings[findings.len() - 1].fix != Some(fix));
        lemma_all_remain(findings.drop_last(), fix);
    }
}

/// Findings with this repair are gone.
proof fn lemma_none_remain(findings: Seq<Finding>, fix: (int, int, Seq<char>))
    requires
        forall|i: int| 0 <= i < findings.len() ==> (#[trigger] findings[i]).fix == Some(fix),
    ensures
        remaining(findings, fix) == Seq::<Finding>::empty(),
    decreases findings.len(),
{
    if findings.len() > 0 {
        assert(findings[findings.len() - 1].fix == Some(fix));
        lemma_none_remain(findings.drop_last(), fix);
    }
}

/// Whether two lists of spans show the same, the second in a text that has grown.
spec fn moved_spans(
    s: Seq<char>,
    spans: Seq<(int, int)>,
    t: Seq<char>,
    others: Seq<(int, int)>,
    fix: (int, int, Seq<char>),
) -> bool {
    &&& others.len() == spans.len()
    &&& forall|i: int|
        0 <= i < spans.len() ==> #[trigger] others[i] == moved_span(
            spans[i],
            fix.0,
            growth_of(fix),
        ) && validation::content(t, others[i]) == validation::content(s, spans[i])
}

proof fn lemma_line_findings(
    s: Seq<char>,
    payload: Seq<(int, int)>,
    t: Seq<char>,
    others: Seq<(int, int)>,
    fix: (int, int, Seq<char>),
)
    requires
        moved_spans(s, payload, t, others, fix),
    ensures
        validation::line_findings(t, others) == remaining(
            validation::line_findings(s, payload),
            fix,
        ),
    decreases payload.len(),
{
    if payload.len() > 0 {
        let n = payload.len() - 1;
        assert(others[n] == moved_span(payload[n], fix.0, growth_of(fix)));
        assert forall|i: int| 0 <= i < n implies #[trigger] others.drop_last()[i] == moved_span(
            payload.drop_last()[i],
            fix.0,
            growth_of(fix),
        ) && validation::content(t, others.drop_last()[i]) == validation::content(
            s,
            payload.drop_last()[i],
        ) by {
            assert(others[i] == moved_span(payload[i], fix.0, growth_of(fix)));
        }
        lemma_line_findings(s, payload.drop_last(), t, others.drop_last(), fix);
        let all = validation::line_findings(s, payload);
        let before = validation::line_findings(s, payload.drop_last());
        if !validation::payload_line(validation::content(s, payload.last())) {
            assert(all.drop_last() =~= before);
        }
    }
}

proof fn lemma_payload_findings(
    s: Seq<char>,
    header: (int, int),
    payload: Seq<(int, int)>,
    t: Seq<char>,
    others: Seq<(int, int)>,
    fix: (int, int, Seq<char>),
)
    requires
        moved_spans(s, payload, t, others, fix),
    ensures
        validation::payload_findings(t, moved_span(header, fix.0, growth_of(fix)), others)
            == remaining(validation::payload_findings(s, header, payload), fix),
{
    if payload.len() == 0 {
        let found = validation::payload_findings(s, header, payload);
        lemma_all_remain(found, fix);
        assert(validation::payload_findings(t, moved_span(header, fix.0, growth_of(fix)), others)
            =~= remaining(found, fix));
    } else {
        lemma_line_findings(s, payload, t, others, fix);
    }
}

/// What is found in another payload remains.
proof fn lemma_other_block(
    s: Seq<char>,
    header: (int, int),
    payload: Seq<(int, int)>,
    t: Seq<char>,
    others: Seq<(int, int)>,
    fix: (int, int, Seq<char>),
)
    requires
        fix.0 < fix.1,
        aside(header, fix.0),
        validation::in_text(s, header),
        validation::content(t, moved_span(header, fix.0, growth_of(fix))) == validation::content(
            s,
            header,
        ),
        moved_spans(s, payload, t, others, fix),
    ensures
        validation::block_findings(t, moved_span(header, fix.0, growth_of(fix)), others)
            == remaining(validation::block_findings(s, header, payload), fix),
{
    let there = moved_span(header, fix.0, growth_of(fix));
    let line = validation::content(s, header);
    let first = validation::header_findings(s, header);
    let second = validation::payload_findings(s, header, payload);
    validation::lemma_problems_in_header(line);
    assert forall|i: int| 0 <= i < first.len() implies (#[trigger] first[i]).fix != Some(fix) by {}
    lemma_all_remain(first, fix);
    lemma_payload_findings(s, header, payload, t, others, fix);
    lemma_remaining_add(first, second, fix);
    let same = validation::header_findings(t, there);
    assert forall|i: int| 0 <= i < first.len() implies #[trigger] same[i] == remaining(
        first,
        fix,
    )[i] by {
        let p = validation::header_problems(line)[i];
        assert(0 <= p.start <= p.end <= line.len());
        assert(remaining(first, fix)[i] == moved(first[i], fix.0, growth_of(fix)));
    }
    assert(same =~= remaining(first, fix));
}

/// What was found in the header is gone, and what is found in its payload remains.
proof fn lemma_mended_block(
    s: Seq<char>,
    payload: Seq<(int, int)>,
    t: Seq<char>,
    others: Seq<(int, int)>,
    fix: (int, int, Seq<char>),
)
    requires
        fix.0 < fix.1,
        validation::header_fix(validation::content(s, (fix.0, fix.1))) == Some(fix.2),
        validation::content(t, (fix.0, fix.0 + fix.2.len())) == fix.2,
        moved_spans(s, payload, t, others, fix),
    ensures
        validation::block_findings(t, (fix.0, fix.0 + fix.2.len()), others) == remaining(
            validation::block_findings(s, (fix.0, fix.1), payload),
            fix,
        ),
{
    let header = (fix.0, fix.1);
    let there = (fix.0, fix.0 + fix.2.len());
    let line = validation::content(s, header);
    let first = validation::header_findings(s, header);
    let second = validation::payload_findings(s, header, payload);
    assert(there == moved_span(header, fix.0, growth_of(fix)));
    lemma_none_remain(first, fix);
    lemma_payload_findings(s, header, payload, t, others, fix);
    lemma_remaining_add(first, second, fix);
    validation::law_fixed_headers_have_no_problems(line);
    assert(validation::header_findings(t, there) =~= Seq::<Finding>::empty());
    assert(validation::block_findings(t, there, others) =~= validation::payload_findings(
        t,
        there,
        others,
    ));
    assert(remaining(first, fix) + remaining(second, fix) =~= remaining(second, fix));
}

// ---------------------------------------------------------------------------
// Documents
// ---------------------------------------------------------------------------

/// Blank lines stay blank, and every line stays as deep as it was.
proof fn lemma_same_shape(
    s: Seq<char>,
    lines: Seq<(int, int)>,
    t: Seq<char>,
    after: Seq<(int, int)>,
    k: int,
    fix: (int, int, Seq<char>),
)
    requires
        mended(s, lines, t, after, k, fix),
    ensures
        forall|i: int|
            0 <= i < lines.len() ==> validation::blank_line(
                validation::content(t, #[trigger] after[i]),
            ) == validation::blank_line(validation::content(s, lines[i]))
                && validation::indent(validation::content(t, after[i])) == validation::indent(
                validation::content(s, lines[i]),
            ),
{
    assert forall|i: int| 0 <= i < lines.len() implies validation::blank_line(
        validation::content(t, #[trigger] after[i]),
    ) == validation::blank_line(validation::content(s, lines[i])) && validation::indent(
        validation::content(t, after[i]),
    ) == validation::indent(validation::content(s, lines[i])) by {
        if i == k {
            lemma_mended_line(s, lines, t, after, k, fix);
        } else {
            lemma_other_line(s, lines, t, after, k, fix, i);
        }
    }
}

/// Lines of the same shape are skipped and gathered alike.
proof fn lemma_same_blocks(
    s: Seq<char>,
    lines: Seq<(int, int)>,
    t: Seq<char>,
    after: Seq<(int, int)>,
    index: int,
    depth: nat,
)
    requires
        0 <= index <= lines.len(),
        after.len() == lines.len(),
        forall|i: int|
            0 <= i < lines.len() ==> validation::blank_line(
                validation::content(t, #[trigger] after[i]),
            ) == validation::blank_line(validation::content(s, lines[i]))
                && validation::indent(validation::content(t, after[i])) == validation::indent(
                validation::content(s, lines[i]),
            ),
    ensures
        validation::next_visible(t, after, index) == validation::next_visible(s, lines, index),
        validation::block_end(t, after, index, depth) == validation::block_end(
            s,
            lines,
            index,
            depth,
        ),
    decreases lines.len() - index,
{
    if index < lines.len() {
        assert(validation::blank_line(validation::content(t, after[index]))
            == validation::blank_line(validation::content(s, lines[index])));
        lemma_same_blocks(s, lines, t, after, index + 1, depth);
    }
}

/// Lines on one side of the repaired one are trimmed alike.
proof fn lemma_moved_lines(
    s: Seq<char>,
    lines: Seq<(int, int)>,
    t: Seq<char>,
    after: Seq<(int, int)>,
    k: int,
    fix: (int, int, Seq<char>),
    first: int,
    stop: int,
)
    requires
        mended(s, lines, t, after, k, fix),
        0 <= first <= stop <= lines.len(),
        stop <= k || k < first,
    ensures
        moved_spans(
            s,
            validation::trimmed_lines(s, lines, first, stop),
            t,
            validation::trimmed_lines(t, after, first, stop),
            fix,
        ),
{
    let spans = validation::trimmed_lines(s, lines, first, stop);
    let others = validation::trimmed_lines(t, after, first, stop);
    assert forall|i: int| 0 <= i < spans.len() implies #[trigger] others[i] == moved_span(
        spans[i],
        fix.0,
        growth_of(fix),
    ) && validation::content(t, others[i]) == validation::content(s, spans[i]) by {
        lemma_other_line(s, lines, t, after, k, fix, first + i);
    }
}

/// Whether the search for payloads from the line `index` on takes the line `k` for
/// a header.
spec fn comes_to_header(s: Seq<char>, lines: Seq<(int, int)>, index: int, k: int) -> bool
    decreases lines.len() - index,
{
    if !(0 <= index < lines.len()) {
        false
    } else {
        let line = validation::content(s, lines[index]);
        match validation::tag_column(line) {
            None => comes_to_header(s, lines, index + 1, k),
            Some(_) => {
                let next = validation::next_visible(s, lines, index + 1);
                if next >= lines.len() || validation::indent(validation::content(s, lines[next]))
                    <= validation::indent(line) {
                    comes_to_header(s, lines, index + 1, k)
                } else {
                    let depth = validation::indent(validation::content(s, lines[next]));
                    let stop = validation::block_end(s, lines, next + 1, depth);
                    proof {
                        validation::lemma_next_visible(s, lines, index + 1);
                        validation::lemma_block_end(s, lines, next + 1, depth);
                    }
                    next == k || comes_to_header(s, lines, stop, k)
                }
            },
        }
    }
}

/// A header that the search comes to lies behind the line that it starts from.
proof fn lemma_header_is_behind(s: Seq<char>, lines: Seq<(int, int)>, index: int, k: int)
    requires
        comes_to_header(s, lines, index, k),
    ensures
        0 <= index < k < lines.len(),
    decreases lines.len() - index,
{
    let line = validation::content(s, lines[index]);
    if validation::tag_column(line) is None {
        lemma_header_is_behind(s, lines, index + 1, k);
    } else {
        let next = validation::next_visible(s, lines, index + 1);
        validation::lemma_next_visible(s, lines, index + 1);
        if next >= lines.len() || validation::indent(validation::content(s, lines[next]))
            <= validation::indent(line) {
            lemma_header_is_behind(s, lines, index + 1, k);
        } else if next != k {
            let depth = validation::indent(validation::content(s, lines[next]));
            let stop = validation::block_end(s, lines, next + 1, depth);
            validation::lemma_block_end(s, lines, next + 1, depth);
            lemma_header_is_behind(s, lines, stop, k);
        }
    }
}

/// A repair that is offered belongs to a header that the search comes to.
proof fn lemma_fix_has_a_header(
    s: Seq<char>,
    lines: Seq<(int, int)>,
    index: int,
    i: int,
) -> (k: int)
    requires
        0 <= index,
        0 <= i < validation::inline_findings(s, lines, index).len(),
        validation::inline_findings(s, lines, index)[i].fix is Some,
    ensures
        comes_to_header(s, lines, index, k),
        ({
            let (start, end, new) = validation::inline_findings(s, lines, index)[i].fix->0;
            &&& validation::trimmed_span(s, lines[k]) == (start, end)
            &&& validation::header_fix(validation::content(s, (start, end))) == Some(new)
        }),
    decreases lines.len() - index,
{
    let line = validation::content(s, lines[index]);
    let all = validation::inline_findings(s, lines, index);
    match validation::tag_column(line) {
        None => lemma_fix_has_a_header(s, lines, index + 1, i),
        Some(_) => {
            let next = validation::next_visible(s, lines, index + 1);
            validation::lemma_next_visible(s, lines, index + 1);
            if next >= lines.len() || validation::indent(validation::content(s, lines[next]))
                <= validation::indent(line) {
                assert(all[i] == validation::inline_findings(s, lines, index + 1)[i - 1]);
                lemma_fix_has_a_header(s, lines, index + 1, i - 1)
            } else {
                let depth = validation::indent(validation::content(s, lines[next]));
                let stop = validation::block_end(s, lines, next + 1, depth);
                validation::lemma_block_end(s, lines, next + 1, depth);
                let header = validation::trimmed_span(s, lines[next]);
                let payload = validation::trimmed_lines(s, lines, next + 1, stop);
                let here = validation::block_findings(s, header, payload);
                if i < here.len() {
                    assert(all[i] == here[i]);
                    lemma_fix_is_of_the_header(s, header, payload, i);
                    next
                } else {
                    assert(all[i] == validation::inline_findings(s, lines, stop)[i - here.len()]);
                    lemma_fix_has_a_header(s, lines, stop, i - here.len())
                }
            }
        },
    }
}

proof fn lemma_fix_is_of_the_header(
    s: Seq<char>,
    header: (int, int),
    payload: Seq<(int, int)>,
    i: int,
)
    requires
        0 <= i < validation::block_findings(s, header, payload).len(),
        validation::block_findings(s, header, payload)[i].fix is Some,
    ensures
        ({
            let (start, end, new) = validation::block_findings(s, header, payload)[i].fix->0;
            &&& header == (start, end)
            &&& validation::header_fix(validation::content(s, header)) == Some(new)
        }),
{
    let first = validation::header_findings(s, header);
    let second = validation::payload_findings(s, header, payload);
    validation::lemma_lines_offer_no_fix(s, payload);
    if i >= first.len() {
        assert((first + second)[i] == second[i - first.len()]);
    }
}

/// The payload at a line, where the line is not the repaired one and its payload
/// does not hold it.
proof fn lemma_block_aside(
    s: Seq<char>,
    lines: Seq<(int, int)>,
    t: Seq<char>,
    after: Seq<(int, int)>,
    k: int,
    fix: (int, int, Seq<char>),
    next: int,
    stop: int,
)
    requires
        mended(s, lines, t, after, k, fix),
        0 <= next < stop <= lines.len(),
        stop <= k || k < next,
    ensures
        validation::block_findings(
            t,
            validation::trimmed_span(t, after[next]),
            validation::trimmed_lines(t, after, next + 1, stop),
        ) == remaining(
            validation::block_findings(
                s,
                validation::trimmed_span(s, lines[next]),
                validation::trimmed_lines(s, lines, next + 1, stop),
            ),
            fix,
        ),
{
    lemma_other_line(s, lines, t, after, k, fix, next);
    lemma_moved_lines(s, lines, t, after, k, fix, next + 1, stop);
    assert(validation::in_text(s, lines[next]));
    validation::lemma_trimmed_span(s, lines[next]);
    lemma_other_block(
        s,
        validation::trimmed_span(s, lines[next]),
        validation::trimmed_lines(s, lines, next + 1, stop),
        t,
        validation::trimmed_lines(t, after, next + 1, stop),
        fix,
    );
}

/// The search from a line behind the repaired one, or from one from which it takes
/// the repaired one for a header, finds what remains.
proof fn lemma_search_after(
    s: Seq<char>,
    lines: Seq<(int, int)>,
    t: Seq<char>,
    after: Seq<(int, int)>,
    k: int,
    fix: (int, int, Seq<char>),
    index: int,
)
    requires
        mended(s, lines, t, after, k, fix),
        validation::header_fix(validation::content(s, (fix.0, fix.1))) == Some(fix.2),
        0 <= index <= lines.len(),
        index > k || comes_to_header(s, lines, index, k),
    ensures
        validation::inline_findings(t, after, index) == remaining(
            validation::inline_findings(s, lines, index),
            fix,
        ),
    decreases lines.len() - index,
{
    if index < lines.len() {
        if index <= k {
            lemma_header_is_behind(s, lines, index, k);
        }
        lemma_other_line(s, lines, t, after, k, fix, index);
        lemma_same_shape(s, lines, t, after, k, fix);
        let line = validation::content(s, lines[index]);
        let all = validation::inline_findings(s, lines, index);
        match validation::tag_column(line) {
            None => {
                lemma_search_after(s, lines, t, after, k, fix, index + 1);
            },
            Some(column) => {
                let next = validation::next_visible(s, lines, index + 1);
                validation::lemma_next_visible(s, lines, index + 1);
                lemma_same_blocks(s, lines, t, after, index + 1, 0);
                if next < lines.len() {
                    assert(validation::indent(validation::content(t, after[next]))
                        == validation::indent(validation::content(s, lines[next])));
                }
                if next >= lines.len() || validation::indent(validation::content(s, lines[next]))
                    <= validation::indent(line) {
                    lemma_search_after(s, lines, t, after, k, fix, index + 1);
                    let rest = validation::inline_findings(s, lines, index + 1);
                    let here = seq![all[0]];
                    assert(all =~= here + rest);
                    lemma_remaining_add(here, rest, fix);
                    lemma_all_remain(here, fix);
                    validation::lemma_tag_in_line(line);
                    assert(validation::inline_findings(t, after, index) =~= remaining(here, fix)
                        + remaining(rest, fix));
                } else {
                    let depth = validation::indent(validation::content(s, lines[next]));
                    let stop = validation::block_end(s, lines, next + 1, depth);
                    validation::lemma_block_end(s, lines, next + 1, depth);
                    lemma_same_blocks(s, lines, t, after, next + 1, depth);
                    if next < k {
                        lemma_header_is_behind(s, lines, stop, k);
                    }
                    lemma_search_after(s, lines, t, after, k, fix, stop);
                    let header = validation::trimmed_span(s, lines[next]);
                    let payload = validation::trimmed_lines(s, lines, next + 1, stop);
                    if next == k {
                        lemma_mended_line(s, lines, t, after, k, fix);
                        lemma_moved_lines(s, lines, t, after, k, fix, next + 1, stop);
                        lemma_mended_block(
                            s,
                            payload,
                            t,
                            validation::trimmed_lines(t, after, next + 1, stop),
                            fix,
                        );
                    } else {
                        lemma_block_aside(s, lines, t, after, k, fix, next, stop);
                    }
                    lemma_remaining_add(
                        validation::block_findings(s, header, payload),
                        validation::inline_findings(s, lines, stop),
                        fix,
                    );
                }
            },
        }
    }
}

/// The visible lines behind a repaired first line.
proof fn lemma_visible_after(
    s: Seq<char>,
    lines: Seq<(int, int)>,
    t: Seq<char>,
    after: Seq<(int, int)>,
    fix: (int, int, Seq<char>),
    n: int,
)
    requires
        mended(s, lines, t, after, 0, fix),
        1 <= n <= lines.len(),
    ensures
        moved_spans(
            s,
            validation::visible_lines(s, lines.subrange(1, n)),
            t,
            validation::visible_lines(t, after.subrange(1, n)),
            fix,
        ),
    decreases n,
{
    if n > 1 {
        lemma_visible_after(s, lines, t, after, fix, n - 1);
        lemma_other_line(s, lines, t, after, 0, fix, n - 1);
        assert(lines.subrange(1, n).drop_last() =~= lines.subrange(1, n - 1));
        assert(after.subrange(1, n).drop_last() =~= after.subrange(1, n - 1));
        let before = validation::visible_lines(s, lines.subrange(1, n - 1));
        let others = validation::visible_lines(t, after.subrange(1, n - 1));
        let spans = validation::visible_lines(s, lines.subrange(1, n));
        let moved = validation::visible_lines(t, after.subrange(1, n));
        assert forall|i: int| 0 <= i < spans.len() implies #[trigger] moved[i] == moved_span(
            spans[i],
            fix.0,
            growth_of(fix),
        ) && validation::content(t, moved[i]) == validation::content(s, spans[i]) by {
            if i < before.len() {
                assert(others[i] == moved_span(before[i], fix.0, growth_of(fix)));
            }
        }
    }
}

/// A line of a text holds no line feed.
proof fn lemma_no_line_feed(s: Seq<char>, from: int, k: int)
    requires
        0 <= from <= s.len(),
        0 <= k < validation::document_lines(s, from).len(),
    ensures
        !validation::content(s, validation::document_lines(s, from)[k]).contains('\n'),
    decreases s.len() - from,
{
    let set = seq!['\n'];
    let ends = seq!['\r', '\n'];
    let rest = s.skip(from);
    let m = text::prefix_len(rest, text::outside(set)) as int;
    let n = text::line_len(rest);
    text::lemma_prefix_len_bounds(rest, text::outside(set));
    let all = validation::document_lines(s, from);
    assert(all =~= seq![all[0]] + validation::document_lines(s, from + n));
    if k == 0 {
        let line = s.subrange(from, from + n);
        text::lemma_suffix_len_bounds(line, text::among(ends));
        let content = validation::content(s, all[0]);
        if content.contains('\n') {
            let j = choose|j: int| 0 <= j < content.len() && content[j] == '\n';
            assert(content[j] == rest[j]);
            assert(set.contains(set[0]));
            if j < m {
                assert(text::outside(set)(rest[j]));
            }
            assert(line.last() == '\n');
            assert(ends.contains(ends[1]));
            assert(text::among(ends)(line.last()));
        }
    } else {
        lemma_no_line_feed(s, from + n, k - 1);
        assert(all[k] == validation::document_lines(s, from + n)[k - 1]);
    }
}

/// The text after a repair of the line `k` is the text before it with another line.
proof fn lemma_mended(s: Seq<char>, k: int, fix: (int, int, Seq<char>))
    requires
        0 <= k < validation::document_lines(s, 0).len(),
        validation::trimmed_span(s, validation::document_lines(s, 0)[k]) == (fix.0, fix.1),
        validation::header_fix(validation::content(s, (fix.0, fix.1))) == Some(fix.2),
    ensures
        mended(
            s,
            validation::document_lines(s, 0),
            replaced(s, fix.0, fix.1, fix.2),
            validation::document_lines(replaced(s, fix.0, fix.1, fix.2), 0),
            k,
            fix,
        ),
{
    let lines = validation::document_lines(s, 0);
    let line = validation::content(s, lines[k]);
    let shown = validation::content(s, (fix.0, fix.1));
    validation::lemma_lines_ordered(s, 0);
    validation::lemma_trimmed_span(s, lines[k]);
    lemma_no_line_feed(s, 0, k);
    text::lemma_trim_ends(line);
    header::lemma_canonical_is_one_line(shown);
    header::lemma_canonical_begins_visibly(shown);
    header::lemma_canonical_of_something(shown);
    lemma_lines_after(s, 0, k, fix.0, fix.1, fix.2);
}

/// Taking up a repair on offer removes exactly the findings that offer it. Every
/// other finding remains, at its place in the repaired text, and none is added.
pub proof fn law_fix_clears_its_findings(s: Seq<char>, i: int)
    requires
        0 <= i < validation::findings(s).len(),
        validation::findings(s)[i].fix is Some,
    ensures
        ({
            let fix = validation::findings(s)[i].fix->0;
            validation::findings(replaced(s, fix.0, fix.1, fix.2)) == remaining(
                validation::findings(s),
                fix,
            )
        }),
{
    let fix = validation::findings(s)[i].fix->0;
    let t = replaced(s, fix.0, fix.1, fix.2);
    let lines = validation::document_lines(s, 0);
    let after = validation::document_lines(t, 0);
    if validation::file_candidate(s) {
        let header = validation::trimmed_span(s, lines[0]);
        let payload = validation::visible_lines(s, lines.skip(1));
        lemma_fix_is_of_the_header(s, header, payload, i);
        lemma_mended(s, 0, fix);
        lemma_mended_line(s, lines, t, after, 0, fix);
        lemma_visible_after(s, lines, t, after, fix, lines.len() as int);
        assert(lines.skip(1) =~= lines.subrange(1, lines.len() as int));
        assert(after.skip(1) =~= after.subrange(1, lines.len() as int));
        lemma_mended_block(s, payload, t, validation::visible_lines(t, after.skip(1)), fix);
        let line = validation::content(t, after[0]);
        header::law_canonical_header_is_valid(validation::content(s, header));
        header::law_valid_header_is_candidate(fix.2);
        text::lemma_trim_ends(line);
        text::lemma_trim_fixed(fix.2);
        assert(header::candidate_line(line));
    } else {
        let k = lemma_fix_has_a_header(s, lines, 0, i);
        lemma_header_is_behind(s, lines, 0, k);
        lemma_mended(s, k, fix);
        lemma_other_line(s, lines, t, after, k, fix, 0);
        lemma_search_after(s, lines, t, after, k, fix, 0);
    }
}

} // verus!
