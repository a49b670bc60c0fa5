//! What the diagnostics of a document promise.
//!
//! The laws here speak of documents as a user sees them: a header, the lines under it,
//! and the characters on those lines.
use crate::document;
use crate::document::Range;
use crate::header;
use crate::roundtrip;
use crate::text;
use crate::validation;
use crate::validation::DiagnosticSeverity;
use crate::validation::Finding;
use crate::validation::HeaderProblem;
use crate::validation::Problem;
use crate::validation::Shown;
use vstd::prelude::*;

verus! {

// ---------------------------------------------------------------------------
// Headers and lines
// ---------------------------------------------------------------------------

/// The two headers that there are: one without a label, and one with the label of a
/// Vault ID.
pub open spec fn header_with(label: Option<Seq<char>>) -> Seq<char> {
    match label {
        None => "$ANSIBLE_VAULT;1.1;AES256"@,
        Some(id) => "$ANSIBLE_VAULT;1.2;AES256;"@ + id,
    }
}

/// A label that can stand in a header: not empty, without a semicolon or a line end,
/// and without white space at its end.
pub open spec fn label_text(id: Seq<char>) -> bool {
    &&& id.len() > 0
    &&& !text::white_space(id.last())
    &&& forall|i: int|
        0 <= i < id.len() ==> #[trigger] id[i] != ';' && id[i] != '\n' && id[i] != '\r'
}

/// Whole bytes in hexadecimal: the digits from zero to nine and the letters from a to
/// f, small or capital, two for each byte.
pub open spec fn whole_bytes(line: Seq<char>) -> bool {
    &&& line.len() > 0
    &&& line.len() % 2 == 0
    &&& forall|i: int|
        0 <= i < line.len() ==> ('0' <= #[trigger] line[i] <= '9' || 'a' <= line[i] <= 'f' || 'A'
            <= line[i] <= 'F')
}

/// A line with something on it from its first to its last character.
pub open spec fn solid(line: Seq<char>) -> bool {
    &&& line.len() > 0
    &&& !text::white_space(line[0])
    &&& !text::white_space(line.last())
    &&& !line.contains('\n')
    &&& !line.contains('\r')
}

proof fn lemma_solid(line: Seq<char>)
    requires
        solid(line),
    ensures
        roundtrip::one_visible_line(line),
        text::trim(line) == line,
{
    text::lemma_trim_fixed(line);
}

proof fn lemma_whole_bytes(line: Seq<char>)
    ensures
        whole_bytes(line) == validation::payload_line(line),
        whole_bytes(line) ==> solid(line),
{
    if whole_bytes(line) {
        assert forall|i: int| 0 <= i < line.len() implies validation::hex_digit(
            #[trigger] line[i],
        ) by {}
        assert forall|i: int| 0 <= i < line.len() implies !text::white_space(#[trigger] line[i])
            && line[i] != '\n' && line[i] != '\r' by {}
        assert(!text::white_space(line[0]));
        assert(!text::white_space(line[line.len() - 1]));
    }
    if validation::payload_line(line) {
        assert forall|i: int| 0 <= i < line.len() implies ('0' <= #[trigger] line[i] <= '9' || 'a'
            <= line[i] <= 'f' || 'A' <= line[i] <= 'F') by {
            assert(validation::hex_digit(line[i]));
        }
    }
}

proof fn lemma_header(label: Option<Seq<char>>)
    requires
        label matches Some(id) ==> label_text(id),
    ensures
        header::valid_header(header_with(label)),
        solid(header_with(label)),
{
    let set = seq![';'];
    assert(set.contains(set[0]));
    reveal_strlit("$ANSIBLE_VAULT;1.1;AES256");
    reveal_strlit("$ANSIBLE_VAULT;1.2;AES256;");
    reveal_strlit("$ANSIBLE_VAULT");
    reveal_strlit("1.1");
    reveal_strlit("1.2");
    reveal_strlit("AES256");
    let marker = "$ANSIBLE_VAULT"@;
    let cipher = "AES256"@;
    let h = header_with(label);
    match label {
        None => {
            let version = "1.1"@;
            let tail = version + seq![';'] + cipher;
            assert(h =~= marker + seq![';'] + tail);
            text::lemma_split_first(marker, ';', tail, set);
            text::lemma_split_first(version, ';', cipher, set);
            text::lemma_split_single(cipher, set);
            assert(header::fields(h) =~= seq![marker, version, cipher]);
        },
        Some(id) => {
            let version = "1.2"@;
            let last = cipher + seq![';'] + id;
            let tail = version + seq![';'] + last;
            assert(h =~= marker + seq![';'] + tail);
            text::lemma_split_first(marker, ';', tail, set);
            text::lemma_split_first(version, ';', last, set);
            text::lemma_split_first(cipher, ';', id, set);
            text::lemma_split_single(id, set);
            assert(header::fields(h) =~= seq![marker, version, cipher, id]);
            assert(h.last() == id.last());
        },
    }
    assert(h[0] == '$');
    assert forall|c: char| h.contains(c) implies c != '\n' && c != '\r' by {
        let k = choose|k: int| 0 <= k < h.len() && h[k] == c;
        if let Some(id) = label {
            if k >= 26 {
                assert(h[k] == id[k - 26]);
            }
        }
    }
}

// ---------------------------------------------------------------------------
// One payload
// ---------------------------------------------------------------------------

/// The finding for a line that is not whole bytes.
pub open spec fn bad_line(span: (int, int)) -> Finding {
    Finding { start: span.0, end: span.1, problem: Problem::InvalidPayload, fix: None }
}

proof fn lemma_line_findings(s: Seq<char>, payload: Seq<(int, int)>)
    ensures
        forall|k: int|
            0 <= k < payload.len() && !whole_bytes(
                validation::content(s, #[trigger] payload[k]),
            ) ==> validation::line_findings(s, payload).contains(bad_line(payload[k])),
        forall|f: Finding|
            validation::line_findings(s, payload).contains(f) ==> exists|k: int|
                0 <= k < payload.len() && !whole_bytes(
                    validation::content(s, #[trigger] payload[k]),
                ) && f == bad_line(payload[k]),
    decreases payload.len(),
{
    let all = validation::line_findings(s, payload);
    if payload.len() > 0 {
        let rest = payload.drop_last();
        let before = validation::line_findings(s, rest);
        lemma_line_findings(s, rest);
        lemma_whole_bytes(validation::content(s, payload.last()));
        let bad = !whole_bytes(validation::content(s, payload.last()));
        assert forall|k: int|
            0 <= k < payload.len() && !whole_bytes(
                validation::content(s, #[trigger] payload[k]),
            ) implies all.contains(bad_line(payload[k])) by {
            if k < rest.len() {
                assert(rest[k] == payload[k]);
                let j = choose|j: int| 0 <= j < before.len() && before[j] == bad_line(payload[k]);
                assert(all[j] == before[j]);
            } else {
                assert(all[all.len() - 1] == bad_line(payload[k]));
            }
        }
        assert forall|f: Finding| all.contains(f) implies exists|k: int|
            0 <= k < payload.len() && !whole_bytes(
                validation::content(s, #[trigger] payload[k]),
            ) && f == bad_line(payload[k]) by {
            let j = choose|j: int| 0 <= j < all.len() && all[j] == f;
            if j < before.len() {
                assert(before[j] == f);
                assert(before.contains(f));
                let k = choose|k: int|
                    0 <= k < rest.len() && !whole_bytes(validation::content(s, #[trigger] rest[k]))
                        && f == bad_line(rest[k]);
                assert(payload[k] == rest[k]);
            } else {
                assert(payload[payload.len() - 1] == payload.last());
            }
        }
    }
}

/// What is shown for a line that is not whole bytes: an error of the right kind on
/// exactly that line.
pub open spec fn shows_bad_line(issue: Shown, range: Range) -> bool {
    &&& issue.diagnostic.range == range
    &&& issue.diagnostic.severity == DiagnosticSeverity::Error
    &&& issue.diagnostic.code == "ansible-vault.invalid-payload"@
    &&& issue.diagnostic.source == "ansible-vault"@
    &&& issue.diagnostic.message
        == "Ansible Vault payload lines must contain an even number of hexadecimal characters"@
    &&& issue.fix is None
}

/// Whether a line that is not whole bytes lies at a place of the text.
pub open spec fn bad_at(s: Seq<char>, span: (int, int)) -> bool {
    !whole_bytes(s.subrange(span.0, span.1))
}

/// Whether one of the issues shows the line at a place of the text.
pub open spec fn shown_at(s: Seq<char>, span: (int, int), issues: Seq<Shown>) -> bool {
    exists|j: int|
        0 <= j < issues.len() && shows_bad_line(
            #[trigger] issues[j],
            document::range_at(s, span.0, span.1),
        )
}

/// Whether an issue shows one of the lines, and that line is not whole bytes.
pub open spec fn deserved(s: Seq<char>, spans: Seq<(int, int)>, issue: Shown) -> bool {
    exists|k: int|
        0 <= k < spans.len() && bad_at(s, #[trigger] spans[k]) && shows_bad_line(
            issue,
            document::range_at(s, spans[k].0, spans[k].1),
        )
}

/// What is said of a payload whose lines lie at the given places of a text: nothing
/// where every line is whole bytes, and else an error for every other line and nothing
/// more.
pub open spec fn lines_judged(s: Seq<char>, spans: Seq<(int, int)>, issues: Seq<Shown>) -> bool {
    &&& forall|k: int|
        0 <= k < spans.len() && bad_at(s, #[trigger] spans[k]) ==> shown_at(s, spans[k], issues)
    &&& forall|j: int| 0 <= j < issues.len() ==> deserved(s, spans, #[trigger] issues[j])
    &&& (forall|k: int| 0 <= k < spans.len() ==> !bad_at(s, #[trigger] spans[k])) <==> issues.len()
        == 0
}

proof fn lemma_lines_judged(s: Seq<char>, spans: Seq<(int, int)>)
    requires
        validation::findings(s) == validation::line_findings(s, spans),
        forall|k: int| 0 <= k < spans.len() ==> (#[trigger] spans[k]).0 < spans[k].1,
    ensures
        lines_judged(s, spans, validation::issues_of(s)),
{
    let found = validation::findings(s);
    let issues = validation::issues_of(s);
    lemma_line_findings(s, spans);
    assert forall|k: int| 0 <= k < spans.len() && bad_at(s, #[trigger] spans[k]) implies shown_at(
        s,
        spans[k],
        issues,
    ) by {
        assert(!whole_bytes(validation::content(s, spans[k])));
        let j = choose|j: int| 0 <= j < found.len() && found[j] == bad_line(spans[k]);
        assert(issues[j] == validation::shown_issue(s, found[j]));
    }
    assert forall|j: int| 0 <= j < issues.len() implies deserved(s, spans, #[trigger] issues[j]) by {
        assert(issues[j] == validation::shown_issue(s, found[j]));
        assert(found.contains(found[j]));
        let k = choose|k: int|
            0 <= k < spans.len() && !whole_bytes(validation::content(s, #[trigger] spans[k]))
                && found[j] == bad_line(spans[k]);
        assert(bad_at(s, spans[k]));
    }
    if issues.len() > 0 {
        assert(deserved(s, spans, issues[0]));
    }
}

proof fn lemma_no_header_findings(s: Seq<char>, span: (int, int))
    requires
        header::valid_header(validation::content(s, span)),
    ensures
        validation::header_findings(s, span) == Seq::<Finding>::empty(),
{
    validation::law_valid_headers_have_no_problems(validation::content(s, span));
    assert(validation::header_findings(s, span) =~= Seq::<Finding>::empty());
}

// ---------------------------------------------------------------------------
// A file
// ---------------------------------------------------------------------------

/// A Vault file: a header, and lines under it.
pub open spec fn file_of(label: Option<Seq<char>>, lines: Seq<Seq<char>>, tail: Seq<char>) -> Seq<
    char,
> {
    header_with(label) + "\n"@ + text::join(lines, "\n"@) + tail
}

proof fn lemma_visible(s: Seq<char>, spans: Seq<(int, int)>)
    requires
        forall|k: int|
            0 <= k < spans.len() ==> 0 <= (#[trigger] spans[k]).0 <= spans[k].1 <= s.len()
                && solid(s.subrange(spans[k].0, spans[k].1)),
    ensures
        validation::visible_lines(s, spans) == spans,
    decreases spans.len(),
{
    if spans.len() > 0 {
        lemma_visible(s, spans.drop_last());
        let last = spans[spans.len() - 1];
        let line = s.subrange(last.0, last.1);
        lemma_solid(line);
        text::lemma_prefix_len(line, text::blank(), 0);
        assert(validation::trimmed_span(s, last) == last);
        assert(spans.drop_last().push(last) =~= spans);
    } else {
        assert(validation::visible_lines(s, spans) =~= spans);
    }
}

/// Where the lines of a Vault file lie.
proof fn lemma_file_lines(
    label: Option<Seq<char>>,
    lines: Seq<Seq<char>>,
    tail: Seq<char>,
) -> (spans: Seq<(int, int)>)
    requires
        label matches Some(id) ==> label_text(id),
        lines.len() > 0,
        forall|i: int| 0 <= i < lines.len() ==> solid(#[trigger] lines[i]),
        tail == ""@ || tail == "\n"@,
    ensures
        ({
            let s = file_of(label, lines, tail);
            &&& spans.len() == lines.len()
            &&& validation::document_lines(s, 0) == seq![(0int, header_with(label).len() as int)]
                + spans
            &&& s.subrange(0, header_with(label).len() as int) == header_with(label)
            &&& forall|k: int|
                0 <= k < spans.len() ==> 0 <= (#[trigger] spans[k]).0 < spans[k].1 <= s.len()
                    && s.subrange(spans[k].0, spans[k].1) == lines[k]
        }),
{
    reveal_strlit("\n");
    reveal_strlit("");
    let s = file_of(label, lines, tail);
    let h = header_with(label);
    let n = h.len() as int;
    let sep = "\n"@;
    assert(sep =~= seq!['\n']);
    let none = text::spaces(0);
    assert(none =~= Seq::<char>::empty());
    assert(seq!['\n'] + none =~= sep);
    let body = text::join(lines, sep);
    let end = n + 1 + body.len();
    lemma_header(label);
    assert(s.subrange(0, n) =~= h);
    assert forall|k: int| 0 <= k < n implies #[trigger] s[k] != '\n' && s[k] != '\r' by {
        assert(s[k] == h[k]);
        assert(h.contains(h[k]));
    }
    assert(s[n] == '\n');
    roundtrip::lemma_next_line(s, 0, n);
    assert forall|i: int| 0 <= i < lines.len() implies roundtrip::one_visible_line(
        #[trigger] lines[i],
    ) by {
        lemma_solid(lines[i]);
    }
    assert(s.subrange(n + 1, end) =~= none + body);
    if end < s.len() {
        assert(s[end] == tail[0]);
    }
    roundtrip::lemma_written_lines(s, n + 1, lines, 0, end);
    let spans = roundtrip::written_lines(lines, 0, n + 1);
    let behind = if end < s.len() {
        end + 1
    } else {
        end
    };
    assert(behind == s.len());
    assert(s.skip(behind) =~= Seq::<char>::empty());
    assert(validation::document_lines(s, behind) =~= Seq::<(int, int)>::empty());
    let all = validation::document_lines(s, 0);
    assert(all =~= seq![(0int, n)] + spans);
    validation::lemma_lines_ordered(s, 0);
    assert forall|k: int| 0 <= k < spans.len() implies 0 <= (#[trigger] spans[k]).0 < spans[k].1
        <= s.len() && s.subrange(spans[k].0, spans[k].1) == lines[k] by {
        assert(all[k + 1] == spans[k]);
        assert(validation::content(s, spans[k]) == none + lines[k]);
        assert(none + lines[k] =~= lines[k]);
        assert(solid(lines[k]));
    }
    spans
}

/// A Vault file with a valid header is without error exactly where every line under
/// the header is whole bytes in hexadecimal. Every other line gets an error of its own,
/// and nothing else does. `spans` are the places of the lines.
pub proof fn law_files_of_whole_bytes_are_clean(
    label: Option<Seq<char>>,
    lines: Seq<Seq<char>>,
    tail: Seq<char>,
) -> (spans: Seq<(int, int)>)
    requires
        label matches Some(id) ==> label_text(id),
        lines.len() > 0,
        forall|i: int| 0 <= i < lines.len() ==> solid(#[trigger] lines[i]),
        tail == ""@ || tail == "\n"@,
    ensures
        ({
            let s = file_of(label, lines, tail);
            &&& spans.len() == lines.len()
            &&& forall|k: int|
                0 <= k < lines.len() ==> s.subrange((#[trigger] spans[k]).0, spans[k].1)
                    == lines[k]
            &&& lines_judged(s, spans, validation::issues_of(s))
        }),
        (forall|k: int| 0 <= k < lines.len() ==> whole_bytes(#[trigger] lines[k]))
            ==> validation::issues_of(file_of(label, lines, tail)).len() == 0,
{
    let s = file_of(label, lines, tail);
    let h = header_with(label);
    let spans = lemma_file_lines(label, lines, tail);
    let all = validation::document_lines(s, 0);
    lemma_header(label);
    assert(all[0] == (0int, h.len() as int));
    assert(validation::content(s, all[0]) == h);
    header::law_valid_header_is_candidate(h);
    lemma_solid(h);
    text::lemma_prefix_len(h, text::blank(), 0);
    assert(validation::trimmed_span(s, all[0]) == all[0]);
    assert(all.skip(1) =~= spans);
    assert forall|k: int| 0 <= k < spans.len() implies 0 <= (#[trigger] spans[k]).0 <= spans[k].1
        <= s.len() && solid(s.subrange(spans[k].0, spans[k].1)) by {
        assert(solid(lines[k]));
    }
    lemma_visible(s, spans);
    lemma_no_header_findings(s, all[0]);
    assert(validation::findings(s) =~= validation::line_findings(s, spans));
    lemma_lines_judged(s, spans);
    spans
}

/// What bytes are written as in hexadecimal is a payload line, whatever bytes they are.
pub proof fn law_any_bytes_make_a_payload_line(bytes: Seq<u8>)
    requires
        bytes.len() > 0,
    ensures
        whole_bytes(crate::digest::hex(bytes)),
        crate::digest::hex(bytes).len() == 2 * bytes.len(),
{
    let line = crate::digest::hex(bytes);
    assert(line.len() == bytes.len() * 2);
    assert(line.len() % 2 == 0);
    assert forall|i: int| 0 <= i < line.len() implies ('0' <= #[trigger] line[i] <= '9' || 'a'
        <= line[i] <= 'f' || 'A' <= line[i] <= 'F') by {
        let b = bytes[i / 2] as int;
        assert(0 <= b / 16 < 16 && 0 <= b % 16 < 16);
    }
}

/// A Vault file that is nothing but a valid header is told to be empty.
pub proof fn law_headers_alone_are_empty_payloads(label: Option<Seq<char>>, tail: Seq<char>)
    requires
        label matches Some(id) ==> label_text(id),
        tail == ""@ || tail == "\n"@,
    ensures
        ({
            let s = header_with(label) + tail;
            let issues = validation::issues_of(s);
            &&& issues.len() == 1
            &&& issues[0].diagnostic.range == document::range_at(
                s,
                0,
                header_with(label).len() as int,
            )
            &&& issues[0].diagnostic.severity == DiagnosticSeverity::Error
            &&& issues[0].diagnostic.code == "ansible-vault.empty-payload"@
            &&& issues[0].diagnostic.source == "ansible-vault"@
            &&& issues[0].diagnostic.message == "The Ansible Vault payload is empty"@
            &&& issues[0].fix is None
        }),
{
    reveal_strlit("\n");
    reveal_strlit("");
    let h = header_with(label);
    let s = h + tail;
    let n = h.len() as int;
    lemma_header(label);
    assert(s.subrange(0, n) =~= h);
    assert forall|k: int| 0 <= k < n implies #[trigger] s[k] != '\n' && s[k] != '\r' by {
        assert(s[k] == h[k]);
        assert(h.contains(h[k]));
    }
    if n < s.len() {
        assert(s[n] == tail[0]);
    }
    roundtrip::lemma_next_line(s, 0, n);
    assert(s.skip(s.len() as int) =~= Seq::<char>::empty());
    assert(validation::document_lines(s, s.len() as int) =~= Seq::<(int, int)>::empty());
    let all = validation::document_lines(s, 0);
    assert(all =~= seq![(0int, n)]);
    assert(validation::content(s, all[0]) == h);
    header::law_valid_header_is_candidate(h);
    lemma_solid(h);
    text::lemma_prefix_len(h, text::blank(), 0);
    assert(validation::trimmed_span(s, all[0]) == all[0]);
    assert(all.skip(1) =~= Seq::<(int, int)>::empty());
    lemma_no_header_findings(s, all[0]);
    assert(validation::findings(s).len() == 1);
}

// ---------------------------------------------------------------------------
// A value in a document
// ---------------------------------------------------------------------------

/// A document with one `!vault` value: what stands before the tag, and under it the
/// header and the lines, each behind the same number of spaces.
pub open spec fn value_of(
    prefix: Seq<char>,
    label: Option<Seq<char>>,
    lines: Seq<Seq<char>>,
    depth: nat,
    tail: Seq<char>,
) -> Seq<char> {
    prefix + "!vault |"@ + "\n"@ + text::spaces(depth) + text::join(
        seq![header_with(label)] + lines,
        "\n"@ + text::spaces(depth),
    ) + tail
}

proof fn lemma_trimmed(s: Seq<char>, span: (int, int), depth: nat, line: Seq<char>)
    requires
        0 <= span.0 <= span.1 <= s.len(),
        s.subrange(span.0, span.1) == text::spaces(depth) + line,
        solid(line),
    ensures
        validation::trimmed_span(s, span) == (span.0 + depth, span.1),
        s.subrange(span.0 + depth, span.1) == line,
{
    let whole = text::spaces(depth) + line;
    assert forall|k: int| 0 <= k < depth implies text::blank()(#[trigger] whole[k]) by {}
    assert(whole[depth as int] == line[0]);
    text::lemma_prefix_len(whole, text::blank(), depth as int);
    assert(whole.skip(depth as int) =~= line);
    text::lemma_suffix_len(line, text::blank(), 0);
    assert(text::trim(whole) =~= line);
    assert(s.subrange(span.0 + depth, span.1) =~= s.subrange(span.0, span.1).skip(depth as int));
}

proof fn lemma_block_ends(s: Seq<char>, lines: Seq<(int, int)>, index: int, depth: nat)
    requires
        0 <= index <= lines.len(),
        forall|i: int|
            index <= i < lines.len() ==> !validation::blank_line(
                validation::content(s, #[trigger] lines[i]),
            ) && validation::indent(validation::content(s, lines[i])) >= depth,
    ensures
        validation::block_end(s, lines, index, depth) == lines.len(),
    decreases lines.len() - index,
{
    if index < lines.len() {
        assert(!validation::blank_line(validation::content(s, lines[index])));
        lemma_block_ends(s, lines, index + 1, depth);
    }
}

/// A `!vault` value with a valid header is without error exactly where every line under
/// the header is whole bytes in hexadecimal. Every other line gets an error of its own,
/// and nothing else does. `spans` are the places of the lines, without the spaces.
#[verifier::spinoff_prover]
#[verifier::rlimit(40)]
pub proof fn law_values_of_whole_bytes_are_clean(
    prefix: Seq<char>,
    label: Option<Seq<char>>,
    lines: Seq<Seq<char>>,
    depth: nat,
    tail: Seq<char>,
) -> (spans: Seq<(int, int)>)
    requires
        forall|k: int| 0 <= k < prefix.len() ==> #[trigger] prefix[k] != '\n' && prefix[k] != '\r',
        validation::tag_column(prefix + "!vault |"@) == Some(prefix.len() as int),
        validation::indent(prefix + "!vault |"@) < depth,
        !header::candidate_line(prefix + "!vault |"@),
        label matches Some(id) ==> label_text(id),
        lines.len() > 0,
        forall|i: int| 0 <= i < lines.len() ==> solid(#[trigger] lines[i]),
        tail == ""@ || tail == "\n"@,
    ensures
        ({
            let s = value_of(prefix, label, lines, depth, tail);
            &&& spans.len() == lines.len()
            &&& forall|k: int|
                0 <= k < lines.len() ==> s.subrange((#[trigger] spans[k]).0, spans[k].1)
                    == lines[k]
            &&& lines_judged(s, spans, validation::issues_of(s))
        }),
        (forall|k: int| 0 <= k < lines.len() ==> whole_bytes(#[trigger] lines[k]))
            ==> validation::issues_of(value_of(prefix, label, lines, depth, tail)).len() == 0,
{
    reveal_strlit("\n");
    reveal_strlit("");
    reveal_strlit("!vault |");
    let s = value_of(prefix, label, lines, depth, tail);
    let h = header_with(label);
    let payload = seq![h] + lines;
    let indent = text::spaces(depth);
    assert("\n"@ =~= seq!['\n']);
    let body = text::join(payload, seq!['\n'] + indent);
    lemma_header(label);
    assert forall|i: int| 0 <= i < payload.len() implies solid(#[trigger] payload[i])
        && roundtrip::one_visible_line(payload[i]) by {
        if i > 0 {
            assert(payload[i] == lines[i - 1]);
        }
        lemma_solid(payload[i]);
    }
    let end = s.len() - tail.len();
    assert(s.subrange(0, end) =~= prefix + "!vault |"@ + seq!['\n'] + (indent + body));
    if end < s.len() {
        assert(s[end] == tail[0]);
    }
    let index = roundtrip::lemma_value_lines(s, 0, prefix, payload, depth, end);
    let all = validation::document_lines(s, 0);
    validation::lemma_lines_ordered(s, 0);
    if index > 0 {
        assert(all[0].1 < all[index].0);
    }
    assert(index == 0);
    if end < s.len() {
        assert(s.skip(end + 1) =~= Seq::<char>::empty());
        assert(validation::document_lines(s, end + 1) =~= Seq::<(int, int)>::empty());
        assert(all.skip(1 + payload.len() as int).len() == 0);
    }
    assert(all.len() == 1 + payload.len());
    assert forall|i: int| 1 <= i < all.len() implies validation::content(s, #[trigger] all[i])
        == indent + payload[i - 1] && !validation::blank_line(validation::content(s, all[i]))
        && validation::indent(validation::content(s, all[i])) >= depth by {
        let k = i - 1;
        assert(solid(payload[k]));
        assert(validation::content(s, all[index + 1 + k]) == indent + payload[k]);
        roundtrip::lemma_indented_line(depth, payload[k]);
    }
    assert(payload[0] == h);
    assert(h[0] == '$') by {
        reveal_strlit("$ANSIBLE_VAULT;1.1;AES256");
        reveal_strlit("$ANSIBLE_VAULT;1.2;AES256;");
    }
    roundtrip::lemma_indented_line(depth, h);
    assert(validation::next_visible(s, all, 1) == 1);
    lemma_block_ends(s, all, 2, depth);
    let top = validation::trimmed_span(s, all[1]);
    lemma_trimmed(s, all[1], depth, h);
    let spans = validation::trimmed_lines(s, all, 2, all.len() as int);
    assert forall|k: int| 0 <= k < spans.len() implies 0 <= (#[trigger] spans[k]).0 < spans[k].1
        <= s.len() && s.subrange(spans[k].0, spans[k].1) == lines[k] by {
        assert(all.subrange(2, all.len() as int)[k] == all[k + 2]);
        assert(payload[k + 1] == lines[k]);
        assert(validation::content(s, all[k + 2]) == indent + payload[k + 1]);
        assert(solid(payload[k + 1]));
        lemma_trimmed(s, all[k + 2], depth, lines[k]);
        assert(solid(s.subrange(spans[k].0, spans[k].1)));
    }
    lemma_no_header_findings(s, top);
    let here = validation::line_findings(s, spans);
    assert(validation::inline_findings(s, all, all.len() as int) =~= Seq::<Finding>::empty());
    assert(validation::block_findings(s, top, spans) =~= here);
    assert(validation::inline_findings(s, all, 0) =~= here);
    assert(validation::findings(s) =~= here);
    lemma_lines_judged(s, spans);
    spans
}

// ---------------------------------------------------------------------------
// Damaged headers
// ---------------------------------------------------------------------------

/// Fields with a semicolon between each two of them.
pub open spec fn line_of(fields: Seq<Seq<char>>) -> Seq<char>
    decreases fields.len(),
{
    if fields.len() == 0 {
        ""@
    } else if fields.len() == 1 {
        fields[0]
    } else {
        fields[0] + ";"@ + line_of(fields.skip(1))
    }
}

proof fn lemma_line_of(fields: Seq<Seq<char>>)
    requires
        fields.len() > 0,
        forall|i: int| 0 <= i < fields.len() ==> !(#[trigger] fields[i]).contains(';'),
    ensures
        header::fields(line_of(fields)) == fields,
    decreases fields.len(),
{
    reveal_strlit(";");
    let set = seq![';'];
    assert(set.contains(set[0]));
    assert(";"@ =~= set);
    let first = fields[0];
    assert forall|k: int| 0 <= k < first.len() implies !set.contains(#[trigger] first[k]) by {
        assert(first.contains(first[k]));
    }
    if fields.len() == 1 {
        text::lemma_split_single(first, set);
        assert(fields =~= seq![first]);
    } else {
        let rest = fields.skip(1);
        assert forall|i: int| 0 <= i < rest.len() implies !(#[trigger] rest[i]).contains(';') by {
            assert(rest[i] == fields[i + 1]);
        }
        lemma_line_of(rest);
        text::lemma_split_first(first, ';', line_of(rest), set);
        assert(fields =~= seq![first] + rest);
    }
}

/// Whether a problem is named for a part of a header.
pub open spec fn named(
    problems: Seq<HeaderProblem>,
    start: int,
    end: int,
    code: Seq<char>,
    message: Seq<char>,
) -> bool {
    exists|i: int|
        0 <= i < problems.len() && (#[trigger] problems[i]).start == start && problems[i].end
            == end && problems[i].problem.code_text() == code && problems[i].problem.message_text()
            == message
}

/// One for what holds, and none for what does not.
pub open spec fn count(holds: bool) -> int {
    if holds {
        1
    } else {
        0
    }
}

/// What is wrong with a header is named field by field: a marker that is not
/// `$ANSIBLE_VAULT`, a version that is neither 1.1 nor 1.2 or is missing, a cipher that
/// is not `AES256` or is missing, more or fewer than three fields with version 1.1, and
/// with version 1.2 any number of fields but four, or no label in the fourth. Nothing
/// else is named.
pub proof fn law_header_problems_are_named(fields: Seq<Seq<char>>)
    requires
        fields.len() > 0,
        forall|i: int| 0 <= i < fields.len() ==> !(#[trigger] fields[i]).contains(';'),
    ensures
        ({
            let h = line_of(fields);
            let problems = validation::header_problems(h);
            let marker = fields[0] != "$ANSIBLE_VAULT"@;
            let second = fields[0].len() + 1int;
            let third = second + fields[1].len() + 1;
            let no_version = fields.len() == 1;
            let version = fields.len() >= 2 && fields[1] != "1.1"@ && fields[1] != "1.2"@;
            let no_cipher = fields.len() <= 2;
            let cipher = fields.len() >= 3 && fields[2] != "AES256"@;
            let shape = fields.len() >= 2 && fields[1] == "1.1"@ && fields.len() != 3;
            let label = fields.len() >= 2 && fields[1] == "1.2"@ && (fields.len() != 4
                || fields[3].len() == 0);
            &&& problems.len() == count(marker) + count(no_version) + count(version) + count(
                no_cipher,
            ) + count(cipher) + count(shape) + count(label)
            &&& marker && fields[0].len() > 0 ==> named(
                problems,
                0,
                fields[0].len() as int,
                "ansible-vault.invalid-marker"@,
                "Invalid Ansible Vault marker; expected $ANSIBLE_VAULT"@,
            )
            &&& marker && fields[0].len() == 0 ==> named(
                problems,
                0,
                if h.len() > 0 {
                    1
                } else {
                    0
                },
                "ansible-vault.invalid-marker"@,
                "Invalid Ansible Vault marker; expected $ANSIBLE_VAULT"@,
            )
            &&& no_version ==> named(
                problems,
                0,
                h.len() as int,
                "ansible-vault.invalid-header"@,
                "Invalid Ansible Vault header; the version is missing"@,
            )
            &&& version ==> named(
                problems,
                second,
                second + fields[1].len(),
                "ansible-vault.unsupported-version"@,
                "Unsupported Ansible Vault version; expected 1.1 or 1.2"@,
            )
            &&& no_cipher ==> named(
                problems,
                0,
                h.len() as int,
                "ansible-vault.invalid-header"@,
                "Invalid Ansible Vault header; the cipher is missing"@,
            )
            &&& cipher ==> named(
                problems,
                third,
                third + fields[2].len(),
                "ansible-vault.unsupported-cipher"@,
                "Unsupported Ansible Vault cipher; expected AES256"@,
            )
            &&& shape ==> named(
                problems,
                0,
                h.len() as int,
                "ansible-vault.invalid-header"@,
                "Vault 1.1 headers must contain exactly marker, version, and cipher"@,
            )
            &&& label ==> named(
                problems,
                0,
                h.len() as int,
                "ansible-vault.missing-vault-id"@,
                "Vault 1.2 headers require a non-empty Vault ID"@,
            )
        }),
{
    reveal_strlit("1.1");
    reveal_strlit("1.2");
    assert("1.1"@[2] != "1.2"@[2]);
    lemma_line_of(fields);
    let h = line_of(fields);
    let a = validation::marker_problems(h);
    let b = validation::version_problems(h);
    let c = validation::cipher_problems(h);
    let d = validation::shape_problems(h);
    let problems = validation::header_problems(h);
    assert(header::fields(h) == fields);
    assert(a.len() > 0 ==> problems[0] == a[0]);
    assert(b.len() > 0 ==> problems[a.len() as int] == b[0]);
    assert(c.len() > 0 ==> problems[(a.len() + b.len()) as int] == c[0]);
    assert(d.len() > 0 ==> problems[(a.len() + b.len() + c.len()) as int] == d[0]);
}

/// A damaged header of a file is shown with one error for each thing that is wrong with
/// it, in the place where it is wrong. Each error offers to replace the whole line by the
/// repaired one, where the line can be repaired and differs from it.
pub proof fn law_damaged_headers_are_shown(h: Seq<char>, rest: Seq<char>, i: int)
    requires
        solid(h),
        header::candidate_line(h),
        0 <= i < validation::header_problems(h).len(),
    ensures
        ({
            let s = h + "\n"@ + rest;
            let at = validation::header_problems(h)[i];
            let issue = validation::issues_of(s)[i];
            &&& i < validation::issues_of(s).len()
            &&& issue.diagnostic.range == document::range_at(
                s,
                at.start,
                if at.start < at.end {
                    at.end
                } else {
                    at.start + 1
                },
            )
            &&& issue.diagnostic.severity == DiagnosticSeverity::Error
            &&& issue.diagnostic.source == "ansible-vault"@
            &&& issue.diagnostic.code == at.problem.code_text()
            &&& issue.diagnostic.message == at.problem.message_text()
            &&& match header::canonical(h) {
                Some(line) => if line == h {
                    issue.fix is None
                } else {
                    issue.fix == Some(
                        validation::Replaced {
                            range: document::range_at(s, 0, h.len() as int),
                            new_text: line,
                        },
                    )
                },
                None => issue.fix is None,
            }
        }),
{
    reveal_strlit("\n");
    let s = h + "\n"@ + rest;
    let n = h.len() as int;
    assert(s.subrange(0, n) =~= h);
    assert forall|k: int| 0 <= k < n implies #[trigger] s[k] != '\n' && s[k] != '\r' by {
        assert(s[k] == h[k]);
        assert(h.contains(h[k]));
    }
    assert(s[n] == '\n');
    roundtrip::lemma_next_line(s, 0, n);
    let all = validation::document_lines(s, 0);
    assert(all[0] == (0int, n));
    assert(validation::content(s, all[0]) == h);
    lemma_solid(h);
    text::lemma_prefix_len(h, text::blank(), 0);
    assert(validation::trimmed_span(s, all[0]) == all[0]);
    let top = validation::header_findings(s, all[0]);
    assert(validation::findings(s)[i] == top[i]);
    let at = validation::header_problems(h)[i];
    validation::lemma_problems_in_header(h);
}

/// A tag with nothing under it is told to have no header, from the tag to the end of its
/// line. For decryption it is an empty value all the same, with an indentation of two spaces
/// more than that of its line.
pub proof fn law_tags_without_payload_are_told(prefix: Seq<char>, depth: nat, tail: Seq<char>)
    requires
        forall|k: int| 0 <= k < prefix.len() ==> #[trigger] prefix[k] != '\n' && prefix[k] != '\r',
        depth <= prefix.len(),
        forall|k: int| 0 <= k < depth ==> #[trigger] prefix[k] == ' ',
        depth < prefix.len() ==> prefix[depth as int] != ' ',
        validation::tag_column(prefix + "!vault |"@) == Some(prefix.len() as int),
        !header::candidate_line(prefix + "!vault |"@),
        tail == ""@ || tail == "\n"@,
    ensures
        ({
            let s = prefix + "!vault |"@ + tail;
            let issues = validation::issues_of(s);
            let lines = validation::document_lines(s, 0);
            let found = crate::yaml::vault_at(s, lines, 0, prefix.len() as int);
            &&& issues.len() == 1
            &&& issues[0].diagnostic.range == document::range_at(
                s,
                prefix.len() as int,
                prefix.len() + 8int,
            )
            &&& issues[0].diagnostic.severity == DiagnosticSeverity::Error
            &&& issues[0].diagnostic.code == "ansible-vault.missing-header"@
            &&& issues[0].diagnostic.source == "ansible-vault"@
            &&& issues[0].diagnostic.message == "The !vault value has no Ansible Vault header"@
            &&& issues[0].fix is None
            &&& found.start == text::byte_len(prefix)
            &&& found.end == text::byte_len(prefix + "!vault |"@)
            &&& found.content == "\n"@
            &&& found.continuation_indent == text::spaces(depth + 2)
        }),
{
    reveal_strlit("\n");
    reveal_strlit("");
    reveal_strlit("!vault |");
    let line = prefix + "!vault |"@;
    let s = line + tail;
    let n = line.len() as int;
    assert(s.subrange(0, n) =~= line);
    assert forall|k: int| 0 <= k < n implies #[trigger] s[k] != '\n' && s[k] != '\r' by {
        if k < prefix.len() {
            assert(s[k] == prefix[k]);
        } else {
            assert(s[k] == "!vault |"@[k - prefix.len()]);
        }
    }
    if n < s.len() {
        assert(s[n] == tail[0]);
    }
    roundtrip::lemma_next_line(s, 0, n);
    assert(s.skip(s.len() as int) =~= Seq::<char>::empty());
    assert(validation::document_lines(s, s.len() as int) =~= Seq::<(int, int)>::empty());
    let all = validation::document_lines(s, 0);
    assert(all =~= seq![(0int, n)]);
    assert(validation::content(s, all[0]) == line);
    assert(!validation::file_candidate(s));
    assert forall|k: int| 0 <= k < depth implies validation::space()(#[trigger] line[k]) by {
        assert(line[k] == prefix[k]);
    }
    if depth < prefix.len() {
        assert(line[depth as int] == prefix[depth as int]);
    } else {
        assert(line[depth as int] == '!');
    }
    text::lemma_prefix_len(line, validation::space(), depth as int);
    assert(validation::next_visible(s, all, 1) == 1);
    assert(validation::inline_findings(s, all, 1) =~= Seq::<Finding>::empty());
    assert(validation::inline_findings(s, all, 0) =~= seq![
        Finding {
            start: prefix.len() as int,
            end: n,
            problem: Problem::MissingHeader,
            fix: None,
        },
    ]);
    assert(validation::findings(s).len() == 1);
    assert(s.take(n) =~= line);
    assert(s.take(prefix.len() as int) =~= prefix);
    assert(text::join(Seq::<Seq<char>>::empty(), seq!['\n']) =~= Seq::<char>::empty());
    assert(Seq::<char>::empty() + seq!['\n'] =~= "\n"@);
}

/// A line under a tag that is not indented deeper than the tag's line belongs to no payload:
/// the tag is told to have no header.
pub proof fn law_lines_beside_the_tag_are_no_payload(prefix: Seq<char>, next: Seq<char>, depth: nat)
    requires
        forall|k: int| 0 <= k < prefix.len() ==> #[trigger] prefix[k] != '\n' && prefix[k] != '\r',
        depth <= prefix.len(),
        forall|k: int| 0 <= k < depth ==> #[trigger] prefix[k] == ' ',
        depth < prefix.len() ==> prefix[depth as int] != ' ',
        validation::tag_column(prefix + "!vault |"@) == Some(prefix.len() as int),
        !header::candidate_line(prefix + "!vault |"@),
        solid(next),
        validation::tag_column(text::spaces(depth) + next) is None,
    ensures
        ({
            let s = prefix + "!vault |"@ + "\n"@ + (text::spaces(depth) + next);
            let issues = validation::issues_of(s);
            &&& issues.len() == 1
            &&& issues[0].diagnostic.code == "ansible-vault.missing-header"@
            &&& issues[0].diagnostic.range == document::range_at(
                s,
                prefix.len() as int,
                prefix.len() + 8int,
            )
        }),
{
    reveal_strlit("\n");
    reveal_strlit("!vault |");
    let line = prefix + "!vault |"@;
    let under = text::spaces(depth) + next;
    let s = line + "\n"@ + under;
    let n = line.len() as int;
    assert(s.subrange(0, n) =~= line);
    assert forall|k: int| 0 <= k < n implies #[trigger] s[k] != '\n' && s[k] != '\r' by {
        if k < prefix.len() {
            assert(s[k] == prefix[k]);
        } else {
            assert(s[k] == "!vault |"@[k - prefix.len()]);
        }
    }
    assert(s[n] == '\n');
    roundtrip::lemma_next_line(s, 0, n);
    let m = s.len() as int;
    assert(s.subrange(n + 1, m) =~= under);
    assert forall|k: int| n + 1 <= k < m implies #[trigger] s[k] != '\n' && s[k] != '\r' by {
        let j = k - n - 1;
        assert(s[k] == under[j]);
        if j >= depth {
            assert(under[j] == next[j - depth]);
            assert(next.contains(next[j - depth]));
        }
    }
    roundtrip::lemma_next_line(s, n + 1, m);
    assert(s.skip(m) =~= Seq::<char>::empty());
    assert(validation::document_lines(s, m) =~= Seq::<(int, int)>::empty());
    let all = validation::document_lines(s, 0);
    assert(all =~= seq![(0int, n), (n + 1, m)]);
    assert(validation::content(s, all[0]) == line);
    assert(validation::content(s, all[1]) == under);
    assert(!validation::file_candidate(s));
    assert forall|k: int| 0 <= k < depth implies validation::space()(#[trigger] line[k]) by {
        assert(line[k] == prefix[k]);
    }
    if depth < prefix.len() {
        assert(line[depth as int] == prefix[depth as int]);
    } else {
        assert(line[depth as int] == '!');
    }
    text::lemma_prefix_len(line, validation::space(), depth as int);
    lemma_solid(next);
    roundtrip::lemma_indented_line(depth, next);
    assert forall|k: int| 0 <= k < depth implies validation::space()(#[trigger] under[k]) by {}
    assert(under[depth as int] == next[0]);
    text::lemma_prefix_len(under, validation::space(), depth as int);
    assert(validation::next_visible(s, all, 1) == 1);
    assert(validation::inline_findings(s, all, 2) =~= Seq::<Finding>::empty());
    assert(validation::inline_findings(s, all, 1) =~= Seq::<Finding>::empty());
    assert(validation::inline_findings(s, all, 0) =~= seq![
        Finding {
            start: prefix.len() as int,
            end: n,
            problem: Problem::MissingHeader,
            fix: None,
        },
    ]);
    assert(validation::findings(s).len() == 1);
}

// ---------------------------------------------------------------------------
// Which lines count
// ---------------------------------------------------------------------------

/// Whether a document is meant to be a Vault file is told by its first line alone.
pub proof fn law_first_lines_alone_decide(line: Seq<char>, rest: Seq<char>)
    requires
        !line.contains('\n'),
        !line.contains('\r'),
        line.len() > 0,
    ensures
        validation::file_candidate(line + "\n"@ + rest) == header::candidate_line(line),
        validation::file_candidate(line) == header::candidate_line(line),
        !validation::file_candidate(""@),
{
    reveal_strlit("\n");
    reveal_strlit("");
    let s = line + "\n"@ + rest;
    let n = line.len() as int;
    assert forall|k: int| 0 <= k < n implies #[trigger] s[k] != '\n' && s[k] != '\r' by {
        assert(s[k] == line[k]);
        assert(line.contains(line[k]));
    }
    assert(s[n] == '\n');
    roundtrip::lemma_next_line(s, 0, n);
    assert(validation::content(s, (0int, n)) =~= line);
    assert(validation::document_lines(s, 0)[0] == (0int, n));
    assert forall|k: int| 0 <= k < n implies #[trigger] line[k] != '\n' && line[k] != '\r' by {
        assert(line.contains(line[k]));
    }
    roundtrip::lemma_next_line(line, 0, n);
    assert(validation::content(line, (0int, n)) =~= line);
    assert(validation::document_lines(line, 0)[0] == (0int, n));
    let none = ""@;
    text::lemma_prefix_len_bounds(none.skip(0), text::outside(seq!['\n']));
    assert(validation::document_lines(none, 0).len() == 0);
}

/// The lines of a payload are judged without the white space around them, and lines with
/// nothing else are passed over.
pub proof fn law_blank_lines_are_passed_over(
    s: Seq<char>,
    a: Seq<(int, int)>,
    b: Seq<(int, int)>,
    span: (int, int),
    before: Seq<char>,
    line: Seq<char>,
    behind: Seq<char>,
)
    requires
        0 <= span.0 <= span.1 <= s.len(),
        text::all_blank(before),
        text::all_blank(behind),
        solid(line),
    ensures
        validation::visible_lines(s, a + b) == validation::visible_lines(s, a)
            + validation::visible_lines(s, b),
        s.subrange(span.0, span.1) == before ==> validation::visible_lines(s, seq![span]).len()
            == 0,
        s.subrange(span.0, span.1) == before + line + behind ==> validation::visible_lines(
            s,
            seq![span],
        ) == seq![(span.0 + before.len(), span.1 - behind.len())],
    decreases b.len(),
{
    let alone = seq![span];
    assert(alone.drop_last() =~= Seq::<(int, int)>::empty());
    assert(validation::visible_lines(s, alone.drop_last()) =~= Seq::<(int, int)>::empty());
    let content = s.subrange(span.0, span.1);
    if content == before {
        text::lemma_trim_empty(before);
    }
    if content == before + line + behind {
        text::law_white_space_around_is_trimmed(before, line, behind);
        let n = before.len() as int;
        assert forall|k: int| 0 <= k < n implies text::blank()(#[trigger] content[k]) by {
            assert(content[k] == before[k]);
        }
        assert(content[n] == line[0]);
        text::lemma_prefix_len(content, text::blank(), n);
        assert(validation::trimmed_span(s, span) == (span.0 + n, span.0 + n + line.len()));
        assert(content.len() == before.len() + line.len() + behind.len());
    }
    if b.len() == 0 {
        assert(a + b =~= a);
        assert(validation::visible_lines(s, b) =~= Seq::<(int, int)>::empty());
        assert(validation::visible_lines(s, a) + validation::visible_lines(s, b)
            =~= validation::visible_lines(s, a));
    } else {
        law_blank_lines_are_passed_over(s, a, b.drop_last(), span, before, line, behind);
        assert((a + b).drop_last() =~= a + b.drop_last());
        assert((a + b).last() == b.last());
        assert(validation::visible_lines(s, a + b) =~= validation::visible_lines(s, a)
            + validation::visible_lines(s, b));
    }
}

// ---------------------------------------------------------------------------
// Several values
// ---------------------------------------------------------------------------

/// Whether a line holds something in its first column.
pub open spec fn outermost(s: Seq<char>, span: (int, int)) -> bool {
    &&& 0 <= span.0 < span.1 <= s.len()
    &&& !text::white_space(s[span.0])
}

proof fn lemma_outermost(s: Seq<char>, span: (int, int))
    requires
        outermost(s, span),
    ensures
        !validation::blank_line(validation::content(s, span)),
        validation::indent(validation::content(s, span)) == 0,
{
    let line = validation::content(s, span);
    assert(line[0] == s[span.0]);
    text::lemma_trim_empty(line);
    text::lemma_prefix_len(line, validation::space(), 0);
}

proof fn lemma_next_visible_up_to(s: Seq<char>, lines: Seq<(int, int)>, i: int, k: int)
    requires
        0 <= i <= k < lines.len(),
        !validation::blank_line(validation::content(s, lines[k])),
    ensures
        i <= validation::next_visible(s, lines, i) <= k,
    decreases k - i,
{
    if i < k && validation::blank_line(validation::content(s, lines[i])) {
        lemma_next_visible_up_to(s, lines, i + 1, k);
    }
}

proof fn lemma_block_end_up_to(s: Seq<char>, lines: Seq<(int, int)>, i: int, depth: nat, k: int)
    requires
        0 <= i <= k < lines.len(),
        validation::indent(validation::content(s, lines[k])) < depth,
    ensures
        i <= validation::block_end(s, lines, i, depth) <= k,
    decreases k - i,
{
    if i < k && !validation::blank_line(validation::content(s, lines[i])) && validation::indent(
        validation::content(s, lines[i]),
    ) >= depth {
        lemma_block_end_up_to(s, lines, i + 1, depth, k);
    }
}

/// What is found from a line in the first column on is found whatever stands before it.
proof fn lemma_findings_behind(s: Seq<char>, lines: Seq<(int, int)>, i: int, k: int) -> (before:
    Seq<Finding>)
    requires
        0 <= i <= k < lines.len(),
        outermost(s, lines[k]),
    ensures
        validation::inline_findings(s, lines, i) == before + validation::inline_findings(
            s,
            lines,
            k,
        ),
    decreases k - i,
{
    let rest = validation::inline_findings(s, lines, k);
    let all = validation::inline_findings(s, lines, i);
    lemma_outermost(s, lines[k]);
    if i == k {
        assert(Seq::<Finding>::empty() + rest =~= rest);
        Seq::empty()
    } else {
        let line = validation::content(s, lines[i]);
        match validation::tag_column(line) {
            None => lemma_findings_behind(s, lines, i + 1, k),
            Some(column) => {
                let next = validation::next_visible(s, lines, i + 1);
                lemma_next_visible_up_to(s, lines, i + 1, k);
                if validation::indent(validation::content(s, lines[next])) <= validation::indent(
                    line,
                ) {
                    let later = lemma_findings_behind(s, lines, i + 1, k);
                    let first = seq![
                        Finding {
                            start: lines[i].0 + column,
                            end: lines[i].1,
                            problem: Problem::MissingHeader,
                            fix: None,
                        },
                    ];
                    assert(all =~= (first + later) + rest);
                    first + later
                } else {
                    assert(next < k);
                    let depth = validation::indent(validation::content(s, lines[next]));
                    let stop = validation::block_end(s, lines, next + 1, depth);
                    lemma_block_end_up_to(s, lines, next + 1, depth, k);
                    let later = lemma_findings_behind(s, lines, stop, k);
                    let first = validation::block_findings(
                        s,
                        validation::trimmed_span(s, lines[next]),
                        validation::trimmed_lines(s, lines, next + 1, stop),
                    );
                    assert(all =~= (first + later) + rest);
                    first + later
                }
            },
        }
    }
}

/// Every value in the first column of a document is judged, however many come before it: a
/// tag with a line in the first column under it, or with none, is told to have no header.
pub proof fn law_every_tag_without_header_is_told(s: Seq<char>, k: int, column: int) -> (j: int)
    requires
        !validation::file_candidate(s),
        0 <= k < validation::document_lines(s, 0).len(),
        outermost(s, validation::document_lines(s, 0)[k]),
        validation::tag_column(validation::content(s, validation::document_lines(s, 0)[k])) == Some(
            column,
        ),
        k + 1 == validation::document_lines(s, 0).len() || outermost(
            s,
            validation::document_lines(s, 0)[k + 1],
        ),
    ensures
        ({
            let line = validation::document_lines(s, 0)[k];
            let issues = validation::issues_of(s);
            &&& 0 <= j < issues.len()
            &&& issues[j].diagnostic.code == "ansible-vault.missing-header"@
            &&& line.0 + column < line.1 ==> issues[j].diagnostic.range == document::range_at(
                s,
                line.0 + column,
                line.1,
            )
        }),
{
    let lines = validation::document_lines(s, 0);
    let before = lemma_findings_behind(s, lines, 0, k);
    lemma_outermost(s, lines[k]);
    if k + 1 < lines.len() {
        lemma_outermost(s, lines[k + 1]);
    }
    assert(validation::next_visible(s, lines, k + 1) == k + 1);
    let found = validation::inline_findings(s, lines, k);
    let wanted = Finding {
        start: lines[k].0 + column,
        end: lines[k].1,
        problem: Problem::MissingHeader,
        fix: None,
    };
    assert(found[0] == wanted);
    let j = before.len() as int;
    assert(validation::findings(s)[j] == wanted);
    assert(validation::issues_of(s)[j] == validation::shown_issue(s, wanted));
    j
}

/// Every value in the first column of a document is judged, however many come before it: what
/// is wrong with the header under its tag is shown, each thing in its place, and each offers
/// the repaired header in place of the header alone. `depth` is the indentation of the header.
pub proof fn law_every_header_is_judged(
    s: Seq<char>,
    k: int,
    column: int,
    depth: nat,
    h: Seq<char>,
    i: int,
) -> (j: int)
    requires
        !validation::file_candidate(s),
        0 <= k,
        k + 1 < validation::document_lines(s, 0).len(),
        outermost(s, validation::document_lines(s, 0)[k]),
        validation::tag_column(validation::content(s, validation::document_lines(s, 0)[k])) == Some(
            column,
        ),
        depth > 0,
        solid(h),
        validation::content(s, validation::document_lines(s, 0)[k + 1]) == text::spaces(depth) + h,
        0 <= i < validation::header_problems(h).len(),
    ensures
        ({
            let from = validation::document_lines(s, 0)[k + 1].0 + depth;
            let at = validation::header_problems(h)[i];
            let issues = validation::issues_of(s);
            &&& 0 <= j < issues.len()
            &&& issues[j].diagnostic.code == at.problem.code_text()
            &&& issues[j].diagnostic.message == at.problem.message_text()
            &&& at.start < at.end ==> issues[j].diagnostic.range == document::range_at(
                s,
                from + at.start,
                from + at.end,
            )
            &&& match header::canonical(h) {
                Some(line) => if line == h {
                    issues[j].fix is None
                } else {
                    issues[j].fix == Some(
                        validation::Replaced {
                            range: document::range_at(s, from, from + h.len()),
                            new_text: line,
                        },
                    )
                },
                None => issues[j].fix is None,
            }
        }),
{
    let lines = validation::document_lines(s, 0);
    let before = lemma_findings_behind(s, lines, 0, k);
    lemma_outermost(s, lines[k]);
    lemma_solid(h);
    roundtrip::lemma_indented_line(depth, h);
    validation::lemma_lines_ordered(s, 0);
    let whole = text::spaces(depth) + h;
    assert forall|q: int| 0 <= q < depth implies validation::space()(#[trigger] whole[q]) by {}
    assert(whole[depth as int] == h[0]);
    text::lemma_prefix_len(whole, validation::space(), depth as int);
    assert(validation::next_visible(s, lines, k + 1) == k + 1);
    assert(validation::in_text(s, lines[k + 1]));
    lemma_trimmed(s, lines[k + 1], depth, h);
    let top = validation::trimmed_span(s, lines[k + 1]);
    assert(validation::content(s, top) == h);
    assert(top.1 == top.0 + h.len()) by {
        assert(validation::content(s, lines[k + 1]).len() == depth + h.len());
    }
    let found = validation::inline_findings(s, lines, k);
    let heads = validation::header_findings(s, top);
    assert(found[i] == heads[i]);
    let j = before.len() + i;
    assert(validation::findings(s)[j] == heads[i]);
    assert(validation::issues_of(s)[j] == validation::shown_issue(s, heads[i]));
    j
}

} // verus!
