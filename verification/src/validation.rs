//! Finding what is wrong with the Vault payloads in a document.
//!
//! A document is one Vault payload as a whole, or YAML with payloads in block
//! scalars that carry the tag `!vault`. Places in the text are counted in
//! characters here; a diagnostic shows them as editor positions.
use crate::document;
use crate::document::Range;
use crate::header;
use crate::text;
use vstd::prelude::*;

verus! {

pub const DIAGNOSTIC_SOURCE: &'static str = "ansible-vault";

pub const INVALID_MARKER_CODE: &'static str = "ansible-vault.invalid-marker";

pub const VAULT_TAG: &'static str = "!vault";

#[derive(Clone, Copy, Debug, PartialEq, Eq, Structural)]
pub enum DiagnosticSeverity {
    Error,
    Warning,
    Information,
    Hint,
}

/// A problem as an editor shows it.
#[derive(Clone, Debug, PartialEq, Eq)]
pub struct Diagnostic {
    pub range: Range,
    pub severity: DiagnosticSeverity,
    pub code: String,
    pub source: String,
    pub message: String,
}

/// A replacement of the text in a range.
#[derive(Clone, Debug, PartialEq, Eq)]
pub struct TextEdit {
    pub range: Range,
    pub new_text: String,
}

/// A diagnostic, and the edit that repairs what it shows where one is safe.
#[derive(Clone, Debug, PartialEq, Eq)]
pub struct ValidationIssue {
    pub diagnostic: Diagnostic,
    pub fix: Option<TextEdit>,
}

/// A diagnostic as contracts speak of it.
pub struct Told {
    pub range: Range,
    pub severity: DiagnosticSeverity,
    pub code: Seq<char>,
    pub source: Seq<char>,
    pub message: Seq<char>,
}

/// An edit as contracts speak of it.
pub struct Replaced {
    pub range: Range,
    pub new_text: Seq<char>,
}

/// An issue as contracts speak of it.
pub struct Shown {
    pub diagnostic: Told,
    pub fix: Option<Replaced>,
}

impl View for Diagnostic {
    type V = Told;

    open spec fn view(&self) -> Told {
        Told {
            range: self.range,
            severity: self.severity,
            code: self.code@,
            source: self.source@,
            message: self.message@,
        }
    }
}

impl View for TextEdit {
    type V = Replaced;

    open spec fn view(&self) -> Replaced {
        Replaced { range: self.range, new_text: self.new_text@ }
    }
}

impl View for ValidationIssue {
    type V = Shown;

    open spec fn view(&self) -> Shown {
        Shown {
            diagnostic: self.diagnostic@,
            fix: match self.fix {
                Some(edit) => Some(edit@),
                None => None,
            },
        }
    }
}

/// A list of issues as contracts speak of it.
pub open spec fn issue_views(issues: Seq<ValidationIssue>) -> Seq<Shown> {
    Seq::new(issues.len(), |i: int| issues[i]@)
}

/// What can be wrong with a Vault payload.
#[derive(Clone, Copy, Debug, PartialEq, Eq, Structural)]
pub enum Problem {
    InvalidMarker,
    UnsupportedVersion,
    VersionMissing,
    UnsupportedCipher,
    CipherMissing,
    UnexpectedFields,
    MissingVaultId,
    EmptyPayload,
    InvalidPayload,
    MissingHeader,
}

impl Problem {
    /// The code by which an editor knows the problem.
    pub open spec fn code_text(self) -> Seq<char> {
        match self {
            Problem::InvalidMarker => INVALID_MARKER_CODE@,
            Problem::UnsupportedVersion => "ansible-vault.unsupported-version"@,
            Problem::VersionMissing => "ansible-vault.invalid-header"@,
            Problem::UnsupportedCipher => "ansible-vault.unsupported-cipher"@,
            Problem::CipherMissing => "ansible-vault.invalid-header"@,
            Problem::UnexpectedFields => "ansible-vault.invalid-header"@,
            Problem::MissingVaultId => "ansible-vault.missing-vault-id"@,
            Problem::EmptyPayload => "ansible-vault.empty-payload"@,
            Problem::InvalidPayload => "ansible-vault.invalid-payload"@,
            Problem::MissingHeader => "ansible-vault.missing-header"@,
        }
    }

    /// The sentence that tells the user.
    pub open spec fn message_text(self) -> Seq<char> {
        match self {
            Problem::InvalidMarker => "Invalid Ansible Vault marker; expected $ANSIBLE_VAULT"@,
            Problem::UnsupportedVersion =>
            "Unsupported Ansible Vault version; expected 1.1 or 1.2"@,
            Problem::VersionMissing => "Invalid Ansible Vault header; the version is missing"@,
            Problem::UnsupportedCipher => "Unsupported Ansible Vault cipher; expected AES256"@,
            Problem::CipherMissing => "Invalid Ansible Vault header; the cipher is missing"@,
            Problem::UnexpectedFields =>
            "Vault 1.1 headers must contain exactly marker, version, and cipher"@,
            Problem::MissingVaultId => "Vault 1.2 headers require a non-empty Vault ID"@,
            Problem::EmptyPayload => "The Ansible Vault payload is empty"@,
            Problem::InvalidPayload =>
            "Ansible Vault payload lines must contain an even number of hexadecimal characters"@,
            Problem::MissingHeader => "The !vault value has no Ansible Vault header"@,
        }
    }

    pub fn code(self) -> (r: &'static str)
        ensures
            r@ == self.code_text(),
    {
        match self {
            Problem::InvalidMarker => INVALID_MARKER_CODE,
            Problem::UnsupportedVersion => "ansible-vault.unsupported-version",
            Problem::VersionMissing => "ansible-vault.invalid-header",
            Problem::UnsupportedCipher => "ansible-vault.unsupported-cipher",
            Problem::CipherMissing => "ansible-vault.invalid-header",
            Problem::UnexpectedFields => "ansible-vault.invalid-header",
            Problem::MissingVaultId => "ansible-vault.missing-vault-id",
            Problem::EmptyPayload => "ansible-vault.empty-payload",
            Problem::InvalidPayload => "ansible-vault.invalid-payload",
            Problem::MissingHeader => "ansible-vault.missing-header",
        }
    }

    pub fn message(self) -> (r: &'static str)
        ensures
            r@ == self.message_text(),
    {
        match self {
            Problem::InvalidMarker => "Invalid Ansible Vault marker; expected $ANSIBLE_VAULT",
            Problem::UnsupportedVersion => "Unsupported Ansible Vault version; expected 1.1 or 1.2",
            Problem::VersionMissing => "Invalid Ansible Vault header; the version is missing",
            Problem::UnsupportedCipher => "Unsupported Ansible Vault cipher; expected AES256",
            Problem::CipherMissing => "Invalid Ansible Vault header; the cipher is missing",
            Problem::UnexpectedFields =>
            "Vault 1.1 headers must contain exactly marker, version, and cipher",
            Problem::MissingVaultId => "Vault 1.2 headers require a non-empty Vault ID",
            Problem::EmptyPayload => "The Ansible Vault payload is empty",
            Problem::InvalidPayload =>
            "Ansible Vault payload lines must contain an even number of hexadecimal characters",
            Problem::MissingHeader => "The !vault value has no Ansible Vault header",
        }
    }
}

/// A problem at a place of the text, with the replacement that repairs it.
pub struct Finding {
    pub start: int,
    pub end: int,
    pub problem: Problem,
    pub fix: Option<(int, int, Seq<char>)>,
}

/// Where the shown range of a finding ends: an empty one is widened to the next
/// character, if there is one.
pub open spec fn shown_end(s: Seq<char>, start: int, end: int) -> int {
    if end > start {
        end
    } else if start < s.len() {
        start + 1
    } else {
        start
    }
}

/// What an editor gets for a finding.
pub open spec fn shown_issue(s: Seq<char>, finding: Finding) -> Shown {
    Shown {
        diagnostic: Told {
            range: document::range_at(
                s,
                finding.start,
                shown_end(s, finding.start, finding.end),
            ),
            severity: DiagnosticSeverity::Error,
            code: finding.problem.code_text(),
            source: DIAGNOSTIC_SOURCE@,
            message: finding.problem.message_text(),
        },
        fix: match finding.fix {
            Some((start, end, replacement)) => Some(
                Replaced { range: document::range_at(s, start, end), new_text: replacement },
            ),
            None => None,
        },
    }
}

/// Whether `issue` is what an editor gets for `finding`.
pub open spec fn shows(issue: ValidationIssue, s: Seq<char>, finding: Finding) -> bool {
    issue@ == shown_issue(s, finding)
}

/// Whether the issues are what an editor gets for the findings, one for one.
pub open spec fn all_shown(
    issues: Seq<ValidationIssue>,
    s: Seq<char>,
    findings: Seq<Finding>,
) -> bool {
    issues.len() == findings.len() && forall|i: int|
        0 <= i < issues.len() ==> shows(#[trigger] issues[i], s, findings[i])
}

// ---------------------------------------------------------------------------
// Lines
// ---------------------------------------------------------------------------

/// The lines of `s` from the character `from` on: where each begins, and where
/// its content ends.
pub open spec fn document_lines(s: Seq<char>, from: int) -> Seq<(int, int)>
    decreases s.len() - from,
{
    let n = text::line_len(s.skip(from));
    if 0 <= from < from + n <= s.len() {
        let content = text::trim_end_of(s.subrange(from, from + n), seq!['\r', '\n']);
        seq![(from, from + content.len())] + document_lines(s, from + n)
    } else {
        Seq::empty()
    }
}

/// The text between two places.
pub open spec fn content(s: Seq<char>, span: (int, int)) -> Seq<char> {
    s.subrange(span.0, span.1)
}

/// The span without the white space at its ends.
pub open spec fn trimmed_span(s: Seq<char>, span: (int, int)) -> (int, int) {
    let line = content(s, span);
    let start = span.0 + text::prefix_len(line, text::blank());
    (start, start + text::trim(line).len())
}

/// Satisfied by the space character.
pub open spec fn space() -> spec_fn(char) -> bool {
    |c: char| c == ' '
}

/// The number of spaces at the start of a line.
pub open spec fn indent(line: Seq<char>) -> nat {
    text::prefix_len(line, space())
}

/// Whether a line shows only white space.
pub open spec fn blank_line(line: Seq<char>) -> bool {
    text::trim(line).len() == 0
}

pub open spec fn in_text(s: Seq<char>, span: (int, int)) -> bool {
    0 <= span.0 <= span.1 <= s.len()
}

/// Spans with machine integers, as numbers.
pub open spec fn spans(v: Seq<(usize, usize)>) -> Seq<(int, int)> {
    Seq::new(v.len(), |i: int| (v[i].0 as int, v[i].1 as int))
}

pub open spec fn all_in_text(s: Seq<char>, v: Seq<(int, int)>) -> bool {
    forall|i: int| 0 <= i < v.len() ==> in_text(s, #[trigger] v[i])
}

/// Lines follow one another, with something between them.
pub open spec fn lines_in_order(lines: Seq<(int, int)>) -> bool {
    forall|i: int, j: int| 0 <= i < j < lines.len() ==> (#[trigger] lines[i]).1 < (#[trigger] lines[j]).0
}

proof fn lemma_line_len_bounds(s: Seq<char>)
    ensures
        0 <= text::line_len(s) <= s.len(),
        s.len() > 0 ==> text::line_len(s) > 0,
{
    text::lemma_prefix_len_bounds(s, text::outside(seq!['\n']));
}

pub proof fn lemma_trimmed_span(s: Seq<char>, span: (int, int))
    requires
        in_text(s, span),
    ensures
        in_text(s, trimmed_span(s, span)),
        content(s, trimmed_span(s, span)) == text::trim(content(s, span)),
        span.0 <= trimmed_span(s, span).0,
        trimmed_span(s, span).1 <= span.1,
{
    let line = content(s, span);
    text::lemma_prefix_len_bounds(line, text::blank());
    text::lemma_suffix_len_bounds(text::trim_start(line), text::blank());
    assert(content(s, trimmed_span(s, span)) =~= text::trim(line));
}

/// Lines follow one another with at least a line feed between them.
pub proof fn lemma_lines_ordered(s: Seq<char>, from: int)
    requires
        0 <= from <= s.len(),
    ensures
        forall|i: int|
            0 <= i < document_lines(s, from).len() ==> from
                <= (#[trigger] document_lines(s, from)[i]).0
                <= document_lines(s, from)[i].1 <= s.len(),
        forall|i: int, j: int|
            0 <= i < j < document_lines(s, from).len() ==> (
            #[trigger] document_lines(s, from)[i]).1
                < (#[trigger] document_lines(s, from)[j]).0,
    decreases s.len() - from,
{
    let all = document_lines(s, from);
    let set = seq!['\n'];
    let ends = seq!['\r', '\n'];
    let n = text::line_len(s.skip(from));
    text::lemma_prefix_len_bounds(s.skip(from), text::outside(set));
    if 0 <= from < from + n <= s.len() {
        lemma_lines_ordered(s, from + n);
        let rest = document_lines(s, from + n);
        let line = s.subrange(from, from + n);
        text::lemma_suffix_len_bounds(line, text::among(ends));
        if from + n < s.len() {
            let m = text::prefix_len(s.skip(from), text::outside(set)) as int;
            assert(set.contains(s.skip(from)[m]));
            assert(line.last() == s.skip(from)[m]);
            assert(ends.contains(ends[1]));
            assert(text::among(ends)(line.last()));
        }
        assert forall|i: int| 0 <= i < all.len() implies from <= (#[trigger] all[i]).0 <= all[i].1
            <= s.len() by {
            if i > 0 {
                assert(all[i] == rest[i - 1]);
            }
        }
        assert forall|i: int, j: int| 0 <= i < j < all.len() implies (#[trigger] all[i]).1 < (
        #[trigger] all[j]).0 by {
            assert(all[j] == rest[j - 1]);
            if i > 0 {
                assert(all[i] == rest[i - 1]);
            }
        }
    }
}

/// Where the lines of a text begin, and where their contents end.
pub fn lines(chars: &[char]) -> (r: Vec<(usize, usize)>)
    ensures
        spans(r@) == document_lines(chars@, 0),
        all_in_text(chars@, spans(r@)),
        lines_in_order(spans(r@)),
{
    let ghost s = chars@;
    let mut out: Vec<(usize, usize)> = Vec::new();
    let mut start: usize = 0;
    let ends: [char; 2] = ['\r', '\n'];
    proof {
        assert(ends@ =~= seq!['\r', '\n']);
        assert(spans(out@) + document_lines(s, 0) =~= document_lines(s, 0));
    }
    while start < chars.len()
        invariant
            s == chars@,
            ends@ == seq!['\r', '\n'],
            start <= s.len(),
            spans(out@) + document_lines(s, start as int) == document_lines(s, 0),
            all_in_text(s, spans(out@)),
        decreases s.len() - start,
    {
        let mut stop: usize = start;
        while stop < chars.len() && chars[stop] != '\n'
            invariant
                s == chars@,
                start <= stop <= s.len(),
                forall|k: int| start <= k < stop ==> #[trigger] s[k] != '\n',
            decreases s.len() - stop,
        {
            stop = stop + 1;
        }
        let ghost rest = s.skip(start as int);
        proof {
            assert forall|k: int| 0 <= k < stop - start implies #[trigger] rest[k] != '\n' by {
                assert(rest[k] == s[start + k]);
            }
            text::lemma_line_len(rest, stop - start);
        }
        let next: usize = if stop < chars.len() {
            stop + 1
        } else {
            stop
        };
        let shown = text::trimmed_end_of(&chars[start..next], ends.as_slice());
        let ghost before = out@;
        proof {
            text::lemma_suffix_len_bounds(
                s.subrange(start as int, next as int),
                text::among(seq!['\r', '\n']),
            );
            assert(next - start == text::line_len(rest));
        }
        out.push((start, start + shown.len()));
        proof {
            let added = (start as int, start + shown@.len());
            assert(spans(out@) =~= spans(before).push(added));
            assert(document_lines(s, start as int) =~= seq![added] + document_lines(s, next as int));
            assert(spans(out@) + document_lines(s, next as int) =~= spans(before)
                + document_lines(s, start as int));
        }
        start = next;
    }
    proof {
        assert(document_lines(s, start as int) =~= Seq::<(int, int)>::empty());
        assert(spans(out@) + document_lines(s, start as int) =~= spans(out@));
        lemma_lines_ordered(s, 0);
    }
    out
}

fn trimmed_line(chars: &[char], line: (usize, usize)) -> (r: (usize, usize))
    requires
        in_text(chars@, (line.0 as int, line.1 as int)),
    ensures
        (r.0 as int, r.1 as int) == trimmed_span(chars@, (line.0 as int, line.1 as int)),
        in_text(chars@, (r.0 as int, r.1 as int)),
{
    let whole: &[char] = &chars[line.0..line.1];
    proof {
        lemma_trimmed_span(chars@, (line.0 as int, line.1 as int));
        text::lemma_prefix_len_bounds(whole@, text::blank());
    }
    let leading: usize = whole.len() - text::trimmed_start(whole).len();
    let start: usize = line.0 + leading;
    (start, start + text::trimmed(whole).len())
}

pub fn line_indent(line: &[char]) -> (r: usize)
    ensures
        r == indent(line@),
{
    let mut n: usize = 0;
    while n < line.len() && line[n] == ' '
        invariant
            n <= line@.len(),
            forall|k: int| 0 <= k < n ==> #[trigger] line@[k] == ' ',
        decreases line@.len() - n,
    {
        n = n + 1;
    }
    proof {
        text::lemma_prefix_len(line@, space(), n as int);
    }
    n
}

pub fn is_blank_line(line: &[char]) -> (r: bool)
    ensures
        r == blank_line(line@),
{
    text::trimmed(line).len() == 0
}

// ---------------------------------------------------------------------------
// The header
// ---------------------------------------------------------------------------

/// A problem within a header, by its place in the header.
pub struct HeaderProblem {
    pub start: int,
    pub end: int,
    pub problem: Problem,
}

pub open spec fn marker_problems(header: Seq<char>) -> Seq<HeaderProblem> {
    let marker = header::fields(header)[0];
    if marker == header::VAULT_MARKER@ {
        Seq::empty()
    } else {
        let wide = if marker.len() == 0 && header.len() > 0 {
            1
        } else {
            marker.len() as int
        };
        seq![HeaderProblem { start: 0, end: wide, problem: Problem::InvalidMarker }]
    }
}

pub open spec fn version_problems(header: Seq<char>) -> Seq<HeaderProblem> {
    let parts = header::fields(header);
    if parts.len() < 2 {
        seq![
            HeaderProblem { start: 0, end: header.len() as int, problem: Problem::VersionMissing },
        ]
    } else if parts[1] == "1.1"@ || parts[1] == "1.2"@ {
        Seq::empty()
    } else {
        let start = parts[0].len() + 1int;
        seq![
            HeaderProblem {
                start,
                end: start + parts[1].len(),
                problem: Problem::UnsupportedVersion,
            },
        ]
    }
}

pub open spec fn cipher_problems(header: Seq<char>) -> Seq<HeaderProblem> {
    let parts = header::fields(header);
    if parts.len() < 3 {
        seq![
            HeaderProblem { start: 0, end: header.len() as int, problem: Problem::CipherMissing },
        ]
    } else if parts[2] == header::CIPHER@ {
        Seq::empty()
    } else {
        let start = parts[0].len() + 1int + parts[1].len() + 1;
        seq![
            HeaderProblem {
                start,
                end: start + parts[2].len(),
                problem: Problem::UnsupportedCipher,
            },
        ]
    }
}

pub open spec fn shape_problems(header: Seq<char>) -> Seq<HeaderProblem> {
    let parts = header::fields(header);
    if parts.len() >= 2 && parts[1] == "1.1"@ && parts.len() != 3 {
        seq![
            HeaderProblem { start: 0, end: header.len() as int, problem: Problem::UnexpectedFields },
        ]
    } else if parts.len() >= 2 && parts[1] == "1.2"@ && (parts.len() != 4 || parts[3].len() == 0) {
        seq![
            HeaderProblem { start: 0, end: header.len() as int, problem: Problem::MissingVaultId },
        ]
    } else {
        Seq::empty()
    }
}

/// What is wrong with a header, field by field and then as a whole.
pub open spec fn header_problems(header: Seq<char>) -> Seq<HeaderProblem> {
    marker_problems(header) + version_problems(header) + cipher_problems(header) + shape_problems(
        header,
    )
}

/// The header that is to replace this one, where it can be repaired and needs
/// to be.
pub open spec fn header_fix(header: Seq<char>) -> Option<Seq<char>> {
    match header::canonical(header) {
        Some(line) => if line != header {
            Some(line)
        } else {
            None
        },
        None => None,
    }
}

/// The fields of a header lie one behind the other, with a semicolon between.
proof fn lemma_field_places(header: Seq<char>)
    ensures
        header::fields(header).len() > 0,
        header::fields(header)[0].len() <= header.len(),
        header::fields(header).len() >= 2 ==> header::fields(header)[0].len() + 1
            + header::fields(header)[1].len() <= header.len(),
        header::fields(header).len() >= 3 ==> header::fields(header)[0].len() + 1
            + header::fields(header)[1].len() + 1 + header::fields(header)[2].len() <= header.len(),
{
    let set = seq![';'];
    let n = text::prefix_len(header, text::outside(set)) as int;
    text::lemma_prefix_len_bounds(header, text::outside(set));
    if n < header.len() {
        let second = header.skip(n + 1);
        let m = text::prefix_len(second, text::outside(set)) as int;
        text::lemma_prefix_len_bounds(second, text::outside(set));
        assert(header::fields(header) == seq![header.take(n)] + header::fields(second));
        assert(header::fields(header)[1] == header::fields(second)[0]);
        if m < second.len() {
            let third = second.skip(m + 1);
            text::lemma_prefix_len_bounds(third, text::outside(set));
            text::lemma_split_pieces(third, set);
            assert(header::fields(second) == seq![second.take(m)] + header::fields(third));
            assert(header::fields(header)[2] == header::fields(second)[1]);
            assert(header::fields(second)[1] == header::fields(third)[0]);
        }
    }
}

/// Every problem of a header lies within it.
pub proof fn lemma_problems_in_header(header: Seq<char>)
    ensures
        forall|i: int|
            0 <= i < header_problems(header).len() ==> 0 <= (#[trigger] header_problems(
                header,
            )[i]).start <= header_problems(header)[i].end <= header.len(),
{
    lemma_field_places(header);
}

/// A header is free of problems exactly where it is valid.
pub proof fn law_valid_headers_have_no_problems(header: Seq<char>)
    ensures
        header_problems(header).len() == 0 <==> header::valid_header(header),
{
    reveal_strlit("1.1");
    reveal_strlit("1.2");
    assert("1.1"@[2] != "1.2"@[2]);
    lemma_field_places(header);
}

/// Every fix that is offered leaves a header that is free of problems and is
/// not changed by another repair.
pub proof fn law_fixed_headers_have_no_problems(header: Seq<char>)
    requires
        header_fix(header) is Some,
    ensures
        header_problems(header_fix(header)->0).len() == 0,
        header_fix(header_fix(header)->0) is None,
{
    header::law_canonical_header_is_valid(header);
    header::law_canonical_is_idempotent(header);
    law_valid_headers_have_no_problems(header_fix(header)->0);
}

/// The machine form of a problem within a header.
#[derive(Clone, Copy)]
struct Located {
    start: usize,
    end: usize,
    problem: Problem,
}

spec fn located(v: Seq<Located>) -> Seq<HeaderProblem> {
    Seq::new(
        v.len(),
        |i: int|
            HeaderProblem {
                start: v[i].start as int,
                end: v[i].end as int,
                problem: v[i].problem,
            },
    )
}

fn header_problems_of(header: &[char]) -> (r: Vec<Located>)
    ensures
        located(r@) == header_problems(header@),
        forall|i: int|
            0 <= i < r@.len() ==> (#[trigger] r@[i]).start <= r@[i].end <= header@.len(),
{
    let ghost h = header@;
    let parts = header::fields_of(header);
    let ghost shown = text::views(parts@);
    let whole: usize = header.len();
    proof {
        lemma_field_places(h);
        assert(shown[0] == parts@[0]@);
        if parts@.len() >= 2 {
            assert(shown[1] == parts@[1]@);
        }
        if parts@.len() >= 3 {
            assert(shown[2] == parts@[2]@);
        }
        if parts@.len() >= 4 {
            assert(shown[3] == parts@[3]@);
        }
    }
    let mut out: Vec<Located> = Vec::new();
    if !text::is_str(parts[0], header::VAULT_MARKER) {
        let end: usize = if parts[0].len() == 0 && whole > 0 {
            1
        } else {
            parts[0].len()
        };
        out.push(Located { start: 0, end, problem: Problem::InvalidMarker });
    }
    proof {
        assert(located(out@) =~= marker_problems(h));
    }
    let first = parts.len() >= 2 && text::is_str(parts[1], "1.1");
    let second = parts.len() >= 2 && text::is_str(parts[1], "1.2");
    if parts.len() < 2 {
        out.push(Located { start: 0, end: whole, problem: Problem::VersionMissing });
    } else if !first && !second {
        let start: usize = parts[0].len() + 1;
        out.push(
            Located { start, end: start + parts[1].len(), problem: Problem::UnsupportedVersion },
        );
    }
    proof {
        assert(located(out@) =~= marker_problems(h) + version_problems(h));
    }
    if parts.len() < 3 {
        out.push(Located { start: 0, end: whole, problem: Problem::CipherMissing });
    } else if !text::is_str(parts[2], header::CIPHER) {
        let start: usize = parts[0].len() + 1 + parts[1].len() + 1;
        out.push(
            Located { start, end: start + parts[2].len(), problem: Problem::UnsupportedCipher },
        );
    }
    proof {
        assert(located(out@) =~= marker_problems(h) + version_problems(h) + cipher_problems(h));
    }
    if first && parts.len() != 3 {
        out.push(Located { start: 0, end: whole, problem: Problem::UnexpectedFields });
    } else if second && (parts.len() != 4 || parts[3].len() == 0) {
        out.push(Located { start: 0, end: whole, problem: Problem::MissingVaultId });
    }
    proof {
        assert(located(out@) =~= header_problems(h));
    }
    out
}

fn header_fix_of(header: &[char]) -> (r: Option<String>)
    ensures
        match r {
            Some(line) => header_fix(header@) == Some(line@),
            None => header_fix(header@) is None,
        },
{
    match header::canonical_chars(header) {
        Some(line) => {
            if text::is_str(header, line.as_str()) {
                None
            } else {
                Some(line)
            }
        },
        None => None,
    }
}

// ---------------------------------------------------------------------------
// One payload
// ---------------------------------------------------------------------------

pub open spec fn hex_digit(c: char) -> bool {
    text::ascii_digit(c) || 'a' <= c <= 'f' || 'A' <= c <= 'F'
}

/// A payload line is made of whole bytes in hexadecimal, at least one.
pub open spec fn payload_line(line: Seq<char>) -> bool {
    &&& line.len() > 0
    &&& line.len() % 2 == 0
    &&& forall|i: int| 0 <= i < line.len() ==> hex_digit(#[trigger] line[i])
}

/// A finding for every line that is no payload line.
pub open spec fn line_findings(s: Seq<char>, payload: Seq<(int, int)>) -> Seq<Finding>
    decreases payload.len(),
{
    if payload.len() == 0 {
        Seq::empty()
    } else {
        let before = line_findings(s, payload.drop_last());
        let last = payload.last();
        if payload_line(content(s, last)) {
            before
        } else {
            before.push(
                Finding {
                    start: last.0,
                    end: last.1,
                    problem: Problem::InvalidPayload,
                    fix: None,
                },
            )
        }
    }
}

pub open spec fn payload_findings(
    s: Seq<char>,
    header: (int, int),
    payload: Seq<(int, int)>,
) -> Seq<Finding> {
    if payload.len() == 0 {
        seq![
            Finding {
                start: header.0,
                end: header.1,
                problem: Problem::EmptyPayload,
                fix: None,
            },
        ]
    } else {
        line_findings(s, payload)
    }
}

/// The findings in a header. Each of them offers the same fix, which replaces
/// the whole header.
pub open spec fn header_findings(s: Seq<char>, header: (int, int)) -> Seq<Finding> {
    let line = content(s, header);
    let problems = header_problems(line);
    let fix = match header_fix(line) {
        Some(replacement) => Some((header.0, header.1, replacement)),
        None => None,
    };
    Seq::new(
        problems.len(),
        |i: int|
            Finding {
                start: header.0 + problems[i].start,
                end: header.0 + problems[i].end,
                problem: problems[i].problem,
                fix,
            },
    )
}

/// What is wrong with a payload that has the given header and lines.
pub open spec fn block_findings(
    s: Seq<char>,
    header: (int, int),
    payload: Seq<(int, int)>,
) -> Seq<Finding> {
    header_findings(s, header) + payload_findings(s, header, payload)
}

/// Payload lines come with no repair.
pub proof fn lemma_lines_offer_no_fix(s: Seq<char>, payload: Seq<(int, int)>)
    ensures
        forall|i: int|
            0 <= i < line_findings(s, payload).len() ==> (
            #[trigger] line_findings(s, payload)[i]).fix is None,
    decreases payload.len(),
{
    if payload.len() > 0 {
        lemma_lines_offer_no_fix(s, payload.drop_last());
    }
}

fn is_payload_line(line: &[char]) -> (r: bool)
    ensures
        r == payload_line(line@),
{
    if line.len() == 0 || line.len() % 2 != 0 {
        return false;
    }
    for i in 0..line.len()
        invariant
            forall|k: int| 0 <= k < i ==> hex_digit(#[trigger] line@[k]),
    {
        let c = line[i];
        if !(text::is_ascii_digit(c) || ('a' <= c && c <= 'f') || ('A' <= c && c <= 'F')) {
            proof {
                assert(!hex_digit(line@[i as int]));
            }
            return false;
        }
    }
    true
}

/// The issue that shows a problem of the text between `start` and `end`; `fix`
/// is the span to replace and the text to put there.
fn issue(
    chars: &[char],
    start: usize,
    end: usize,
    problem: Problem,
    fix: Option<(usize, usize, &String)>,
) -> (r: ValidationIssue)
    requires
        start <= end <= chars@.len(),
        text::byte_len(chars@) <= usize::MAX,
        fix matches Some((from, to, _)) ==> from <= chars@.len() && to <= chars@.len(),
    ensures
        shows(
            r,
            chars@,
            Finding {
                start: start as int,
                end: end as int,
                problem,
                fix: match fix {
                    Some((from, to, replacement)) => Some((from as int, to as int, replacement@)),
                    None => None,
                },
            },
        ),
{
    let stop: usize = if end > start {
        end
    } else if start < chars.len() {
        start + 1
    } else {
        start
    };
    let edit = match fix {
        Some((from, to, replacement)) => Some(
            TextEdit {
                range: document::range_of(chars, from, to),
                new_text: replacement.clone(),
            },
        ),
        None => None,
    };
    ValidationIssue {
        diagnostic: Diagnostic {
            range: document::range_of(chars, start, stop),
            severity: DiagnosticSeverity::Error,
            code: problem.code().to_string(),
            source: DIAGNOSTIC_SOURCE.to_string(),
            message: problem.message().to_string(),
        },
        fix: edit,
    }
}

/// The issues of the payload that has the given header and lines.
fn validate_block(
    chars: &[char],
    header: (usize, usize),
    payload: &Vec<(usize, usize)>,
) -> (r: Vec<ValidationIssue>)
    requires
        text::byte_len(chars@) <= usize::MAX,
        in_text(chars@, (header.0 as int, header.1 as int)),
        all_in_text(chars@, spans(payload@)),
    ensures
        all_shown(
            r@,
            chars@,
            block_findings(chars@, (header.0 as int, header.1 as int), spans(payload@)),
        ),
{
    let ghost s = chars@;
    let ghost at = (header.0 as int, header.1 as int);
    let line: &[char] = &chars[header.0..header.1];
    let fix = header_fix_of(line);
    let problems = header_problems_of(line);
    let ghost wanted = header_findings(s, at);
    let mut issues: Vec<ValidationIssue> = Vec::new();
    proof {
        assert(line@ == content(s, at));
    }
    for i in 0..problems.len()
        invariant
            s == chars@,
            text::byte_len(chars@) <= usize::MAX,
            at == (header.0 as int, header.1 as int),
            in_text(s, at),
            line@ == content(s, at),
            match fix {
                Some(line) => header_fix(content(s, at)) == Some(line@),
                None => header_fix(content(s, at)) is None,
            },
            located(problems@) == header_problems(content(s, at)),
            forall|k: int|
                0 <= k < problems@.len() ==> (#[trigger] problems@[k]).start <= problems@[k].end
                    <= line@.len(),
            wanted == header_findings(s, at),
            all_shown(issues@, s, wanted.take(i as int)),
    {
        let problem = problems[i];
        proof {
            let p = located(problems@)[i as int];
            assert(p.start == problem.start && p.end == problem.end && p.problem
                == problem.problem);
        }
        let offered = match &fix {
            Some(replacement) => Some((header.0, header.1, replacement)),
            None => None,
        };
        issues.push(
            issue(
                chars,
                header.0 + problem.start,
                header.0 + problem.end,
                problem.problem,
                offered,
            ),
        );
        proof {
            assert(wanted.take(i + 1) =~= wanted.take(i as int).push(wanted[i as int]));
        }
    }
    proof {
        assert(wanted.take(wanted.len() as int) =~= wanted);
    }
    let ghost lines = spans(payload@);
    if payload.len() == 0 {
        issues.push(issue(chars, header.0, header.1, Problem::EmptyPayload, None));
    } else {
        proof {
            assert(wanted + line_findings(s, lines.take(0)) =~= wanted);
        }
        for i in 0..payload.len()
            invariant
                s == chars@,
                text::byte_len(chars@) <= usize::MAX,
                lines == spans(payload@),
                all_in_text(s, lines),
                all_shown(issues@, s, wanted + line_findings(s, lines.take(i as int))),
        {
            let (start, end) = payload[i];
            proof {
                assert(lines[i as int] == (start as int, end as int));
                assert(lines.take(i + 1).drop_last() =~= lines.take(i as int));
            }
            if !is_payload_line(&chars[start..end]) {
                issues.push(issue(chars, start, end, Problem::InvalidPayload, None));
                proof {
                    let before = line_findings(s, lines.take(i as int));
                    let next = line_findings(s, lines.take(i + 1));
                    assert(wanted + next =~= (wanted + before).push(next.last()));
                }
            }
        }
        proof {
            assert(lines.take(lines.len() as int) =~= lines);
        }
    }
    issues
}

// ---------------------------------------------------------------------------
// Payloads inside YAML
// ---------------------------------------------------------------------------

/// The column of a `!vault` tag that opens a block scalar. The tag stands at the
/// start of the line, behind a colon or behind a dash, and a bar follows it.
pub open spec fn tag_column(line: Seq<char>) -> Option<int> {
    if text::starts_with(text::trim_start(line), seq!['#']) {
        None
    } else {
        match text::find(line, VAULT_TAG@) {
            None => None,
            Some(column) => {
                let prefix = text::trim_end(line.take(column));
                if prefix.len() > 0 && prefix.last() != ':' && prefix.last() != '-' {
                    None
                } else if text::starts_with(
                    text::trim_start(line.skip(column + VAULT_TAG@.len())),
                    seq!['|'],
                ) {
                    Some(column)
                } else {
                    None
                }
            },
        }
    }
}

/// A tag that is found lies within its line.
pub proof fn lemma_tag_in_line(line: Seq<char>)
    ensures
        tag_column(line) matches Some(column) ==> 0 <= column <= line.len(),
{
    text::lemma_find(line, VAULT_TAG@);
}

/// The first line from `index` on that is not blank.
pub open spec fn next_visible(s: Seq<char>, lines: Seq<(int, int)>, index: int) -> int
    decreases lines.len() - index,
{
    if 0 <= index < lines.len() && blank_line(content(s, lines[index])) {
        next_visible(s, lines, index + 1)
    } else {
        index
    }
}

/// The first line from `index` on that is blank or indented less than `depth`.
pub open spec fn block_end(s: Seq<char>, lines: Seq<(int, int)>, index: int, depth: nat) -> int
    decreases lines.len() - index,
{
    if 0 <= index < lines.len() && !blank_line(content(s, lines[index])) && indent(
        content(s, lines[index]),
    ) >= depth {
        block_end(s, lines, index + 1, depth)
    } else {
        index
    }
}

/// The lines from `first` up to `stop`, trimmed.
pub open spec fn trimmed_lines(
    s: Seq<char>,
    lines: Seq<(int, int)>,
    first: int,
    stop: int,
) -> Seq<(int, int)> {
    lines.subrange(first, stop).map_values(|line: (int, int)| trimmed_span(s, line))
}

/// The findings in the tagged block scalars from the line `index` on.
pub open spec fn inline_findings(s: Seq<char>, lines: Seq<(int, int)>, index: int) -> Seq<Finding>
    decreases lines.len() - index,
{
    if !(0 <= index < lines.len()) {
        Seq::empty()
    } else {
        let line = content(s, lines[index]);
        match tag_column(line) {
            None => inline_findings(s, lines, index + 1),
            Some(column) => {
                let next = next_visible(s, lines, index + 1);
                if next >= lines.len() || indent(content(s, lines[next])) <= indent(line) {
                    seq![
                        Finding {
                            start: lines[index].0 + column,
                            end: lines[index].1,
                            problem: Problem::MissingHeader,
                            fix: None,
                        },
                    ] + inline_findings(s, lines, index + 1)
                } else {
                    let stop = block_end(s, lines, next + 1, indent(content(s, lines[next])));
                    let header = trimmed_span(s, lines[next]);
                    let payload = trimmed_lines(s, lines, next + 1, stop);
                    proof {
                        lemma_next_visible(s, lines, index + 1);
                        lemma_block_end(s, lines, next + 1, indent(content(s, lines[next])));
                    }
                    block_findings(s, header, payload) + inline_findings(s, lines, stop)
                }
            },
        }
    }
}

pub proof fn lemma_next_visible(s: Seq<char>, lines: Seq<(int, int)>, index: int)
    requires
        0 <= index <= lines.len(),
    ensures
        index <= next_visible(s, lines, index) <= lines.len(),
        next_visible(s, lines, index) < lines.len() ==> !blank_line(
            content(s, lines[next_visible(s, lines, index)]),
        ),
    decreases lines.len() - index,
{
    if index < lines.len() && blank_line(content(s, lines[index])) {
        lemma_next_visible(s, lines, index + 1);
    }
}

pub proof fn lemma_block_end(s: Seq<char>, lines: Seq<(int, int)>, index: int, depth: nat)
    requires
        0 <= index <= lines.len(),
    ensures
        index <= block_end(s, lines, index, depth) <= lines.len(),
    decreases lines.len() - index,
{
    if index < lines.len() && !blank_line(content(s, lines[index])) && indent(
        content(s, lines[index]),
    ) >= depth {
        lemma_block_end(s, lines, index + 1, depth);
    }
}

fn vault_tag_column(line: &[char]) -> (r: Option<usize>)
    ensures
        match r {
            Some(column) => tag_column(line@) == Some(column as int) && column <= line@.len(),
            None => tag_column(line@) is None,
        },
{
    let hash: [char; 1] = ['#'];
    let bar: [char; 1] = ['|'];
    proof {
        assert(hash@ =~= seq!['#']);
        assert(bar@ =~= seq!['|']);
    }
    if text::has_prefix(text::trimmed_start(line), hash.as_slice()) {
        return None;
    }
    let length: usize = line.len();
    let tag = text::chars_of(VAULT_TAG);
    match text::found(line, tag.as_slice()) {
        None => None,
        Some(column) => {
            proof {
                assert(line@.subrange(0, column as int) =~= line@.take(column as int));
                assert(line@.subrange(column + tag@.len(), line@.len() as int) =~= line@.skip(
                    column + tag@.len(),
                ));
            }
            let prefix = text::trimmed_end(&line[0..column]);
            if prefix.len() > 0 && prefix[prefix.len() - 1] != ':' && prefix[prefix.len() - 1]
                != '-' {
                return None;
            }
            let behind: &[char] = &line[column + tag.len()..length];
            if text::has_prefix(text::trimmed_start(behind), bar.as_slice()) {
                Some(column)
            } else {
                None
            }
        },
    }
}

proof fn lemma_all_shown_add(
    a: Seq<ValidationIssue>,
    b: Seq<ValidationIssue>,
    s: Seq<char>,
    x: Seq<Finding>,
    y: Seq<Finding>,
)
    requires
        all_shown(a, s, x),
        all_shown(b, s, y),
    ensures
        all_shown(a + b, s, x + y),
{
    assert forall|i: int| 0 <= i < (a + b).len() implies shows(
        #[trigger] (a + b)[i],
        s,
        (x + y)[i],
    ) by {
        if i < a.len() {
            assert((a + b)[i] == a[i]);
        } else {
            assert((a + b)[i] == b[i - a.len()]);
        }
    }
}

fn validate_inline_blocks(chars: &[char], lines: &Vec<(usize, usize)>) -> (r: Vec<ValidationIssue>)
    requires
        text::byte_len(chars@) <= usize::MAX,
        all_in_text(chars@, spans(lines@)),
    ensures
        all_shown(r@, chars@, inline_findings(chars@, spans(lines@), 0)),
{
    let ghost s = chars@;
    let ghost all = spans(lines@);
    let mut issues: Vec<ValidationIssue> = Vec::new();
    let mut index: usize = 0;
    let ghost mut done: Seq<Finding> = Seq::empty();
    proof {
        assert(done + inline_findings(s, all, 0) =~= inline_findings(s, all, 0));
    }
    while index < lines.len()
        invariant
            s == chars@,
            all == spans(lines@),
            text::byte_len(chars@) <= usize::MAX,
            all_in_text(s, all),
            index <= all.len(),
            all_shown(issues@, s, done),
            done + inline_findings(s, all, index as int) == inline_findings(s, all, 0),
        decreases all.len() - index,
    {
        let (start, end) = lines[index];
        proof {
            assert(all[index as int] == (start as int, end as int));
            assert(in_text(s, all[index as int]));
        }
        let line: &[char] = &chars[start..end];
        match vault_tag_column(line) {
            None => {
                index = index + 1;
            },
            Some(column) => {
                let tag_indent = line_indent(line);
                let mut next: usize = index + 1;
                while next < lines.len() && is_blank_line(&chars[lines[next].0..lines[next].1])
                    invariant
                        s == chars@,
                        all == spans(lines@),
                        all_in_text(s, all),
                        index < next <= all.len(),
                        next_visible(s, all, index + 1) == next_visible(s, all, next as int),
                    decreases all.len() - next,
                {
                    proof {
                        assert(all[next as int] == (lines@[next as int].0 as int, lines@[next
                            as int].1 as int));
                    }
                    next = next + 1;
                }
                let missing = if next < lines.len() {
                    proof {
                        assert(all[next as int] == (lines@[next as int].0 as int, lines@[next
                            as int].1 as int));
                    }
                    line_indent(&chars[lines[next].0..lines[next].1]) <= tag_indent
                } else {
                    true
                };
                if missing {
                    let found = issue(chars, start + column, end, Problem::MissingHeader, None);
                    issues.push(found);
                    proof {
                        let rest = inline_findings(s, all, index + 1);
                        let added = inline_findings(s, all, index as int)[0];
                        assert(inline_findings(s, all, index as int) =~= seq![added] + rest);
                        assert(done.push(added) + rest =~= done + inline_findings(
                            s,
                            all,
                            index as int,
                        ));
                        done = done.push(added);
                    }
                    index = index + 1;
                } else {
                    let depth = line_indent(&chars[lines[next].0..lines[next].1]);
                    let header = trimmed_line(chars, lines[next]);
                    let mut payload: Vec<(usize, usize)> = Vec::new();
                    let mut stop: usize = next + 1;
                    while stop < lines.len() && !is_blank_line(
                        &chars[lines[stop].0..lines[stop].1],
                    ) && line_indent(&chars[lines[stop].0..lines[stop].1]) >= depth
                        invariant
                            s == chars@,
                            all == spans(lines@),
                            all_in_text(s, all),
                            next < stop <= all.len(),
                            spans(payload@) == trimmed_lines(s, all, next + 1, stop as int),
                            all_in_text(s, spans(payload@)),
                            block_end(s, all, next + 1, depth as nat) == block_end(
                                s,
                                all,
                                stop as int,
                                depth as nat,
                            ),
                        decreases all.len() - stop,
                    {
                        let ghost before = payload@;
                        proof {
                            assert(all[stop as int] == (lines@[stop as int].0 as int, lines@[stop
                                as int].1 as int));
                        }
                        payload.push(trimmed_line(chars, lines[stop]));
                        proof {
                            assert(spans(payload@) =~= spans(before).push(
                                trimmed_span(s, all[stop as int]),
                            ));
                            assert(trimmed_lines(s, all, next + 1, stop + 1) =~= trimmed_lines(
                                s,
                                all,
                                next + 1,
                                stop as int,
                            ).push(trimmed_span(s, all[stop as int])));
                        }
                        stop = stop + 1;
                    }
                    let mut found = validate_block(chars, header, &payload);
                    proof {
                        let here = block_findings(
                            s,
                            (header.0 as int, header.1 as int),
                            spans(payload@),
                        );
                        let rest = inline_findings(s, all, stop as int);
                        assert(inline_findings(s, all, index as int) == here + rest);
                        lemma_all_shown_add(issues@, found@, s, done, here);
                        assert((done + here) + rest =~= done + (here + rest));
                        done = done + here;
                    }
                    issues.append(&mut found);
                    index = stop;
                }
            },
        }
    }
    proof {
        assert(inline_findings(s, all, index as int) =~= Seq::<Finding>::empty());
        assert(done + inline_findings(s, all, index as int) =~= done);
    }
    issues
}

// ---------------------------------------------------------------------------
// Documents
// ---------------------------------------------------------------------------

/// The visible lines, trimmed.
pub open spec fn visible_lines(s: Seq<char>, lines: Seq<(int, int)>) -> Seq<(int, int)>
    decreases lines.len(),
{
    if lines.len() == 0 {
        Seq::empty()
    } else {
        let before = visible_lines(s, lines.drop_last());
        if blank_line(content(s, lines.last())) {
            before
        } else {
            before.push(trimmed_span(s, lines.last()))
        }
    }
}

/// Whether the document is meant to be a Vault payload as a whole.
pub open spec fn file_candidate(s: Seq<char>) -> bool {
    let lines = document_lines(s, 0);
    lines.len() > 0 && header::candidate_line(content(s, lines[0]))
}

/// Everything that is wrong with the payloads of a document.
pub open spec fn findings(s: Seq<char>) -> Seq<Finding> {
    let lines = document_lines(s, 0);
    if lines.len() == 0 {
        Seq::empty()
    } else if file_candidate(s) {
        block_findings(s, trimmed_span(s, lines[0]), visible_lines(s, lines.skip(1)))
    } else {
        inline_findings(s, lines, 0)
    }
}

fn validate_full_file(chars: &[char], lines: &Vec<(usize, usize)>) -> (r: Vec<ValidationIssue>)
    requires
        text::byte_len(chars@) <= usize::MAX,
        lines@.len() > 0,
        all_in_text(chars@, spans(lines@)),
    ensures
        all_shown(
            r@,
            chars@,
            block_findings(
                chars@,
                trimmed_span(chars@, spans(lines@)[0]),
                visible_lines(chars@, spans(lines@).skip(1)),
            ),
        ),
{
    let ghost s = chars@;
    let ghost all = spans(lines@);
    proof {
        assert(in_text(s, all[0]));
    }
    let header = trimmed_line(chars, lines[0]);
    let mut payload: Vec<(usize, usize)> = Vec::new();
    proof {
        assert(all.skip(1).take(0) =~= Seq::<(int, int)>::empty());
        assert(spans(payload@) =~= visible_lines(s, all.skip(1).take(0)));
    }
    for i in 1..lines.len()
        invariant
            s == chars@,
            all == spans(lines@),
            all_in_text(s, all),
            lines@.len() > 0,
            spans(payload@) == visible_lines(s, all.skip(1).take(i - 1)),
            all_in_text(s, spans(payload@)),
    {
        let (start, end) = lines[i];
        let ghost before = payload@;
        proof {
            assert(all[i as int] == (start as int, end as int));
            assert(in_text(s, all[i as int]));
            assert(all.skip(1).take(i as int).drop_last() =~= all.skip(1).take(i - 1));
            assert(all.skip(1).take(i as int).last() == all[i as int]);
        }
        if !is_blank_line(&chars[start..end]) {
            payload.push(trimmed_line(chars, (start, end)));
            proof {
                assert(spans(payload@) =~= spans(before).push(trimmed_span(s, all[i as int])));
            }
        }
    }
    proof {
        assert(all.skip(1).take(lines@.len() - 1) =~= all.skip(1));
    }
    validate_block(chars, header, &payload)
}

/// What an editor gets for everything that is wrong with a document.
pub open spec fn issues_of(s: Seq<char>) -> Seq<Shown> {
    Seq::new(findings(s).len(), |i: int| shown_issue(s, findings(s)[i]))
}

/// Everything that is wrong with the Vault payloads of a document.
pub fn validate_vault_document(text: &str) -> (r: Vec<ValidationIssue>)
    ensures
        issue_views(r@) == issues_of(text@),
{
    let issues = document_issues(text);
    proof {
        assert(issue_views(issues@) =~= issues_of(text@));
    }
    issues
}

fn document_issues(text: &str) -> (r: Vec<ValidationIssue>)
    ensures
        all_shown(r@, text@, findings(text@)),
{
    let length: usize = text::str_len(text);
    let held = text::chars_of(text);
    let chars: &[char] = held.as_slice();
    let all = lines(chars);
    proof {
        assert(length == text::byte_len(chars@));
        if all@.len() > 0 {
            assert(spans(all@)[0] == (all@[0].0 as int, all@[0].1 as int));
            assert(in_text(chars@, spans(all@)[0]));
        }
    }
    if all.len() == 0 {
        return Vec::new();
    }
    if header::full_file_candidate(&chars[all[0].0..all[0].1]) {
        return validate_full_file(chars, &all);
    }
    validate_inline_blocks(chars, &all)
}

/// Whether the first line shows that the file is meant to be a Vault payload,
/// even where the payload is damaged.
pub fn is_vault_file_candidate(text: &str) -> (r: bool)
    ensures
        r == file_candidate(text@),
{
    let held = text::chars_of(text);
    let chars: &[char] = held.as_slice();
    let all = lines(chars);
    if all.len() == 0 {
        return false;
    }
    proof {
        assert(spans(all@)[0] == (all@[0].0 as int, all@[0].1 as int));
        assert(in_text(chars@, spans(all@)[0]));
    }
    header::full_file_candidate(&chars[all[0].0..all[0].1])
}

/// Whether a selection touches a range: a cursor lies in it or at its end, a
/// selection of text shares text with it.
pub open spec fn touches(selection: Range, range: Range) -> bool {
    if selection.start == selection.end {
        !selection.start.before(range.start) && !range.end.before(selection.start)
    } else {
        selection.start.before(range.end) && range.start.before(selection.end)
    }
}

pub fn range_touches(selection: Range, diagnostic: Range) -> (r: bool)
    ensures
        r == touches(selection, diagnostic),
{
    if selection.start == selection.end {
        !selection.start.is_before(diagnostic.start) && !diagnostic.end.is_before(selection.start)
    } else {
        selection.start.is_before(diagnostic.end) && diagnostic.start.is_before(selection.end)
    }
}

// ---------------------------------------------------------------------------
// Laws
// ---------------------------------------------------------------------------

/// A finding points into the text, and what it offers as a repair is a valid
/// header in place of a part of the text.
pub open spec fn sound(s: Seq<char>, finding: Finding) -> bool {
    &&& in_text(s, (finding.start, finding.end))
    &&& match finding.fix {
        Some((start, end, replacement)) => in_text(s, (start, end)) && header::valid_header(
            replacement,
        ),
        None => true,
    }
}

proof fn lemma_document_lines(s: Seq<char>, from: int)
    requires
        0 <= from <= s.len(),
    ensures
        all_in_text(s, document_lines(s, from)),
    decreases s.len() - from,
{
    let n = text::line_len(s.skip(from));
    lemma_line_len_bounds(s.skip(from));
    if 0 <= from < from + n <= s.len() {
        lemma_document_lines(s, from + n);
        text::lemma_suffix_len_bounds(s.subrange(from, from + n), text::among(seq!['\r', '\n']));
        let rest = document_lines(s, from + n);
        assert forall|i: int| 0 <= i < document_lines(s, from).len() implies in_text(
            s,
            #[trigger] document_lines(s, from)[i],
        ) by {
            if i > 0 {
                assert(document_lines(s, from)[i] == rest[i - 1]);
            }
        }
    }
}

proof fn lemma_block_sound(s: Seq<char>, header: (int, int), payload: Seq<(int, int)>)
    requires
        in_text(s, header),
        all_in_text(s, payload),
    ensures
        forall|i: int|
            0 <= i < block_findings(s, header, payload).len() ==> sound(
                s,
                #[trigger] block_findings(s, header, payload)[i],
            ),
{
    let line = content(s, header);
    lemma_problems_in_header(line);
    if header_fix(line) is Some {
        header::law_canonical_header_is_valid(line);
    }
    lemma_lines_sound(s, payload);
    let first = header_findings(s, header);
    let second = payload_findings(s, header, payload);
    assert forall|i: int| 0 <= i < (first + second).len() implies sound(
        s,
        #[trigger] (first + second)[i],
    ) by {
        if i < first.len() {
            let p = header_problems(line)[i];
            assert(0 <= p.start <= p.end <= line.len());
        } else {
            assert((first + second)[i] == second[i - first.len()]);
        }
    }
}

proof fn lemma_lines_sound(s: Seq<char>, payload: Seq<(int, int)>)
    requires
        all_in_text(s, payload),
    ensures
        forall|i: int|
            0 <= i < line_findings(s, payload).len() ==> sound(
                s,
                #[trigger] line_findings(s, payload)[i],
            ),
    decreases payload.len(),
{
    if payload.len() > 0 {
        lemma_lines_sound(s, payload.drop_last());
        assert(in_text(s, payload[payload.len() - 1]));
        let before = line_findings(s, payload.drop_last());
        let all = line_findings(s, payload);
        assert forall|i: int| 0 <= i < all.len() implies sound(s, #[trigger] all[i]) by {
            if i < before.len() {
                assert(all[i] == before[i]);
            }
        }
    }
}

proof fn lemma_inline_sound(s: Seq<char>, lines: Seq<(int, int)>, index: int)
    requires
        0 <= index,
        all_in_text(s, lines),
    ensures
        forall|i: int|
            0 <= i < inline_findings(s, lines, index).len() ==> sound(
                s,
                #[trigger] inline_findings(s, lines, index)[i],
            ),
    decreases lines.len() - index,
{
    if index < lines.len() {
        let line = content(s, lines[index]);
        let all = inline_findings(s, lines, index);
        match tag_column(line) {
            None => {
                lemma_inline_sound(s, lines, index + 1);
                assert(all == inline_findings(s, lines, index + 1));
            },
            Some(column) => {
                text::lemma_find(line, VAULT_TAG@);
                assert(in_text(s, lines[index]));
                let next = next_visible(s, lines, index + 1);
                lemma_next_visible(s, lines, index + 1);
                if next >= lines.len() || indent(content(s, lines[next])) <= indent(line) {
                    lemma_inline_sound(s, lines, index + 1);
                    let rest = inline_findings(s, lines, index + 1);
                    assert forall|i: int| 0 <= i < all.len() implies sound(s, #[trigger] all[i]) by {
                        if i > 0 {
                            assert(all[i] == rest[i - 1]);
                        }
                    }
                } else {
                    let depth = indent(content(s, lines[next]));
                    let stop = block_end(s, lines, next + 1, depth);
                    lemma_block_end(s, lines, next + 1, depth);
                    lemma_inline_sound(s, lines, stop);
                    let header = trimmed_span(s, lines[next]);
                    let payload = trimmed_lines(s, lines, next + 1, stop);
                    lemma_trimmed_span(s, lines[next]);
                    assert forall|i: int| 0 <= i < payload.len() implies in_text(
                        s,
                        #[trigger] payload[i],
                    ) by {
                        lemma_trimmed_span(s, lines[next + 1 + i]);
                    }
                    lemma_block_sound(s, header, payload);
                    let here = block_findings(s, header, payload);
                    let rest = inline_findings(s, lines, stop);
                    assert forall|i: int| 0 <= i < all.len() implies sound(s, #[trigger] all[i]) by {
                        if i < here.len() {
                            assert(all[i] == here[i]);
                        } else {
                            assert(all[i] == rest[i - here.len()]);
                        }
                    }
                }
            },
        }
    }
}

proof fn lemma_visible_lines(s: Seq<char>, lines: Seq<(int, int)>)
    requires
        all_in_text(s, lines),
    ensures
        all_in_text(s, visible_lines(s, lines)),
    decreases lines.len(),
{
    if lines.len() > 0 {
        lemma_visible_lines(s, lines.drop_last());
        assert(in_text(s, lines[lines.len() - 1]));
        lemma_trimmed_span(s, lines.last());
    }
}

/// Every finding lies within the document, and every repair on offer is a valid
/// header.
pub proof fn law_findings_are_sound(s: Seq<char>)
    ensures
        forall|i: int| 0 <= i < findings(s).len() ==> sound(s, #[trigger] findings(s)[i]),
{
    let lines = document_lines(s, 0);
    lemma_document_lines(s, 0);
    if lines.len() > 0 {
        assert(in_text(s, lines[0]));
        lemma_trimmed_span(s, lines[0]);
        assert forall|i: int| 0 <= i < lines.skip(1).len() implies in_text(
            s,
            #[trigger] lines.skip(1)[i],
        ) by {
            assert(lines.skip(1)[i] == lines[i + 1]);
        }
        lemma_visible_lines(s, lines.skip(1));
        lemma_block_sound(s, trimmed_span(s, lines[0]), visible_lines(s, lines.skip(1)));
        lemma_inline_sound(s, lines, 0);
    }
}

/// Whether a position lies from one place to another, the second left out.
pub open spec fn lies_in(at: document::Position, range: Range) -> bool {
    !at.before(range.start) && at.before(range.end)
}

/// A cursor touches a range from its start to its end, both included. A selection touches
/// one where a place lies in both.
pub proof fn law_selections_touch_what_they_share(selection: Range, range: Range)
    ensures
        selection.start == selection.end ==> (touches(selection, range) <==> lies_in(
            selection.start,
            range,
        ) || selection.start == range.end && !range.end.before(range.start)),
        selection.start.before(selection.end) && range.start.before(range.end) ==> (touches(
            selection,
            range,
        ) <==> exists|at: document::Position| #[trigger]
            lies_in(at, selection) && lies_in(at, range)),
{
    if selection.start.before(selection.end) && range.start.before(range.end) && touches(
        selection,
        range,
    ) {
        let at = if selection.start.before(range.start) {
            range.start
        } else {
            selection.start
        };
        assert(lies_in(at, selection) && lies_in(at, range));
    }
}

} // verus!
