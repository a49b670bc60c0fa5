//! Writing values into YAML documents: a `!vault` block scalar for a payload,
//! and the simplest safe scalar for a plain text.
use crate::error::AppError;
use crate::error::AppResult;
use crate::error::Failure;
use crate::text;
use vstd::prelude::*;

verus! {

pub const VAULT_HEADER: &'static str = "$ANSIBLE_VAULT;";

pub const INVALID_ENCRYPTED: &'static str = "ansible-vault returned an invalid encrypted value";

/// The characters, besides ASCII letters and digits, that a plain scalar may
/// hold.
pub const SAFE_PUNCTUATION: &'static str = "_./@+-";

// ---------------------------------------------------------------------------
// Encrypted values
// ---------------------------------------------------------------------------

/// The lines of a payload, without empty lines at its end.
pub open spec fn vault_lines(vault_text: Seq<char>) -> Seq<Seq<char>> {
    text::lines(text::trim_end_of(vault_text, seq!['\r', '\n']))
}

/// The tagged block scalar that holds a payload, where the payload begins with a
/// Vault header.
pub open spec fn encrypted_value(vault_text: Seq<char>, indent: Seq<char>) -> Option<Seq<char>> {
    let lines = vault_lines(vault_text);
    if lines.len() > 0 && text::starts_with(lines[0], VAULT_HEADER@) {
        Some("!vault |\n"@ + indent + text::join(lines, seq!['\n'] + indent))
    } else {
        None
    }
}

/// `lead`, the indentation, and the lines with the indentation before each.
fn indented(lead: &str, lines: &Vec<&[char]>, indent: &str) -> (r: String)
    ensures
        r@ == lead@ + indent@ + text::join(text::views(lines@), seq!['\n'] + indent@),
{
    let mut separator = String::new();
    separator.push('\n');
    separator.append(indent);
    let between = text::chars_of(separator.as_str());
    let body = text::joined(lines, between.as_slice());
    let mut out = lead.to_string();
    out.append(indent);
    out.append(body.as_str());
    proof {
        assert(between@ =~= seq!['\n'] + indent@);
    }
    out
}

/// Writes a payload as a tagged block scalar.
pub fn format_encrypted_value(vault_text: &str, indent: &str) -> (r: AppResult<String>)
    ensures
        match r {
            Ok(value) => encrypted_value(vault_text@, indent@) == Some(value@),
            Err(error) => encrypted_value(vault_text@, indent@) is None && error@ == Failure::User(
                INVALID_ENCRYPTED@,
            ),
        },
{
    let ends: [char; 2] = ['\r', '\n'];
    proof {
        assert(ends@ =~= seq!['\r', '\n']);
    }
    let held = text::chars_of(vault_text);
    let lines = text::lines_of(text::trimmed_end_of(held.as_slice(), ends.as_slice()));
    let marker = text::chars_of(VAULT_HEADER);
    proof {
        if lines@.len() > 0 {
            assert(text::views(lines@)[0] == lines@[0]@);
        }
    }
    if lines.len() == 0 || !text::has_prefix(lines[0], marker.as_slice()) {
        return Err(AppError::told(INVALID_ENCRYPTED));
    }
    Ok(indented("!vault |\n", &lines, indent))
}

// ---------------------------------------------------------------------------
// Numbers
// ---------------------------------------------------------------------------

/// Satisfied by ASCII digits.
pub open spec fn digit() -> spec_fn(char) -> bool {
    |c: char| text::ascii_digit(c)
}

/// An `e`, perhaps a sign, and digits.
pub open spec fn exponent(s: Seq<char>) -> bool {
    let behind = if s.len() > 1 && (s[1] == '+' || s[1] == '-') {
        s.skip(2)
    } else {
        s.skip(1)
    };
    &&& s.len() > 0
    &&& s[0] == 'e' || s[0] == 'E'
    &&& behind.len() > 0
    &&& text::prefix_len(behind, digit()) == behind.len()
}

/// Digits with at most one point among them, and perhaps an exponent.
pub open spec fn number(s: Seq<char>) -> bool {
    let whole = text::prefix_len(s, digit());
    let behind = s.skip(whole as int);
    let pointed = behind.len() > 0 && behind[0] == '.';
    let fraction = if pointed {
        text::prefix_len(behind.skip(1), digit())
    } else {
        0
    };
    let rest = if pointed {
        behind.skip(1 + fraction as int)
    } else {
        behind
    };
    whole + fraction > 0 && (rest.len() == 0 || exponent(rest))
}

/// What reads as a floating-point number: a number, an infinity or no number,
/// perhaps with a sign.
pub open spec fn float_literal(s: Seq<char>) -> bool {
    let body = if s.len() > 0 && (s[0] == '+' || s[0] == '-') {
        s.skip(1)
    } else {
        s
    };
    ||| text::lowered(body) == "inf"@
    ||| text::lowered(body) == "infinity"@
    ||| text::lowered(body) == "nan"@
    ||| number(body)
}

fn leading_digits(s: &[char]) -> (n: usize)
    ensures
        n == text::prefix_len(s@, digit()),
        n <= s@.len(),
{
    let mut n: usize = 0;
    while n < s.len() && text::is_ascii_digit(s[n])
        invariant
            n <= s@.len(),
            forall|k: int| 0 <= k < n ==> text::ascii_digit(#[trigger] s@[k]),
        decreases s@.len() - n,
    {
        n = n + 1;
    }
    proof {
        text::lemma_prefix_len(s@, digit(), n as int);
    }
    n
}

fn is_exponent(s: &[char]) -> (r: bool)
    ensures
        r == exponent(s@),
{
    if s.len() == 0 || (s[0] != 'e' && s[0] != 'E') {
        return false;
    }
    let from: usize = if s.len() > 1 && (s[1] == '+' || s[1] == '-') {
        2
    } else {
        1
    };
    proof {
        assert(s@.subrange(from as int, s@.len() as int) =~= s@.skip(from as int));
    }
    let behind: &[char] = &s[from..s.len()];
    behind.len() > 0 && leading_digits(behind) == behind.len()
}

fn is_number(s: &[char]) -> (r: bool)
    ensures
        r == number(s@),
{
    let whole = leading_digits(s);
    proof {
        assert(s@.subrange(whole as int, s@.len() as int) =~= s@.skip(whole as int));
    }
    let behind: &[char] = &s[whole..s.len()];
    if behind.len() > 0 && behind[0] == '.' {
        let after: &[char] = &behind[1..behind.len()];
        proof {
            assert(after@ =~= behind@.skip(1));
        }
        let fraction = leading_digits(after);
        let rest: &[char] = &after[fraction..after.len()];
        proof {
            assert(rest@ =~= behind@.skip(1 + fraction as int));
        }
        (whole > 0 || fraction > 0) && (rest.len() == 0 || is_exponent(rest))
    } else {
        whole > 0 && (behind.len() == 0 || is_exponent(behind))
    }
}

/// Whether a text reads as a floating-point number.
pub fn is_float_literal(s: &[char]) -> (r: bool)
    ensures
        r == float_literal(s@),
{
    let from: usize = if s.len() > 0 && (s[0] == '+' || s[0] == '-') {
        1
    } else {
        0
    };
    let body: &[char] = &s[from..s.len()];
    proof {
        assert(s@.subrange(0, s@.len() as int) =~= s@);
        assert(s@.len() > 0 ==> s@.subrange(1, s@.len() as int) =~= s@.skip(1));
    }
    let small = text::lowered_of(body);
    text::is_str(small.as_slice(), "inf") || text::is_str(small.as_slice(), "infinity")
        || text::is_str(small.as_slice(), "nan") || is_number(body)
}

// ---------------------------------------------------------------------------
// Plain texts
// ---------------------------------------------------------------------------

pub open spec fn safe_char(c: char) -> bool {
    text::ascii_alphanumeric(c) || SAFE_PUNCTUATION@.contains(c)
}

/// A text that YAML reads as something else than a string.
pub open spec fn reserved(s: Seq<char>) -> bool {
    let small = text::lowered(s);
    ||| small == "null"@
    ||| small == "~"@
    ||| small == "true"@
    ||| small == "false"@
    ||| small == "yes"@
    ||| small == "no"@
    ||| small == "on"@
    ||| small == "off"@
    ||| float_literal(s)
}

/// A text that can stand in YAML as it is.
pub open spec fn plain_scalar(s: Seq<char>) -> bool {
    &&& s.len() > 0
    &&& forall|i: int| 0 <= i < s.len() ==> safe_char(#[trigger] s[i])
    &&& s[0] != '-'
    &&& !reserved(s)
}

/// A text with every single quote doubled.
pub open spec fn doubled(s: Seq<char>) -> Seq<char>
    decreases s.len(),
{
    if s.len() == 0 {
        s
    } else if s.last() == '\'' {
        doubled(s.drop_last()).push('\'').push('\'')
    } else {
        doubled(s.drop_last()).push(s.last())
    }
}

/// A text on one line, as it is where that is safe, and in single quotes
/// otherwise.
pub open spec fn safe_scalar(s: Seq<char>) -> Seq<char> {
    if plain_scalar(s) {
        s
    } else {
        seq!['\''] + doubled(s) + seq!['\'']
    }
}

/// A text without the given character at its end, if it stands there.
pub open spec fn without_last(s: Seq<char>, c: char) -> Seq<char> {
    if s.len() > 0 && s.last() == c {
        s.drop_last()
    } else {
        s
    }
}

/// A text as a YAML value. One line becomes a scalar on one line, and its line
/// end is dropped. More lines become a block scalar, which says whether the last
/// line has a line feed.
pub open spec fn plaintext_value(s: Seq<char>, indent: Seq<char>) -> Seq<char> {
    let body = without_last(s, '\n');
    let line = without_last(body, '\r');
    if !line.contains('\n') {
        safe_scalar(line)
    } else {
        let lead = if s.last() == '\n' {
            "|\n"@
        } else {
            "|-\n"@
        };
        lead + indent + text::join(text::split_any(body, seq!['\n']), seq!['\n'] + indent)
    }
}

fn is_reserved(s: &[char]) -> (r: bool)
    ensures
        r == reserved(s@),
{
    let held = text::lowered_of(s);
    let small: &[char] = held.as_slice();
    text::is_str(small, "null") || text::is_str(small, "~") || text::is_str(small, "true")
        || text::is_str(small, "false") || text::is_str(small, "yes") || text::is_str(small, "no")
        || text::is_str(small, "on") || text::is_str(small, "off") || is_float_literal(s)
}

fn is_plain_scalar(s: &[char]) -> (r: bool)
    ensures
        r == plain_scalar(s@),
{
    if s.len() == 0 || s[0] == '-' {
        return false;
    }
    let punctuation = text::chars_of(SAFE_PUNCTUATION);
    for i in 0..s.len()
        invariant
            punctuation@ == SAFE_PUNCTUATION@,
            forall|k: int| 0 <= k < i ==> safe_char(#[trigger] s@[k]),
    {
        if !text::is_ascii_alphanumeric(s[i]) && !text::holds(punctuation.as_slice(), s[i]) {
            proof {
                assert(!safe_char(s@[i as int]));
            }
            return false;
        }
    }
    !is_reserved(s)
}

fn push_doubled(out: &mut String, s: &[char])
    ensures
        final(out)@ == old(out)@ + doubled(s@),
{
    let ghost before = out@;
    proof {
        assert(s@.take(0) =~= Seq::<char>::empty());
        assert(before + doubled(s@.take(0)) =~= before);
    }
    for i in 0..s.len()
        invariant
            out@ == before + doubled(s@.take(i as int)),
    {
        proof {
            assert(s@.take(i + 1).drop_last() =~= s@.take(i as int));
        }
        out.push(s[i]);
        if s[i] == '\'' {
            out.push('\'');
        }
        proof {
            assert(out@ =~= before + doubled(s@.take(i + 1)));
        }
    }
    proof {
        assert(s@.take(s@.len() as int) =~= s@);
    }
}

fn yaml_safe_scalar(s: &[char]) -> (r: String)
    ensures
        r@ == safe_scalar(s@),
{
    if is_plain_scalar(s) {
        return text::string_of(s);
    }
    let mut out = String::new();
    out.push('\'');
    push_doubled(&mut out, s);
    out.push('\'');
    proof {
        assert(out@ =~= seq!['\''] + doubled(s@) + seq!['\'']);
    }
    out
}

fn without_last_of(s: &[char], c: char) -> (r: &[char])
    ensures
        r@ == without_last(s@, c),
{
    if s.len() > 0 && s[s.len() - 1] == c {
        proof {
            assert(s@.drop_last() =~= s@.subrange(0, s@.len() - 1));
        }
        &s[0..s.len() - 1]
    } else {
        s
    }
}

/// Writes a text as a YAML value.
pub fn format_plaintext_value(plaintext: &str, indent: &str) -> (r: String)
    ensures
        r@ == plaintext_value(plaintext@, indent@),
{
    let held = text::chars_of(plaintext);
    let whole: &[char] = held.as_slice();
    let body = without_last_of(whole, '\n');
    let line = without_last_of(body, '\r');
    if !text::holds(line, '\n') {
        return yaml_safe_scalar(line);
    }
    let newline: [char; 1] = ['\n'];
    proof {
        assert(newline@ =~= seq!['\n']);
    }
    let lines = text::pieces(body, newline.as_slice());
    if whole.len() > 0 && whole[whole.len() - 1] == '\n' {
        indented("|\n", &lines, indent)
    } else {
        proof {
            assert(plaintext@.len() > 0);
        }
        indented("|-\n", &lines, indent)
    }
}

// ---------------------------------------------------------------------------
// Laws
// ---------------------------------------------------------------------------

/// What YAML reads between single quotes: two quotes stand for one.
pub open spec fn unquoted(s: Seq<char>) -> Seq<char>
    decreases s.len(),
{
    if s.len() == 0 {
        s
    } else if s.len() >= 2 && s[0] == '\'' && s[1] == '\'' {
        seq!['\''] + unquoted(s.skip(2))
    } else {
        seq![s[0]] + unquoted(s.skip(1))
    }
}

proof fn lemma_doubled_first(s: Seq<char>)
    requires
        s.len() > 0,
    ensures
        doubled(s) == (if s[0] == '\'' {
            seq!['\'', '\'']
        } else {
            seq![s[0]]
        }) + doubled(s.drop_first()),
    decreases s.len(),
{
    if s.len() == 1 {
        assert(s.drop_last() =~= Seq::<char>::empty());
        assert(s.drop_first() =~= Seq::<char>::empty());
        assert(doubled(s) =~= (if s[0] == '\'' {
            seq!['\'', '\'']
        } else {
            seq![s[0]]
        }) + doubled(s.drop_first()));
    } else {
        lemma_doubled_first(s.drop_last());
        assert(s.drop_last().drop_first() =~= s.drop_first().drop_last());
        assert(doubled(s) =~= (if s[0] == '\'' {
            seq!['\'', '\'']
        } else {
            seq![s[0]]
        }) + doubled(s.drop_first()));
    }
}

/// Quoting loses nothing: YAML reads a quoted text as the text itself.
pub proof fn law_quoting_is_undone(s: Seq<char>)
    ensures
        unquoted(doubled(s)) == s,
    decreases s.len(),
{
    if s.len() > 0 {
        lemma_doubled_first(s);
        law_quoting_is_undone(s.drop_first());
        let rest = doubled(s.drop_first());
        if s[0] == '\'' {
            assert(doubled(s).skip(2) =~= rest);
        } else {
            assert(doubled(s).skip(1) =~= rest);
        }
        assert(unquoted(doubled(s)) =~= seq![s[0]] + unquoted(rest));
        assert(s =~= seq![s[0]] + s.drop_first());
    }
}

/// A text with a colon, a quote, a blank or any other special character is never
/// written without quotes.
pub proof fn law_only_safe_texts_are_bare(s: Seq<char>, i: int)
    requires
        0 <= i < s.len(),
        !safe_char(s[i]),
    ensures
        safe_scalar(s) == seq!['\''] + doubled(s) + seq!['\''],
{
}

/// Whether a text is a word in any mixture of small and capital letters.
pub open spec fn spells(s: Seq<char>, small: Seq<char>, capital: Seq<char>) -> bool {
    &&& s.len() == small.len()
    &&& s.len() == capital.len()
    &&& forall|i: int| 0 <= i < s.len() ==> #[trigger] s[i] == small[i] || s[i] == capital[i]
}

/// Whether two words are the same, one in small and the other in capital letters.
pub open spec fn two_cases(small: Seq<char>, capital: Seq<char>) -> bool {
    &&& small.len() == capital.len()
    &&& forall|i: int|
        0 <= i < small.len() ==> 'a' <= #[trigger] small[i] <= 'z' && 'A' <= capital[i] <= 'Z'
            && small[i] as u32 == capital[i] as u32 + 32
}

proof fn lemma_lower(c: char)
    ensures
        'A' <= c <= 'Z' ==> text::lower(c) as u32 == c as u32 + 32,
        !('A' <= c <= 'Z') ==> text::lower(c) == c,
{
    if 'A' <= c <= 'Z' {
        assert(c as u8 == c as u32);
    }
}

proof fn lemma_spelled(s: Seq<char>, small: Seq<char>, capital: Seq<char>)
    requires
        two_cases(small, capital),
    ensures
        spells(s, small, capital) <==> text::lowered(s) == small,
{
    if spells(s, small, capital) {
        assert forall|i: int| 0 <= i < s.len() implies text::lower(#[trigger] s[i]) == small[i] by {
            lemma_lower(s[i]);
            assert('a' <= small[i] <= 'z');
            lemma_same_code(text::lower(s[i]), small[i]);
        }
        assert(text::lowered(s) =~= small);
    }
    if text::lowered(s) == small {
        assert(s.len() == small.len());
        assert forall|i: int| 0 <= i < s.len() implies #[trigger] s[i] == small[i] || s[i]
            == capital[i] by {
            lemma_lower(s[i]);
            assert(text::lowered(s)[i] == text::lower(s[i]));
            assert('a' <= small[i] <= 'z');
            lemma_same_code(s[i], capital[i]);
        }
    }
}

proof fn lemma_same_code(a: char, b: char)
    ensures
        (a as u32 == b as u32) == (a == b),
{
}

/// The words that YAML does not read as strings.
pub open spec fn yaml_word(s: Seq<char>) -> bool {
    ||| spells(s, "null"@, "NULL"@)
    ||| s == "~"@
    ||| spells(s, "true"@, "TRUE"@)
    ||| spells(s, "false"@, "FALSE"@)
    ||| spells(s, "yes"@, "YES"@)
    ||| spells(s, "no"@, "NO"@)
    ||| spells(s, "on"@, "ON"@)
    ||| spells(s, "off"@, "OFF"@)
}

/// The words for numbers that have no digits.
pub open spec fn number_word(s: Seq<char>) -> bool {
    ||| spells(s, "inf"@, "INF"@)
    ||| spells(s, "infinity"@, "INFINITY"@)
    ||| spells(s, "nan"@, "NAN"@)
}

proof fn lemma_words(s: Seq<char>)
    ensures
        yaml_word(s) <==> {
            let small = text::lowered(s);
            ||| small == "null"@
            ||| small == "~"@
            ||| small == "true"@
            ||| small == "false"@
            ||| small == "yes"@
            ||| small == "no"@
            ||| small == "on"@
            ||| small == "off"@
        },
        number_word(s) <==> {
            let small = text::lowered(s);
            ||| small == "inf"@
            ||| small == "infinity"@
            ||| small == "nan"@
        },
{
    reveal_strlit("null");
    reveal_strlit("NULL");
    reveal_strlit("~");
    reveal_strlit("true");
    reveal_strlit("TRUE");
    reveal_strlit("false");
    reveal_strlit("FALSE");
    reveal_strlit("yes");
    reveal_strlit("YES");
    reveal_strlit("no");
    reveal_strlit("NO");
    reveal_strlit("on");
    reveal_strlit("ON");
    reveal_strlit("off");
    reveal_strlit("OFF");
    reveal_strlit("inf");
    reveal_strlit("INF");
    reveal_strlit("infinity");
    reveal_strlit("INFINITY");
    reveal_strlit("nan");
    reveal_strlit("NAN");
    lemma_spelled(s, "null"@, "NULL"@);
    lemma_spelled(s, "true"@, "TRUE"@);
    lemma_spelled(s, "false"@, "FALSE"@);
    lemma_spelled(s, "yes"@, "YES"@);
    lemma_spelled(s, "no"@, "NO"@);
    lemma_spelled(s, "on"@, "ON"@);
    lemma_spelled(s, "off"@, "OFF"@);
    lemma_spelled(s, "inf"@, "INF"@);
    lemma_spelled(s, "infinity"@, "INFINITY"@);
    lemma_spelled(s, "nan"@, "NAN"@);
    if s == "~"@ {
        lemma_lower('~');
        assert(text::lowered(s) =~= "~"@);
    }
    if text::lowered(s) == "~"@ {
        assert(text::lowered(s).len() == s.len());
        lemma_lower(s[0]);
        assert(text::lowered(s)[0] == text::lower(s[0]));
        lemma_same_code(s[0], '~');
        assert(s =~= "~"@);
    }
}

/// Whether a text is made of the digits from zero to nine.
pub open spec fn all_digits(s: Seq<char>) -> bool {
    forall|i: int| 0 <= i < s.len() ==> '0' <= #[trigger] s[i] <= '9'
}

/// Nothing, a plus or a minus.
pub open spec fn sign(s: Seq<char>) -> bool {
    s == ""@ || s == "+"@ || s == "-"@
}

/// Whether a text is on one line: it holds no line feed, and no carriage return ends
/// it.
pub open spec fn one_line(s: Seq<char>) -> bool {
    !s.contains('\n') && (s.len() > 0 ==> s.last() != '\r')
}

proof fn lemma_doubled_plain(s: Seq<char>)
    requires
        !s.contains('\''),
    ensures
        doubled(s) == s,
    decreases s.len(),
{
    if s.len() > 0 {
        assert(s.contains(s[s.len() - 1]));
        assert forall|c: char| s.drop_last().contains(c) implies s.contains(c) by {
            let i = choose|i: int| 0 <= i < s.drop_last().len() && s.drop_last()[i] == c;
            assert(s[i] == c);
        }
        lemma_doubled_plain(s.drop_last());
        assert(s.drop_last().push(s.last()) =~= s);
    }
}

proof fn lemma_one_line_value(s: Seq<char>, indent: Seq<char>)
    requires
        one_line(s),
    ensures
        plaintext_value(s, indent) == safe_scalar(s),
{
    if s.len() > 0 {
        assert(s.contains(s[s.len() - 1]));
    }
}

proof fn lemma_digits(s: Seq<char>)
    requires
        all_digits(s),
    ensures
        text::prefix_len(s, digit()) == s.len(),
{
    text::lemma_prefix_len(s, digit(), s.len() as int);
}

/// What can stand between the digits of a number and those of its exponent.
pub open spec fn exponent_mark(s: Seq<char>) -> bool {
    ||| s == "e"@
    ||| s == "E"@
    ||| s == "e+"@
    ||| s == "e-"@
    ||| s == "E+"@
    ||| s == "E-"@
}

proof fn lemma_exponent(mark: Seq<char>, power: Seq<char>)
    requires
        exponent_mark(mark),
        power.len() > 0,
        all_digits(power),
    ensures
        exponent(mark + power),
        !('0' <= (mark + power)[0] <= '9'),
        (mark + power)[0] != '.',
{
    reveal_strlit("e");
    reveal_strlit("E");
    reveal_strlit("e+");
    reveal_strlit("e-");
    reveal_strlit("E+");
    reveal_strlit("E-");
    let rest = mark + power;
    if mark.len() == 2 {
        assert(rest.skip(2) =~= power);
    } else {
        assert(rest.skip(1) =~= power);
        assert(power[0] == rest[1]);
    }
    lemma_digits(power);
}

proof fn lemma_number(
    whole: Seq<char>,
    pointed: bool,
    fraction: Seq<char>,
    rest: Seq<char>,
)
    requires
        all_digits(whole),
        all_digits(fraction),
        !pointed ==> fraction.len() == 0,
        whole.len() + fraction.len() > 0,
        rest.len() > 0 ==> exponent(rest) && !('0' <= rest[0] <= '9') && rest[0] != '.',
    ensures
        number(
            whole + (if pointed {
                seq!['.']
            } else {
                seq![]
            }) + fraction + rest,
        ),
{
    let point = if pointed {
        seq!['.']
    } else {
        Seq::<char>::empty()
    };
    let body = whole + point + fraction + rest;
    let n = whole.len() as int;
    assert forall|k: int| 0 <= k < n implies digit()(#[trigger] body[k]) by {
        assert(body[k] == whole[k]);
    }
    let behind = body.skip(n);
    if pointed {
        assert(body[n] == '.');
        text::lemma_prefix_len(body, digit(), n);
        assert(behind[0] == '.');
        let after = behind.skip(1);
        assert(after =~= fraction + rest);
        assert forall|k: int| 0 <= k < fraction.len() implies digit()(#[trigger] after[k]) by {
            assert(after[k] == fraction[k]);
        }
        if rest.len() > 0 {
            assert(after[fraction.len() as int] == rest[0]);
        }
        text::lemma_prefix_len(after, digit(), fraction.len() as int);
        assert(behind.skip(1 + fraction.len() as int) =~= rest);
    } else {
        assert(behind =~= rest);
        if rest.len() > 0 {
            assert(body[n] == rest[0]);
        }
        text::lemma_prefix_len(body, digit(), n);
    }
}

proof fn lemma_float_is_quoted(first: Seq<char>, body: Seq<char>, indent: Seq<char>)
    requires
        sign(first),
        number(body),
    ensures
        plaintext_value(first + body, indent) == "'"@ + (first + body) + "'"@,
{
    reveal_strlit("");
    reveal_strlit("+");
    reveal_strlit("-");
    reveal_strlit("'");
    let s = first + body;
    assert(""@ =~= Seq::<char>::empty());
    lemma_number_chars(body);
    assert forall|c: char| s.contains(c) implies number_char(c) by {
        let i = choose|i: int| 0 <= i < s.len() && s[i] == c;
        if i >= first.len() {
            assert(number_char(body[i - first.len()]));
        }
    }
    if s.len() > 0 {
        assert(s.contains(s[s.len() - 1]));
    }
    lemma_one_line_value(s, indent);
    lemma_doubled_plain(s);
    text::lemma_prefix_len_bounds(body, digit());
    if first.len() > 0 {
        assert(s.skip(1) =~= body);
    } else {
        assert(s =~= body);
        if body[0] == '+' || body[0] == '-' {
            assert(!digit()(body[0]));
            assert(text::prefix_len(body, digit()) == 0);
            assert(body.skip(0) =~= body);
        }
    }
    assert(float_literal(s));
    assert(plaintext_value(s, indent) =~= "'"@ + s + "'"@);
}

/// A number is never written without quotes, in whatever way it is written: with or
/// without a sign, a point or an exponent.
pub proof fn law_numbers_are_quoted(
    first: Seq<char>,
    whole: Seq<char>,
    point: Seq<char>,
    fraction: Seq<char>,
    mark: Seq<char>,
    power: Seq<char>,
    indent: Seq<char>,
)
    requires
        sign(first),
        all_digits(whole),
        point == ""@ && fraction.len() == 0 || point == "."@,
        all_digits(fraction),
        whole.len() + fraction.len() > 0,
        mark == ""@ && power.len() == 0 || exponent_mark(mark) && power.len() > 0,
        all_digits(power),
    ensures
        ({
            let s = first + (whole + point + fraction + (mark + power));
            plaintext_value(s, indent) == "'"@ + s + "'"@
        }),
{
    reveal_strlit("");
    reveal_strlit(".");
    assert(""@ =~= Seq::<char>::empty());
    let rest = mark + power;
    if power.len() > 0 {
        lemma_exponent(mark, power);
    } else {
        assert(rest =~= Seq::<char>::empty());
    }
    let pointed = point.len() > 0;
    if pointed {
        assert(point =~= seq!['.']);
    }
    lemma_number(whole, pointed, fraction, rest);
    lemma_float_is_quoted(first, whole + point + fraction + rest, indent);
}

/// A text of digits alone keeps every one of them: it is written in quotes.
pub proof fn law_digits_are_quoted(s: Seq<char>, indent: Seq<char>)
    requires
        s.len() > 0,
        all_digits(s),
    ensures
        plaintext_value(s, indent) == "'"@ + s + "'"@,
{
    let none = ""@;
    reveal_strlit("");
    law_numbers_are_quoted(none, s, none, none, none, none, indent);
    assert(none =~= Seq::<char>::empty());
    assert(none + (s + none + none + (none + none)) =~= s);
}

/// A word that YAML reads as something else than a string is never written without
/// quotes, in whatever letter case, and neither is an infinity or what is no number.
pub proof fn law_words_are_quoted(first: Seq<char>, word: Seq<char>, indent: Seq<char>)
    requires
        first == ""@ && yaml_word(word) || sign(first) && number_word(word),
    ensures
        plaintext_value(first + word, indent) == "'"@ + (first + word) + "'"@,
{
    reveal_strlit("");
    reveal_strlit("+");
    reveal_strlit("-");
    reveal_strlit("'");
    reveal_strlit("~");
    let s = first + word;
    lemma_words(word);
    assert(""@ =~= Seq::<char>::empty());
    lemma_word_letters(word);
    assert forall|i: int| 0 <= i < s.len() implies #[trigger] s[i] != '\n' && s[i] != '\r' && s[i]
        != '\'' by {
        if i >= first.len() {
            assert(s[i] == word[i - first.len()]);
        }
    }
    lemma_one_line_value(s, indent);
    lemma_doubled_plain(s);
    if first.len() > 0 {
        assert(s.skip(1) =~= word);
    } else {
        assert(s =~= word);
        assert(word[0] != '+' && word[0] != '-');
    }
    assert(reserved(s));
    assert(plaintext_value(s, indent) =~= "'"@ + s + "'"@);
}

proof fn lemma_word_letters(word: Seq<char>)
    requires
        yaml_word(word) || number_word(word),
    ensures
        word.len() > 0,
        forall|i: int|
            0 <= i < word.len() ==> ('a' <= #[trigger] word[i] <= 'z' || 'A' <= word[i] <= 'Z'
                || word[i] == '~'),
{
    reveal_strlit("null");
    reveal_strlit("NULL");
    reveal_strlit("~");
    reveal_strlit("true");
    reveal_strlit("TRUE");
    reveal_strlit("false");
    reveal_strlit("FALSE");
    reveal_strlit("yes");
    reveal_strlit("YES");
    reveal_strlit("no");
    reveal_strlit("NO");
    reveal_strlit("on");
    reveal_strlit("ON");
    reveal_strlit("off");
    reveal_strlit("OFF");
    reveal_strlit("inf");
    reveal_strlit("INF");
    reveal_strlit("infinity");
    reveal_strlit("INFINITY");
    reveal_strlit("nan");
    reveal_strlit("NAN");
}

/// The characters of which a text can stand in YAML without quotes.
pub open spec fn bare_char(c: char) -> bool {
    ||| 'a' <= c <= 'z'
    ||| 'A' <= c <= 'Z'
    ||| '0' <= c <= '9'
    ||| c == '_' || c == '.' || c == '/' || c == '@' || c == '+' || c == '-'
}

proof fn lemma_bare_char(c: char)
    ensures
        bare_char(c) == safe_char(c),
{
    reveal_strlit("_./@+-");
    let set = SAFE_PUNCTUATION@;
    assert(set =~= seq!['_', '.', '/', '@', '+', '-']);
    assert(set[0] == '_' && set[1] == '.' && set[2] == '/' && set[3] == '@' && set[4] == '+'
        && set[5] == '-');
    if set.contains(c) {
        let i = choose|i: int| 0 <= i < set.len() && set[i] == c;
    }
    if c == '_' || c == '.' || c == '/' || c == '@' || c == '+' || c == '-' {
        assert(set.contains(set[0]) && set.contains(set[1]) && set.contains(set[2])
            && set.contains(set[3]) && set.contains(set[4]) && set.contains(set[5]));
    }
}

/// Whether a value is a text in single quotes: YAML reads the text between them.
pub open spec fn in_quotes(value: Seq<char>, s: Seq<char>) -> bool {
    &&& value.len() >= 2
    &&& value[0] == '\''
    &&& value.last() == '\''
    &&& unquoted(value.subrange(1, value.len() - 1)) == s
}

/// What is written for a text on one line is read as that text again. It stands there
/// as it is only where it is not empty, has no special character, does not begin with
/// a dash, and is no word that YAML reads otherwise; in all other cases it stands in
/// single quotes.
pub proof fn law_one_line_is_read_as_it_was(s: Seq<char>, indent: Seq<char>)
    requires
        one_line(s),
    ensures
        ({
            let value = plaintext_value(s, indent);
            if value == s {
                &&& s.len() > 0
                &&& s[0] != '-'
                &&& forall|i: int| 0 <= i < s.len() ==> bare_char(#[trigger] s[i])
                &&& !yaml_word(s)
                &&& !number_word(s)
                &&& !all_digits(s)
            } else {
                in_quotes(value, s)
            }
        }),
        plaintext_value(s.push('\n'), indent) == plaintext_value(s, indent),
        plaintext_value(s.push('\r').push('\n'), indent) == plaintext_value(s, indent),
{
    lemma_one_line_value(s, indent);
    lemma_words(s);
    let value = plaintext_value(s, indent);
    let quoted = seq!['\''] + doubled(s) + seq!['\''];
    if plain_scalar(s) {
        assert forall|i: int| 0 <= i < s.len() implies bare_char(#[trigger] s[i]) by {
            lemma_bare_char(s[i]);
        }
        if all_digits(s) {
            law_digits_are_quoted(s, indent);
            assert(value.len() == s.len());
            reveal_strlit("'");
        }
        if number_word(s) {
            reveal_strlit("");
            assert(""@ + s =~= s);
            law_words_are_quoted(""@, s, indent);
            reveal_strlit("'");
        }
    } else {
        lemma_doubled_grows(s);
        assert(quoted.subrange(1, quoted.len() - 1) =~= doubled(s));
        law_quoting_is_undone(s);
    }
    assert(s.push('\n').drop_last() =~= s);
    assert(s.push('\r').push('\n').drop_last() =~= s.push('\r'));
    assert(s.push('\r').drop_last() =~= s);
}

proof fn lemma_doubled_grows(s: Seq<char>)
    ensures
        doubled(s).len() >= s.len(),
    decreases s.len(),
{
    if s.len() > 0 {
        lemma_doubled_grows(s.drop_last());
    }
}

/// The characters that stand in numbers.
pub open spec fn number_char(c: char) -> bool {
    '0' <= c <= '9' || c == '.' || c == 'e' || c == 'E' || c == '+' || c == '-'
}

proof fn lemma_number_chars(s: Seq<char>)
    requires
        number(s),
    ensures
        forall|i: int| 0 <= i < s.len() ==> number_char(#[trigger] s[i]),
{
    let whole = text::prefix_len(s, digit()) as int;
    text::lemma_prefix_len_bounds(s, digit());
    let behind = s.skip(whole);
    let pointed = behind.len() > 0 && behind[0] == '.';
    let after = behind.skip(1);
    let fraction = if pointed {
        text::prefix_len(after, digit()) as int
    } else {
        0
    };
    if pointed {
        text::lemma_prefix_len_bounds(after, digit());
    }
    let rest = if pointed {
        behind.skip(1 + fraction)
    } else {
        behind
    };
    let from = s.len() - rest.len();
    if rest.len() > 0 {
        let k = if rest.len() > 1 && (rest[1] == '+' || rest[1] == '-') {
            2int
        } else {
            1int
        };
        let power = rest.skip(k);
        text::lemma_prefix_len_bounds(power, digit());
        assert forall|i: int| from <= i < s.len() implies number_char(#[trigger] s[i]) by {
            assert(s[i] == rest[i - from]);
            if i - from >= k {
                assert(power[i - from - k] == s[i]);
                assert(digit()(power[i - from - k]));
            }
        }
    }
    assert forall|i: int| 0 <= i < s.len() implies number_char(#[trigger] s[i]) by {
        if i < whole {
            assert(digit()(s[i]));
        } else if i < from {
            assert(s[i] == behind[i - whole]);
            if i > whole {
                assert(after[i - whole - 1] == s[i]);
                assert(digit()(after[i - whole - 1]));
            }
        }
    }
}

/// A simple text stays as it is: one that is made of letters, digits and a few other
/// characters, does not begin with a dash, holds a character that no number has, and
/// is no word that YAML reads otherwise.
pub proof fn law_simple_texts_stay_bare(s: Seq<char>, i: int, indent: Seq<char>)
    requires
        0 <= i < s.len(),
        forall|k: int| 0 <= k < s.len() ==> bare_char(#[trigger] s[k]),
        s[0] != '-',
        !number_char(s[i]),
        !yaml_word(s),
        !number_word(s),
        s[0] == '+' ==> !number_word(s.skip(1)),
    ensures
        plaintext_value(s, indent) == s,
{
    assert forall|k: int| 0 <= k < s.len() implies safe_char(#[trigger] s[k]) by {
        lemma_bare_char(s[k]);
    }
    assert forall|c: char| s.contains(c) implies bare_char(c) by {
        let k = choose|k: int| 0 <= k < s.len() && s[k] == c;
        assert(bare_char(s[k]));
    }
    lemma_one_line_value(s, indent);
    lemma_words(s);
    lemma_words(s.skip(1));
    if number(s) {
        lemma_number_chars(s);
    }
    if s[0] == '+' && number(s.skip(1)) {
        lemma_number_chars(s.skip(1));
        assert(s.skip(1)[i - 1] == s[i]);
    }
}

/// A payload is written as a block scalar with the tag `!vault`, and only where it
/// begins with `$ANSIBLE_VAULT;`.
pub proof fn law_encrypted_values_are_tagged(vault_text: Seq<char>, indent: Seq<char>)
    ensures
        encrypted_value(vault_text, indent) matches Some(value) ==> text::starts_with(
            value,
            "!vault |\n"@ + indent + "$ANSIBLE_VAULT;"@,
        ),
{
    let lines = vault_lines(vault_text);
    if let Some(value) = encrypted_value(vault_text, indent) {
        let start = "!vault |\n"@ + indent + "$ANSIBLE_VAULT;"@;
        let sep = seq!['\n'] + indent;
        lemma_join_begins(lines, sep);
        let body = text::join(lines, sep);
        assert(value =~= "!vault |\n"@ + indent + body);
        assert(body.take(lines[0].len() as int) == lines[0]);
        assert(value.take(start.len() as int) =~= "!vault |\n"@ + indent + body.take(
            VAULT_HEADER@.len() as int,
        ));
        assert(body.take(VAULT_HEADER@.len() as int) =~= lines[0].take(
            VAULT_HEADER@.len() as int,
        ));
    }
}

proof fn lemma_join_begins(parts: Seq<Seq<char>>, sep: Seq<char>)
    requires
        parts.len() > 0,
    ensures
        text::join(parts, sep).len() >= parts[0].len(),
        text::join(parts, sep).take(parts[0].len() as int) == parts[0],
    decreases parts.len(),
{
    if parts.len() == 1 {
        assert(parts[0].take(parts[0].len() as int) =~= parts[0]);
    } else {
        lemma_join_begins(parts.drop_last(), sep);
        let before = text::join(parts.drop_last(), sep);
        assert(text::join(parts, sep).take(parts[0].len() as int) =~= before.take(
            parts[0].len() as int,
        ));
    }
}

} // verus!
