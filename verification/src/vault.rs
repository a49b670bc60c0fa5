//! Calling `ansible-vault` and reading what it answers.
use crate::bytes;
use crate::config::Settings;
use crate::digest;
use crate::error::AppError;
use crate::error::AppResult;
use crate::error::Failure;
use crate::header;
use crate::operation::Operation;
use crate::process::Left;
use crate::process::ProcessOutput;
use crate::text;
use crate::validation;
use crate::writing;
use vstd::prelude::*;

verus! {

pub const VALUE_NAME: &'static str = "__zed_vault_value__";

pub const BLOCK_MARKER: &'static str = "!vault |";

pub const INVALID_TEXT: &'static str = "ansible-vault returned invalid text";

pub const NOT_UTF8_VALUE: &'static str = "The decrypted Vault value is not valid UTF-8";

pub const NOT_UTF8_FILE: &'static str = "Non-UTF-8 files are not supported";

pub const NOT_UTF8_RESULT: &'static str = "The Vault result is not valid UTF-8";

pub const UNSAVED: &'static str = "The editor buffer has unsaved changes; save the file and retry";

pub const CHANGED_ON_DISK: &'static str =
    "The file changed on disk while the operation was running; retry the action";

pub const INVALID_FILE_OPERATION: &'static str = "Invalid file operation";

pub const UNSUPPORTED: &'static str =
    "The installed ansible-vault does not support this operation";

pub const FAILED: &'static str =
    "ansible-vault failed; verify the input, password source, and filesystem permissions";

pub const SYMLINK: &'static str = "Symlinked Vault files are not supported";

pub const NOT_REGULAR: &'static str = "Only regular files can be encrypted or decrypted";

pub const READ_ONLY: &'static str = "The target file is read-only";

// ---------------------------------------------------------------------------
// Headers of files
// ---------------------------------------------------------------------------

/// The first line of a text, without the carriage returns at its end.
pub open spec fn first_line(s: Seq<char>) -> Option<Seq<char>> {
    if text::lines(s).len() > 0 {
        Some(text::trim_end_of(text::lines(s)[0], seq!['\r']))
    } else {
        None
    }
}

/// A text whose first line is a valid Vault header.
pub open spec fn vault_file(s: Seq<char>) -> bool {
    match first_line(s) {
        Some(line) => header::valid_header(line),
        None => false,
    }
}

fn is_valid_header(line: &[char]) -> (r: bool)
    ensures
        r == header::valid_header(line@),
{
    let parts = header::fields_of(line);
    let ghost shown = text::views(parts@);
    if parts.len() != 3 && parts.len() != 4 {
        return false;
    }
    proof {
        assert(shown[0] == parts@[0]@ && shown[1] == parts@[1]@ && shown[2] == parts@[2]@);
        if parts@.len() == 4 {
            assert(shown[3] == parts@[3]@);
        }
    }
    text::is_str(parts[0], header::VAULT_MARKER) && text::is_str(parts[2], header::CIPHER) && (
    if parts.len() == 3 {
        text::is_str(parts[1], "1.1")
    } else {
        text::is_str(parts[1], "1.2") && parts[3].len() > 0
    })
}

/// Whether the first line of a text is a valid Vault header.
pub fn is_vault_file(text: &str) -> (r: bool)
    ensures
        r == vault_file(text@),
{
    let held = text::chars_of(text);
    let lines = text::lines_of(held.as_slice());
    if lines.len() == 0 {
        return false;
    }
    let ends: [char; 1] = ['\r'];
    proof {
        assert(ends@ =~= seq!['\r']);
        assert(text::views(lines@)[0] == lines@[0]@);
    }
    is_valid_header(text::trimmed_end_of(lines[0], ends.as_slice()))
}

// ---------------------------------------------------------------------------
// Arguments
// ---------------------------------------------------------------------------

/// The arguments that name the password source. They hold the place of the
/// password, never the password.
pub open spec fn password_args(vault_id: Option<Seq<char>>, password_file: Seq<char>) -> Seq<
    Seq<char>,
> {
    match vault_id {
        Some(id) => seq!["--vault-id"@, id + seq!['@'] + password_file],
        None => seq!["--vault-password-file"@, password_file],
    }
}

/// Appends the arguments that name the password source.
pub fn append_password_args(args: &mut Vec<String>, settings: &Settings, password_file: &str)
    ensures
        text::texts(final(args)@) == text::texts(old(args)@) + password_args(
            settings@.vault_id,
            password_file@,
        ),
{
    let ghost before = text::texts(args@);
    match &settings.vault_id {
        Some(id) => {
            let mut source = id.clone();
            source.push('@');
            source.append(password_file);
            proof {
                assert(source@ =~= id@ + seq!['@'] + password_file@);
            }
            args.push("--vault-id".to_string());
            args.push(source);
        },
        None => {
            args.push("--vault-password-file".to_string());
            args.push(password_file.to_string());
        },
    }
    proof {
        assert(text::texts(args@) =~= before + password_args(
            settings@.vault_id,
            password_file@,
        ));
    }
}

/// The arguments that encrypt a value, which goes to the standard input.
pub open spec fn encrypt_args(vault_id: Option<Seq<char>>, password_file: Seq<char>) -> Seq<
    Seq<char>,
> {
    seq!["encrypt_string"@] + password_args(vault_id, password_file) + seq![
        "--stdin-name"@,
        VALUE_NAME@,
    ]
}

pub fn encrypt_value_args(settings: &Settings, password_file: &str) -> (r: Vec<String>)
    ensures
        text::texts(r@) == encrypt_args(settings@.vault_id, password_file@),
{
    let mut args: Vec<String> = Vec::new();
    args.push("encrypt_string".to_string());
    proof {
        assert(text::texts(args@) =~= seq!["encrypt_string"@]);
    }
    append_password_args(&mut args, settings, password_file);
    let ghost before = text::texts(args@);
    args.push("--stdin-name".to_string());
    args.push(VALUE_NAME.to_string());
    proof {
        assert(text::texts(args@) =~= before + seq!["--stdin-name"@, VALUE_NAME@]);
    }
    args
}

/// The arguments that decrypt the value in the file `input`.
pub open spec fn view_args(
    vault_id: Option<Seq<char>>,
    password_file: Seq<char>,
    input: Seq<char>,
) -> Seq<Seq<char>> {
    seq!["view"@] + password_args(vault_id, password_file) + seq![input]
}

pub fn decrypt_value_args(settings: &Settings, password_file: &str, input: &str) -> (r: Vec<
    String,
>)
    ensures
        text::texts(r@) == view_args(settings@.vault_id, password_file@, input@),
{
    let mut args: Vec<String> = Vec::new();
    args.push("view".to_string());
    proof {
        assert(text::texts(args@) =~= seq!["view"@]);
    }
    append_password_args(&mut args, settings, password_file);
    let ghost before = text::texts(args@);
    args.push(input.to_string());
    proof {
        assert(text::texts(args@) =~= before + seq![input@]);
    }
    args
}

/// The arguments that encrypt or decrypt the file `input` into the file
/// `output`.
pub open spec fn file_args(
    operation: Operation,
    vault_id: Option<Seq<char>>,
    password_file: Seq<char>,
    output: Seq<char>,
    input: Seq<char>,
) -> Seq<Seq<char>> {
    seq![operation.subcommand_text()] + password_args(vault_id, password_file) + seq![
        "--output"@,
        output,
        input,
    ]
}

pub fn file_operation_args(
    operation: Operation,
    settings: &Settings,
    password_file: &str,
    output: &str,
    input: &str,
) -> (r: AppResult<Vec<String>>)
    ensures
        match r {
            Ok(args) => operation.on_file() && text::texts(args@) == file_args(
                operation,
                settings@.vault_id,
                password_file@,
                output@,
                input@,
            ),
            Err(error) => !operation.on_file() && error@ == Failure::User(INVALID_FILE_OPERATION@),
        },
{
    if !operation.is_on_file() {
        return Err(AppError::told(INVALID_FILE_OPERATION));
    }
    let mut args: Vec<String> = Vec::new();
    args.push(operation.subcommand().to_string());
    proof {
        assert(text::texts(args@) =~= seq![operation.subcommand_text()]);
    }
    append_password_args(&mut args, settings, password_file);
    let ghost before = text::texts(args@);
    args.push("--output".to_string());
    args.push(output.to_string());
    args.push(input.to_string());
    proof {
        assert(text::texts(args@) =~= before + seq!["--output"@, output@, input@]);
    }
    Ok(args)
}

/// The bytes of a temporary password file.
pub open spec fn password_line(password: Seq<char>) -> Seq<u8> {
    vstd::utf8::encode_utf8(password).push(0x0a)
}

/// The bytes of a temporary password file: the password on a line.
pub fn password_file_content(password: &str) -> (r: Vec<u8>)
    ensures
        r@ == vstd::utf8::encode_utf8(password@).push(0x0a),
        r@ == password_line(password@),
{
    let held: &[u8] = password.as_bytes();
    let mut out: Vec<u8> = Vec::new();
    for i in 0..held.len()
        invariant
            out@ == held@.take(i as int),
    {
        out.push(held[i]);
    }
    out.push(0x0a);
    out
}

// ---------------------------------------------------------------------------
// Answers
// ---------------------------------------------------------------------------

/// Whether an error text shows that the password or the payload was refused.
pub open spec fn tells_rejection(stderr: Seq<u8>) -> bool {
    let small = bytes::lowered_bytes(stderr);
    ||| bytes::contains_word(small, "decrypt"@)
    ||| bytes::contains_word(small, "vault password"@)
    ||| bytes::contains_word(small, "no vault secrets"@)
    ||| bytes::contains_word(small, "vault encrypted data"@)
    ||| bytes::contains_word(small, "vault format"@)
}

/// Whether an error text shows that an option is not known.
pub open spec fn tells_unknown_option(stderr: Seq<u8>) -> bool {
    let small = bytes::lowered_bytes(stderr);
    bytes::contains_word(small, "unknown option"@) || bytes::contains_word(
        small,
        "unrecognized arguments"@,
    )
}

/// What went wrong in a run of `ansible-vault`, if anything did.
pub open spec fn run_failure(output: Left) -> Option<Failure> {
    if output.success {
        None
    } else if tells_rejection(output.stderr) {
        Some(Failure::VaultRejected)
    } else if tells_unknown_option(output.stderr) {
        Some(Failure::User(UNSUPPORTED@))
    } else {
        Some(Failure::User(FAILED@))
    }
}

/// The output of a run of `ansible-vault`, where it succeeded.
pub fn checked_output(output: ProcessOutput) -> (r: AppResult<ProcessOutput>)
    ensures
        match r {
            Ok(same) => run_failure(output@) is None && same == output,
            Err(error) => run_failure(output@) == Some(error@),
        },
{
    if output.success {
        return Ok(output);
    }
    let held = bytes::lowered_bytes_of(output.stderr.as_slice());
    let small: &[u8] = held.as_slice();
    if bytes::has_word(small, "decrypt") || bytes::has_word(small, "vault password")
        || bytes::has_word(small, "no vault secrets") || bytes::has_word(
        small,
        "vault encrypted data",
    ) || bytes::has_word(small, "vault format") {
        Err(AppError::VaultRejected)
    } else if bytes::has_word(small, "unknown option") || bytes::has_word(
        small,
        "unrecognized arguments",
    ) {
        Err(AppError::told(UNSUPPORTED))
    } else {
        Err(AppError::told(FAILED))
    }
}

/// The first line from `i` on that opens a tagged block scalar.
pub open spec fn marker_line(lines: Seq<Seq<char>>, i: int) -> Option<int>
    decreases lines.len() - i,
{
    if i < 0 || i >= lines.len() {
        None
    } else if text::contains(lines[i], BLOCK_MARKER@) {
        Some(i)
    } else {
        marker_line(lines, i + 1)
    }
}

/// The first `n` lines without white space at their starts, but for those that
/// hold nothing else.
pub open spec fn unindented(lines: Seq<Seq<char>>, n: int) -> Seq<Seq<char>>
    decreases n,
{
    if n <= 0 {
        Seq::empty()
    } else {
        let before = unindented(lines, n - 1);
        let line = text::trim_start(lines[n - 1]);
        if line.len() > 0 {
            before.push(line)
        } else {
            before
        }
    }
}

/// The payload in the output of `ansible-vault encrypt_string`: the lines under
/// the tag, where they begin with a Vault header.
pub open spec fn encrypted_payload(s: Seq<char>) -> Option<Seq<char>> {
    let lines = text::lines(s);
    match marker_line(lines, 0) {
        None => None,
        Some(i) => {
            let rest = lines.skip(i + 1);
            let payload = unindented(rest, rest.len() as int);
            if payload.len() > 0 && text::starts_with(payload[0], writing::VAULT_HEADER@) {
                Some(text::join(payload, seq!['\n']) + seq!['\n'])
            } else {
                None
            }
        },
    }
}

/// Reads the payload out of the output of `ansible-vault encrypt_string`.
pub fn parse_encrypt_string(stdout: &[u8]) -> (r: AppResult<String>)
    ensures
        match bytes::utf8_text(stdout@) {
            None => r matches Err(error) && error@ == Failure::User(INVALID_TEXT@),
            Some(s) => match r {
                Ok(payload) => encrypted_payload(s) == Some(payload@),
                Err(error) => encrypted_payload(s) is None && error@ == Failure::User(
                    writing::INVALID_ENCRYPTED@,
                ),
            },
        },
{
    let output = match bytes::utf8(stdout) {
        None => {
            return Err(AppError::told(INVALID_TEXT));
        },
        Some(output) => output,
    };
    let held = text::chars_of(output);
    let lines = text::lines_of(held.as_slice());
    let ghost all = text::views(lines@);
    let marker = text::chars_of(BLOCK_MARKER);
    let mut index: usize = 0;
    while index < lines.len() && text::found(lines[index], marker.as_slice()).is_none()
        invariant
            all == text::views(lines@),
            marker@ == BLOCK_MARKER@,
            index <= lines@.len(),
            marker_line(all, 0) == marker_line(all, index as int),
        decreases lines@.len() - index,
    {
        proof {
            assert(all[index as int] == lines@[index as int]@);
        }
        index = index + 1;
    }
    if index == lines.len() {
        return Err(AppError::told(writing::INVALID_ENCRYPTED));
    }
    proof {
        assert(all[index as int] == lines@[index as int]@);
    }
    let ghost rest = all.skip(index + 1);
    let mut payload: Vec<&[char]> = Vec::new();
    proof {
        assert(text::views(payload@) =~= unindented(rest, 0));
    }
    for i in index + 1..lines.len()
        invariant
            all == text::views(lines@),
            index < lines@.len(),
            rest == all.skip(index + 1),
            text::views(payload@) == unindented(rest, i - index - 1),
    {
        let line = text::trimmed_start(lines[i]);
        let ghost before = payload@;
        proof {
            assert(rest[i - index - 1] == lines@[i as int]@);
        }
        if line.len() > 0 {
            payload.push(line);
            proof {
                assert(text::views(payload@) =~= text::views(before).push(line@));
            }
        }
    }
    let expected = text::chars_of(writing::VAULT_HEADER);
    proof {
        if payload@.len() > 0 {
            assert(text::views(payload@)[0] == payload@[0]@);
        }
    }
    if payload.len() == 0 || !text::has_prefix(payload[0], expected.as_slice()) {
        return Err(AppError::told(writing::INVALID_ENCRYPTED));
    }
    let newline: [char; 1] = ['\n'];
    proof {
        assert(newline@ =~= seq!['\n']);
    }
    let mut out = text::joined(&payload, newline.as_slice());
    let ghost body = out@;
    out.push('\n');
    proof {
        assert(out@ =~= body + seq!['\n']);
    }
    Ok(out)
}

/// A text without the newline that `ansible-vault view` adds to it.
pub open spec fn without_display_end(s: Seq<char>) -> Seq<char> {
    if s.len() > 0 && s.last() == '\n' {
        s.drop_last()
    } else {
        s
    }
}

/// The value that `ansible-vault view` has written. It adds one newline to what was
/// encrypted, which is taken off again; what the value itself ends in stays.
pub fn decrypted_value(stdout: &[u8]) -> (r: AppResult<String>)
    ensures
        match bytes::utf8_text(stdout@) {
            None => r matches Err(error) && error@ == Failure::User(NOT_UTF8_VALUE@),
            Some(s) => r matches Ok(value) && value@ == without_display_end(s),
        },
{
    match bytes::utf8(stdout) {
        None => Err(AppError::told(NOT_UTF8_VALUE)),
        Some(output) => {
            let held = text::chars_of(output);
            let chars: &[char] = held.as_slice();
            let n: usize = chars.len();
            if n > 0 && chars[n - 1] == '\n' {
                proof {
                    assert(chars@.drop_last() =~= chars@.subrange(0, n - 1));
                }
                Ok(text::string_of(&chars[0..n - 1]))
            } else {
                Ok(text::string_of(chars))
            }
        },
    }
}

// ---------------------------------------------------------------------------
// Files
// ---------------------------------------------------------------------------

/// Why a file on disk cannot be worked on, if it cannot: its bytes have to be the
/// text that the editor shows.
pub open spec fn disk_failure(disk: Seq<u8>, document: Seq<char>) -> Option<Failure> {
    match bytes::utf8_text(disk) {
        None => Some(Failure::User(NOT_UTF8_FILE@)),
        Some(s) => if s != document {
            Some(Failure::User(UNSAVED@))
        } else {
            None
        },
    }
}

/// The digest of a file on disk that holds the text that the editor shows.
pub fn original_hash(disk: &[u8], document_text: &str) -> (r: AppResult<[u8; 32]>)
    ensures
        match r {
            Ok(hash) => disk_failure(disk@, document_text@) is None && hash@
                == digest::sha256_digest(disk@),
            Err(error) => disk_failure(disk@, document_text@) == Some(error@),
        },
{
    match bytes::utf8(disk) {
        None => Err(AppError::told(NOT_UTF8_FILE)),
        Some(disk_text) => {
            if text::same_str(disk_text, document_text) {
                Ok(digest::hash_bytes(disk))
            } else {
                Err(AppError::told(UNSAVED))
            }
        },
    }
}

/// The digest of what `ansible-vault` has made of a file, where it is text.
pub fn result_hash(result: &[u8]) -> (r: AppResult<[u8; 32]>)
    ensures
        match r {
            Ok(hash) => bytes::utf8_text(result@) is Some && hash@ == digest::sha256_digest(
                result@,
            ),
            Err(error) => bytes::utf8_text(result@) is None && error@ == Failure::User(
                NOT_UTF8_RESULT@,
            ),
        },
{
    match bytes::utf8(result) {
        None => Err(AppError::told(NOT_UTF8_RESULT)),
        Some(_) => Ok(digest::hash_bytes(result)),
    }
}

/// Refuses to replace a file whose bytes are no longer those that the operation
/// started from.
pub fn check_unchanged(current: &[u8], original: &[u8; 32]) -> (r: AppResult<()>)
    ensures
        match r {
            Ok(_) => digest::sha256_digest(current@) == original@,
            Err(error) => digest::sha256_digest(current@) != original@ && error@ == Failure::User(
                CHANGED_ON_DISK@,
            ),
        },
{
    let hash = digest::hash_bytes(current);
    if digest::same_hash(&hash, original) {
        Ok(())
    } else {
        Err(AppError::told(CHANGED_ON_DISK))
    }
}

/// What the file system says of a file itself, not of what a link points to.
#[derive(Clone, Copy, Debug, PartialEq, Eq, Structural)]
pub struct FileFacts {
    pub symlink: bool,
    pub regular: bool,
    pub readonly: bool,
    /// The permission bits.
    pub mode: u32,
}

impl FileFacts {
    /// Whether nobody may write the file.
    pub open spec fn unwritable(self) -> bool {
        self.readonly || self.mode & 0o222 == 0
    }

    pub fn is_unwritable(self) -> (r: bool)
        ensures
            r == self.unwritable(),
    {
        self.readonly || self.mode & 0o222 == 0
    }
}

/// Why a file cannot be replaced, if it cannot.
pub open spec fn target_failure(facts: FileFacts) -> Option<Failure> {
    if facts.symlink {
        Some(Failure::User(SYMLINK@))
    } else if !facts.regular {
        Some(Failure::User(NOT_REGULAR@))
    } else if facts.unwritable() {
        Some(Failure::User(READ_ONLY@))
    } else {
        None
    }
}

/// Refuses links, anything but regular files, and files that nobody may write.
pub fn validate_target_file(facts: FileFacts) -> (r: AppResult<()>)
    ensures
        match r {
            Ok(_) => target_failure(facts) is None,
            Err(error) => target_failure(facts) == Some(error@),
        },
{
    if facts.symlink {
        Err(AppError::told(SYMLINK))
    } else if !facts.regular {
        Err(AppError::told(NOT_REGULAR))
    } else if facts.is_unwritable() {
        Err(AppError::told(READ_ONLY))
    } else {
        Ok(())
    }
}

// ---------------------------------------------------------------------------
// Laws
// ---------------------------------------------------------------------------

/// Taking a line end off and then carriage returns is taking off all of them.
proof fn lemma_line_end(line: Seq<char>)
    requires
        forall|k: int| 0 <= k < line.len() - 1 ==> #[trigger] line[k] != '\n',
    ensures
        text::trim_end_of(line, seq!['\r', '\n']) == text::trim_end_of(
            text::without_line_end(line),
            seq!['\r'],
        ),
{
    let ends = seq!['\r', '\n'];
    let carriage = seq!['\r'];
    let body = text::without_line_end(line);
    let kept = text::trim_end_of(body, carriage);
    text::lemma_suffix_len_bounds(body, text::among(carriage));
    assert(ends.contains(ends[0]) && ends.contains(ends[1]));
    let n = line.len() - kept.len();
    assert forall|k: int| line.len() - n <= k < line.len() implies text::among(ends)(
        #[trigger] line[k],
    ) by {
        if k < body.len() {
            assert(text::among(carriage)(body[k]));
            assert(body[k] == line[k]);
        }
    }
    if n < line.len() {
        let last = kept.len() - 1;
        assert(!text::among(carriage)(body[last]));
        assert(line[last] == body[last]);
        assert(carriage.contains(carriage[0]));
        assert(line[last] != '\r');
        if line[last] == '\n' {
            assert(last == line.len() - 1);
        }
    }
    text::lemma_suffix_len(line, text::among(ends), n);
    assert(text::trim_end_of(line, ends) =~= kept);
}

/// The first line of a valid Vault file is a valid header.
proof fn lemma_first_line(s: Seq<char>)
    requires
        vault_file(s),
    ensures
        validation::document_lines(s, 0).len() > 0,
        validation::in_text(s, validation::document_lines(s, 0)[0]),
        header::valid_header(validation::content(s, validation::document_lines(s, 0)[0])),
{
    let n = text::line_len(s);
    let set = seq!['\n'];
    text::lemma_prefix_len_bounds(s, text::outside(set));
    assert(text::lines_inclusive(s).len() > 0);
    let line = s.take(n);
    assert(text::lines_inclusive(s)[0] == line);
    assert(text::lines(s)[0] == text::without_line_end(line));
    assert forall|k: int| 0 <= k < line.len() - 1 implies #[trigger] line[k] != '\n' by {
        assert(text::outside(set)(s[k]));
        assert(set[0] == '\n');
    }
    lemma_line_end(line);
    assert(s.skip(0) =~= s);
    assert(s.subrange(0, n) =~= line);
    let content = text::trim_end_of(line, seq!['\r', '\n']);
    text::lemma_suffix_len_bounds(line, text::among(seq!['\r', '\n']));
    assert(validation::document_lines(s, 0)[0] == (0int, content.len() as int));
    assert(validation::content(s, (0int, content.len() as int)) =~= content);
}

/// A valid Vault file is always recognised as one that is meant to be a Vault
/// file.
pub proof fn law_vault_files_are_candidates(s: Seq<char>)
    requires
        vault_file(s),
    ensures
        validation::file_candidate(s),
{
    lemma_first_line(s);
    header::law_valid_header_is_candidate(
        validation::content(s, validation::document_lines(s, 0)[0]),
    );
}

/// Whatever is found in a valid Vault file, no repair of its header is offered.
pub proof fn law_vault_files_need_no_fix(s: Seq<char>)
    requires
        vault_file(s),
    ensures
        forall|i: int|
            0 <= i < validation::findings(s).len() ==> (#[trigger] validation::findings(s)[i]).fix
                is None,
{
    lemma_first_line(s);
    law_vault_files_are_candidates(s);
    let lines = validation::document_lines(s, 0);
    let line = validation::content(s, lines[0]);
    let span = validation::trimmed_span(s, lines[0]);
    let payload = validation::visible_lines(s, lines.skip(1));
    validation::lemma_trimmed_span(s, lines[0]);
    header::lemma_valid_header_trimmed(line);
    validation::law_valid_headers_have_no_problems(text::trim(line));
    validation::lemma_lines_offer_no_fix(s, payload);
    let first = validation::header_findings(s, span);
    let second = validation::payload_findings(s, span, payload);
    assert(validation::findings(s) == first + second);
    assert forall|i: int| 0 <= i < (first + second).len() implies (#[trigger] (first
        + second)[i]).fix is None by {
        if i >= first.len() {
            assert((first + second)[i] == second[i - first.len()]);
        }
    }
}

/// A file whose first line is a repaired header is a valid Vault file.
pub proof fn law_repaired_files_are_vault_files(damaged: Seq<char>, rest: Seq<char>)
    requires
        header::canonical(damaged) is Some,
        !damaged.contains('\n'),
    ensures
        vault_file(header::canonical(damaged)->0 + seq!['\n'] + rest),
{
    let line = header::canonical(damaged)->0;
    let s = line + seq!['\n'] + rest;
    header::law_canonical_header_is_valid(damaged);
    header::lemma_canonical_is_one_line(damaged);
    assert forall|k: int| 0 <= k < line.len() implies #[trigger] s[k] != '\n' by {
        assert(s[k] == line[k]);
        assert(line.contains(line[k]));
    }
    assert(s[line.len() as int] == '\n');
    text::lemma_line_len(s, line.len() as int);
    let whole = s.take(line.len() + 1int);
    assert(text::lines_inclusive(s)[0] == whole);
    assert(text::lines(s)[0] == text::without_line_end(whole));
    assert(whole.drop_last() =~= line);
    assert(line.last() != '\r');
    text::lemma_suffix_len(line, text::among(seq!['\r']), 0);
    assert(text::trim_end_of(line, seq!['\r']) =~= line);
}

/// The newline that `ansible-vault view` adds to a value is taken off again, and
/// nothing else is.
pub proof fn law_display_end_is_undone(value: Seq<char>)
    ensures
        without_display_end(value.push('\n')) == value,
{
    assert(value.push('\n').drop_last() =~= value);
}

/// An argument that is a fixed word, or says where the password is kept.
pub open spec fn harmless(
    argument: Seq<char>,
    vault_id: Option<Seq<char>>,
    password_file: Seq<char>,
) -> bool {
    ||| argument == "encrypt_string"@
    ||| argument == "view"@
    ||| argument == "encrypt"@
    ||| argument == "decrypt"@
    ||| argument == "--stdin-name"@
    ||| argument == VALUE_NAME@
    ||| argument == "--output"@
    ||| argument == "--vault-id"@
    ||| argument == "--vault-password-file"@
    ||| argument == password_file
    ||| vault_id matches Some(id) && argument == id + seq!['@'] + password_file
}

/// No argument of a run of `ansible-vault` depends on a password or on a value:
/// apart from the files that are read and written, all are fixed words or say
/// where the password is kept.
pub proof fn law_arguments_hold_no_secret(
    operation: Operation,
    vault_id: Option<Seq<char>>,
    password_file: Seq<char>,
    output: Seq<char>,
    input: Seq<char>,
    argument: Seq<char>,
)
    ensures
        encrypt_args(vault_id, password_file).contains(argument) ==> harmless(
            argument,
            vault_id,
            password_file,
        ),
        view_args(vault_id, password_file, input).contains(argument) ==> argument == input
            || harmless(argument, vault_id, password_file),
        file_args(operation, vault_id, password_file, output, input).contains(argument) ==> argument
            == input || argument == output || harmless(argument, vault_id, password_file),
{
}

/// Whether arguments name the password source behind the command: a configured Vault
/// ID with the password file behind it, or else the password file alone.
pub open spec fn names_password(
    args: Seq<Seq<char>>,
    vault_id: Option<Seq<char>>,
    password_file: Seq<char>,
) -> bool {
    &&& args.len() > 3
    &&& match vault_id {
        Some(id) => args[1] == "--vault-id"@ && args[2] == id + "@"@ + password_file,
        None => args[1] == "--vault-password-file"@ && args[2] == password_file,
    }
}

/// Every command is given the configured Vault ID, and the password file without one:
/// the words `encrypt`, `decrypt`, `encrypt_string` and `view` stand first, then what
/// names the password, and last what the command works on.
pub proof fn law_every_command_gets_the_vault_id(
    vault_id: Option<Seq<char>>,
    password_file: Seq<char>,
    output: Seq<char>,
    input: Seq<char>,
)
    ensures
        ({
            let args = encrypt_args(vault_id, password_file);
            &&& names_password(args, vault_id, password_file)
            &&& args.len() == 5
            &&& args[0] == "encrypt_string"@
            &&& args[3] == "--stdin-name"@
            &&& args[4] == "__zed_vault_value__"@
        }),
        ({
            let args = view_args(vault_id, password_file, input);
            &&& names_password(args, vault_id, password_file)
            &&& args.len() == 4
            &&& args[0] == "view"@
            &&& args[3] == input
        }),
        forall|operation: Operation|
            #![trigger file_args(operation, vault_id, password_file, output, input)]
            {
                let args = file_args(operation, vault_id, password_file, output, input);
                &&& names_password(args, vault_id, password_file)
                &&& args.len() == 6
                &&& operation == Operation::EncryptFile ==> args[0] == "encrypt"@
                &&& operation == Operation::DecryptFile ==> args[0] == "decrypt"@
                &&& args[3] == "--output"@
                &&& args[4] == output
                &&& args[5] == input
            },
{
    reveal_strlit("@");
    assert("@"@ =~= seq!['@']);
}

/// Whether a byte is a character of a word in small letters, or the capital letter
/// that goes with it.
pub open spec fn reads_as(b: u8, c: char) -> bool {
    b as int == c as int || 'a' <= c <= 'z' && b as int == c as int - 32
}

/// Whether a word stands at a place of some bytes, in whatever case.
pub open spec fn reads_at(bytes: Seq<u8>, word: Seq<char>, i: int) -> bool {
    &&& 0 <= i
    &&& i + word.len() <= bytes.len()
    &&& forall|k: int| 0 <= k < word.len() ==> reads_as(bytes[i + k], #[trigger] word[k])
}

/// Whether a word stands anywhere in some bytes, in whatever case.
pub open spec fn mentions(bytes: Seq<u8>, word: Seq<char>) -> bool {
    exists|i: int| #[trigger] reads_at(bytes, word, i)
}

proof fn lemma_mentions(bytes: Seq<u8>, word: Seq<char>)
    requires
        forall|k: int|
            0 <= k < word.len() ==> (#[trigger] word[k] as int) < 0x80 && !('A' <= word[k] <= 'Z'),
    ensures
        mentions(bytes, word) == bytes::contains_word(bytes::lowered_bytes(bytes), word),
{
    let small = bytes::lowered_bytes(bytes);
    assert forall|i: int| 0 <= i && i + word.len() <= bytes.len() implies #[trigger] reads_at(
        bytes,
        word,
        i,
    ) == bytes::word_at(small, word, i) by {
        assert forall|k: int| 0 <= k < word.len() implies reads_as(bytes[i + k], #[trigger] word[k])
            == ((small[i + k] as char) == word[k]) by {
            assert(small[i + k] == bytes::lower_byte(bytes[i + k]));
        }
        if reads_at(bytes, word, i) {
            assert forall|k: int| 0 <= k < word.len() implies (small[i + k] as char)
                == #[trigger] word[k] by {
                assert(reads_as(bytes[i + k], word[k]));
            }
        }
        if bytes::word_at(small, word, i) {
            assert forall|k: int| 0 <= k < word.len() implies reads_as(
                bytes[i + k],
                #[trigger] word[k],
            ) by {
                assert((small[i + k] as char) == word[k]);
            }
        }
    }
    if mentions(bytes, word) {
        let i = choose|i: int| #[trigger] reads_at(bytes, word, i);
        assert(bytes::word_at(small, word, i));
    }
    if bytes::contains_word(small, word) {
        let i = choose|i: int|
            0 <= i <= small.len() - word.len() && #[trigger] bytes::word_at(small, word, i);
        assert(reads_at(bytes, word, i));
    }
}

/// Whether an error text mentions one of the things that Ansible Vault says of a
/// password or a payload that it does not accept.
pub open spec fn mentions_rejection(stderr: Seq<u8>) -> bool {
    ||| mentions(stderr, "decrypt"@)
    ||| mentions(stderr, "vault password"@)
    ||| mentions(stderr, "no vault secrets"@)
    ||| mentions(stderr, "vault encrypted data"@)
    ||| mentions(stderr, "vault format"@)
}

/// A run that failed is told by what its error text mentions, in whatever case: first
/// a password or a payload that was not accepted, then an option that is not known, and
/// else that the run failed. What the run wrote to its standard output plays no part.
pub proof fn law_failures_are_told_by_their_words(output: Left)
    ensures
        output.success <==> run_failure(output) is None,
        !output.success && mentions_rejection(output.stderr) ==> run_failure(output) == Some(
            Failure::VaultRejected,
        ),
        !output.success && !mentions_rejection(output.stderr) && (mentions(
            output.stderr,
            "unknown option"@,
        ) || mentions(output.stderr, "unrecognized arguments"@)) ==> run_failure(output) == Some(
            Failure::User("The installed ansible-vault does not support this operation"@),
        ),
        !output.success && !mentions_rejection(output.stderr) && !mentions(
            output.stderr,
            "unknown option"@,
        ) && !mentions(output.stderr, "unrecognized arguments"@) ==> run_failure(output) == Some(
            Failure::User(
                "ansible-vault failed; verify the input, password source, and filesystem permissions"@,
            ),
        ),
{
    reveal_strlit("decrypt");
    reveal_strlit("vault password");
    reveal_strlit("no vault secrets");
    reveal_strlit("vault encrypted data");
    reveal_strlit("vault format");
    reveal_strlit("unknown option");
    reveal_strlit("unrecognized arguments");
    lemma_mentions(output.stderr, "decrypt"@);
    lemma_mentions(output.stderr, "vault password"@);
    lemma_mentions(output.stderr, "no vault secrets"@);
    lemma_mentions(output.stderr, "vault encrypted data"@);
    lemma_mentions(output.stderr, "vault format"@);
    lemma_mentions(output.stderr, "unknown option"@);
    lemma_mentions(output.stderr, "unrecognized arguments"@);
}

/// Only one newline is taken off a shown value, and nothing where there is none.
pub proof fn law_shown_values_lose_one_newline(shown: Seq<char>)
    ensures
        shown == without_display_end(shown) || shown == without_display_end(shown) + "\n"@,
        shown == without_display_end(shown) <==> shown.len() == 0 || shown.last() != '\n',
{
    reveal_strlit("\n");
    if shown.len() > 0 && shown.last() == '\n' {
        assert(shown =~= shown.drop_last() + "\n"@);
    }
}

/// A file can be replaced exactly where it is no link, is a regular file, is not
/// read-only, and its owner, its group or others may write it. Why it cannot is told in
/// this order.
pub proof fn law_replaceable_files(facts: FileFacts)
    ensures
        ({
            let may_write = !facts.readonly && (facts.mode & 0o200 != 0 || facts.mode & 0o020 != 0
                || facts.mode & 0o002 != 0);
            target_failure(facts) == if facts.symlink {
                Some(Failure::User("Symlinked Vault files are not supported"@))
            } else if !facts.regular {
                Some(Failure::User("Only regular files can be encrypted or decrypted"@))
            } else if !may_write {
                Some(Failure::User("The target file is read-only"@))
            } else {
                None::<Failure>
            }
        }),
{
    let m = facts.mode;
    assert((m & 0o222 == 0) == (m & 0o200 == 0 && m & 0o020 == 0 && m & 0o002 == 0)) by (bit_vector);
}

/// A file is worked on exactly where its bytes are the text that the editor shows.
pub proof fn law_files_are_what_the_editor_shows(disk: Seq<u8>, document: Seq<char>)
    ensures
        disk_failure(disk, document) is None <==> disk == vstd::utf8::encode_utf8(document),
        disk_failure(disk, document) matches Some(failure) ==> failure == Failure::User(
            if vstd::utf8::valid_utf8(disk) {
                "The editor buffer has unsaved changes; save the file and retry"@
            } else {
                "Non-UTF-8 files are not supported"@
            },
        ),
{
    vstd::utf8::encode_utf8_decode_utf8(document);
    vstd::utf8::encode_utf8_valid_utf8(document);
    if vstd::utf8::valid_utf8(disk) {
        vstd::utf8::decode_utf8_encode_utf8(disk);
    }
}

/// A text is a Vault file exactly where its first line is one of the two valid headers,
/// whichever line end is behind it.
pub proof fn law_vault_files_begin_with_a_header(
    line: Seq<char>,
    end: Seq<char>,
    rest: Seq<char>,
)
    requires
        !line.contains('\n'),
        line.len() > 0 ==> line.last() != '\r',
        end == "\n"@ || end == "\r\n"@ || end == ""@ && rest.len() == 0,
    ensures
        vault_file(line + end + rest) <==> (line == "$ANSIBLE_VAULT;1.1;AES256"@ || exists|
            id: Seq<char>,
        |
            id.len() > 0 && !id.contains(';') && line == #[trigger] (
            "$ANSIBLE_VAULT;1.2;AES256;"@ + id)),
{
    reveal_strlit("");
    reveal_strlit("\n");
    reveal_strlit("\r\n");
    header::law_there_are_two_headers(line);
    let s = line + end + rest;
    let n = line.len() as int;
    let m = if end.len() == 2 {
        n + 1
    } else {
        n
    };
    assert forall|k: int| 0 <= k < m implies #[trigger] s[k] != '\n' by {
        if k < n {
            assert(s[k] == line[k]);
            assert(line.contains(line[k]));
        } else {
            assert(s[k] == end[0]);
        }
    }
    if m < s.len() {
        assert(s[m] == end.last());
    }
    text::lemma_line_len(s, m);
    text::lemma_suffix_len(line, text::among(seq!['\r']), 0);
    assert(text::trim_end_of(line, seq!['\r']) =~= line);
    if s.len() == 0 {
        assert(text::lines(s).len() == 0);
        reveal_strlit("$ANSIBLE_VAULT;1.1;AES256");
        reveal_strlit("$ANSIBLE_VAULT;1.2;AES256;");
    } else {
        let whole = s.take(text::line_len(s));
        assert(text::lines_inclusive(s)[0] == whole);
        assert(text::lines(s)[0] == text::without_line_end(whole));
        if end.len() == 0 {
            assert(whole =~= line);
            assert(!line.contains(line.last()) || line.last() != '\n');
            assert(line.contains(line[n - 1]));
        } else if end.len() == 1 {
            assert(whole.drop_last() =~= line);
        } else {
            assert(whole.drop_last() =~= line.push('\r'));
            assert(whole.drop_last().drop_last() =~= line);
        }
        assert(text::without_line_end(whole) == line);
    }
}

/// A password file holds the password and a line feed.
pub proof fn law_password_files_hold_one_line(password: Seq<char>)
    ensures
        password_line(password) == vstd::utf8::encode_utf8(password + "\n"@),
{
    reveal_strlit("\n");
    text::lemma_encode_add(password, "\n"@);
    assert("\n"@ =~= seq!['\n']);
    vstd::utf8::is_ascii_chars_encode_utf8("\n"@);
    assert(vstd::utf8::encode_utf8("\n"@) =~= seq![0x0au8]);
    assert(password_line(password) =~= vstd::utf8::encode_utf8(password)
        + vstd::utf8::encode_utf8("\n"@));
}

} // verus!
