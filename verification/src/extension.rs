//! Getting the language server onto the user's machine.
//!
//! A release of the server is pinned to the version of the extension. It is only
//! used where its digest is the one that the release names.
use crate::digest;
use crate::paths;
use crate::text;
use crate::validation;
use vstd::prelude::*;

verus! {

pub const SERVER_NAME: &'static str = "ansible-vault-lsp";

pub const RELEASE_REPOSITORY: &'static str = "gesundes/zed-ansible-vault";

pub const EXTENSION_VERSION: &'static str = "0.2.0";

pub const NOT_64_BIT: &'static str = "32-bit platforms are not supported by Ansible Vault extension";

pub const EMPTY_CHECKSUM: &'static str = "server checksum file is empty";

pub const INVALID_CHECKSUM: &'static str = "server checksum is not a valid SHA-256 digest";

pub const UNEXPECTED: &'static str = "unexpected answer during the installation";

/// The systems for which the editor runs.
#[derive(Clone, Copy, Debug, PartialEq, Eq, Structural)]
pub enum Os {
    Mac,
    Linux,
    Windows,
}

/// The processors for which the editor runs.
#[derive(Clone, Copy, Debug, PartialEq, Eq, Structural)]
pub enum Architecture {
    Aarch64,
    X86,
    X8664,
}

// ---------------------------------------------------------------------------
// Names
// ---------------------------------------------------------------------------

fn put_together(first: &str, second: &str, third: &str) -> (r: String)
    ensures
        r@ == first@ + second@ + third@,
{
    let mut out = first.to_string();
    out.append(second);
    out.append(third);
    out
}

/// The tag of the release that belongs to this version of the extension.
pub open spec fn tag() -> Seq<char> {
    "v"@ + EXTENSION_VERSION@
}

pub fn release_tag() -> (r: String)
    ensures
        r@ == tag(),
{
    let mut out = "v".to_string();
    out.append(EXTENSION_VERSION);
    out
}

/// Whether a release that was reported is the one that belongs to this version of
/// the extension.
pub fn release_version_matches(reported: &str) -> (r: bool)
    ensures
        r == (reported@ == tag() || reported@ == EXTENSION_VERSION@),
{
    text::same_str(reported, release_tag().as_str()) || text::same_str(reported, EXTENSION_VERSION)
}

/// The file of a release that is made for a machine.
pub open spec fn asset_name(os: Os, architecture: Architecture) -> Result<Seq<char>, Seq<char>> {
    if os == Os::Windows {
        Err("Ansible Vault extension "@ + EXTENSION_VERSION@ + " supports macOS and Linux only"@)
    } else if architecture == Architecture::X86 {
        Err(NOT_64_BIT@)
    } else {
        let system = if os == Os::Mac {
            "-darwin"@
        } else {
            "-linux"@
        };
        let processor = if architecture == Architecture::Aarch64 {
            "-aarch64"@
        } else {
            "-x86_64"@
        };
        Ok(SERVER_NAME@ + system + processor)
    }
}

pub fn asset_name_for(os: Os, architecture: Architecture) -> (r: Result<String, String>)
    ensures
        match r {
            Ok(name) => asset_name(os, architecture) == Ok::<Seq<char>, Seq<char>>(name@),
            Err(reason) => asset_name(os, architecture) == Err::<Seq<char>, Seq<char>>(reason@),
        },
{
    let system = match os {
        Os::Mac => "-darwin",
        Os::Linux => "-linux",
        Os::Windows => {
            return Err(
                put_together(
                    "Ansible Vault extension ",
                    EXTENSION_VERSION,
                    " supports macOS and Linux only",
                ),
            );
        },
    };
    let processor = match architecture {
        Architecture::Aarch64 => "-aarch64",
        Architecture::X86 => {
            return Err(NOT_64_BIT.to_string());
        },
        Architecture::X8664 => "-x86_64",
    };
    Ok(put_together(SERVER_NAME, system, processor))
}

/// The directory that this version of the server is installed in.
pub open spec fn install_path() -> Seq<char> {
    SERVER_NAME@ + "-"@ + EXTENSION_VERSION@
}

pub fn install_directory() -> (r: String)
    ensures
        r@ == install_path(),
{
    put_together(SERVER_NAME, "-", EXTENSION_VERSION)
}

/// The server in a directory.
pub open spec fn binary_in(directory: Seq<char>) -> Seq<char> {
    paths::joined_path(directory, SERVER_NAME@)
}

/// The file with the server's digest in a directory.
pub open spec fn checksum_in(directory: Seq<char>) -> Seq<char> {
    paths::joined_path(directory, SERVER_NAME@ + ".sha256"@)
}

/// The server and the file with its digest in a directory.
pub fn installed_paths(install_dir: &str) -> (r: (String, String))
    ensures
        r.0@ == binary_in(install_dir@),
        r.1@ == checksum_in(install_dir@),
{
    let mut checksum = SERVER_NAME.to_string();
    checksum.append(".sha256");
    (
        paths::join_path(install_dir, SERVER_NAME),
        paths::join_path(install_dir, checksum.as_str()),
    )
}

/// The directory in which a new installation is prepared.
pub fn staging_path(install_dir: &str) -> (r: String)
    ensures
        r@ == install_dir@ + ".staging"@,
{
    let mut out = install_dir.to_string();
    out.append(".staging");
    out
}

// ---------------------------------------------------------------------------
// Digests
// ---------------------------------------------------------------------------

/// Sixty-four hexadecimal digits.
pub open spec fn digest_text(s: Seq<char>) -> bool {
    s.len() == 64 && forall|i: int| 0 <= i < s.len() ==> validation::hex_digit(#[trigger] s[i])
}

/// The digest that a checksum file names: its first word.
pub open spec fn named_digest(content: Seq<char>) -> Result<Seq<char>, Seq<char>> {
    let words = text::words(content);
    if words.len() == 0 {
        Err(EMPTY_CHECKSUM@)
    } else if !digest_text(text::lowered(words[0])) {
        Err(INVALID_CHECKSUM@)
    } else {
        Ok(text::lowered(words[0]))
    }
}

/// The digest that a checksum file names, once it has been read.
pub open spec fn read_digest(read: Result<Seq<char>, Seq<char>>) -> Result<Seq<char>, Seq<char>> {
    match read {
        Err(reason) => Err("failed to read server checksum: "@ + reason),
        Ok(content) => named_digest(content),
    }
}

/// What a result holds, as contracts speak of it.
pub open spec fn told(result: Result<String, String>) -> Result<Seq<char>, Seq<char>> {
    match result {
        Ok(text) => Ok(text@),
        Err(reason) => Err(reason@),
    }
}

fn is_digest_text(s: &[char]) -> (r: bool)
    ensures
        r == digest_text(s@),
{
    if s.len() != 64 {
        return false;
    }
    for i in 0..s.len()
        invariant
            forall|k: int| 0 <= k < i ==> validation::hex_digit(#[trigger] s@[k]),
    {
        let c = s[i];
        if !(text::is_ascii_digit(c) || ('a' <= c && c <= 'f') || ('A' <= c && c <= 'F')) {
            proof {
                assert(!validation::hex_digit(s@[i as int]));
            }
            return false;
        }
    }
    true
}

/// The digest that a checksum file names.
pub fn expected_checksum(read: &Result<String, String>) -> (r: Result<String, String>)
    ensures
        told(r) == read_digest(told(*read)),
{
    let content = match read {
        Err(reason) => {
            let mut message = "failed to read server checksum: ".to_string();
            message.append(reason.as_str());
            return Err(message);
        },
        Ok(content) => content,
    };
    let held = text::chars_of(content.as_str());
    let words = text::words_of(held.as_slice());
    if words.len() == 0 {
        return Err(EMPTY_CHECKSUM.to_string());
    }
    proof {
        assert(text::views(words@)[0] == words@[0]@);
    }
    let expected = text::lowered_of(words[0]);
    if is_digest_text(expected.as_slice()) {
        Ok(text::string_of(expected.as_slice()))
    } else {
        Err(INVALID_CHECKSUM.to_string())
    }
}

/// The bytes that a result holds, as contracts speak of it.
pub open spec fn told_bytes(result: Result<Vec<u8>, String>) -> Result<Seq<u8>, Seq<char>> {
    match result {
        Ok(bytes) => Ok(bytes@),
        Err(reason) => Err(reason@),
    }
}

/// Why a server is not the one that its checksum file names, if it is not.
pub open spec fn checksum_failure(
    checksum: Result<Seq<char>, Seq<char>>,
    binary: Result<Seq<u8>, Seq<char>>,
) -> Option<Seq<char>> {
    match read_digest(checksum) {
        Err(reason) => Some(reason),
        Ok(expected) => match binary {
            Err(reason) => Some("failed to read downloaded language server: "@ + reason),
            Ok(bytes) => {
                let actual = digest::hex(digest::sha256_digest(bytes));
                if actual == expected {
                    None
                } else {
                    Some(
                        "language server checksum mismatch: expected "@ + expected + (", got "@
                            + actual),
                    )
                }
            },
        },
    }
}

/// Refuses a server whose digest is not the one that its checksum file names.
pub fn verify_checksum(checksum: &Result<String, String>, binary: &Result<Vec<u8>, String>) -> (r:
    Result<(), String>)
    ensures
        match r {
            Ok(_) => checksum_failure(told(*checksum), told_bytes(*binary)) is None,
            Err(reason) => checksum_failure(told(*checksum), told_bytes(*binary)) == Some(reason@),
        },
{
    let expected = match expected_checksum(checksum) {
        Err(reason) => {
            return Err(reason);
        },
        Ok(expected) => expected,
    };
    match binary {
        Err(reason) => {
            let mut message = "failed to read downloaded language server: ".to_string();
            message.append(reason.as_str());
            Err(message)
        },
        Ok(bytes) => {
            let hash = digest::hash_bytes(bytes.as_slice());
            let actual = digest::hex_of(hash.as_slice());
            if text::same_str(actual.as_str(), expected.as_str()) {
                Ok(())
            } else {
                let mut rest = ", got ".to_string();
                rest.append(actual.as_str());
                Err(
                    put_together(
                        "language server checksum mismatch: expected ",
                        expected.as_str(),
                        rest.as_str(),
                    ),
                )
            }
        },
    }
}

/// The server in a directory, where both files are there and the digest is right.
pub fn verified_installed_binary(
    install_dir: &str,
    binary_is_file: bool,
    checksum_is_file: bool,
    verified: &Result<(), String>,
) -> (r: Option<String>)
    ensures
        match r {
            Some(binary) => binary_is_file && checksum_is_file && verified is Ok && binary@
                == binary_in(install_dir@),
            None => !(binary_is_file && checksum_is_file && verified is Ok),
        },
        !binary_is_file || !checksum_is_file || verified is Err <==> r is None,
{
    if binary_is_file && checksum_is_file && verified.is_ok() {
        Some(installed_paths(install_dir).0)
    } else {
        None
    }
}

// ---------------------------------------------------------------------------
// Releases
// ---------------------------------------------------------------------------

/// A file of a release.
#[derive(Clone, Debug)]
pub struct ReleaseAsset {
    pub name: String,
    pub download_url: String,
}

/// The files of a release by name and address.
pub open spec fn files(assets: Seq<ReleaseAsset>) -> Seq<(Seq<char>, Seq<char>)> {
    Seq::new(assets.len(), |i: int| (assets[i].name@, assets[i].download_url@))
}

/// The address of the first file from `i` on that has a name.
pub open spec fn address_of(files: Seq<(Seq<char>, Seq<char>)>, name: Seq<char>, i: int) -> Option<
    Seq<char>,
>
    decreases files.len() - i,
{
    if i < 0 || i >= files.len() {
        None
    } else if files[i].0 == name {
        Some(files[i].1)
    } else {
        address_of(files, name, i + 1)
    }
}

/// The addresses of the server and of its checksum file in a release, or why the
/// release cannot be used.
pub open spec fn release_files(
    version: Seq<char>,
    files: Seq<(Seq<char>, Seq<char>)>,
    asset: Seq<char>,
) -> Result<(Seq<char>, Seq<char>), Seq<char>> {
    if !(version == tag() || version == EXTENSION_VERSION@) {
        Err("GitHub returned release "@ + version + (" while "@ + tag() + " was requested"@))
    } else {
        match address_of(files, asset, 0) {
            None => Err("release "@ + tag() + (" has no asset "@ + asset)),
            Some(binary) => match address_of(files, asset + ".sha256"@, 0) {
                None => Err("release "@ + tag() + (" has no asset "@ + (asset + ".sha256"@))),
                Some(checksum) => Ok((binary, checksum)),
            },
        }
    }
}

fn address_for(assets: &Vec<ReleaseAsset>, name: &str) -> (r: Option<String>)
    ensures
        match r {
            Some(address) => address_of(files(assets@), name@, 0) == Some(address@),
            None => address_of(files(assets@), name@, 0) is None,
        },
{
    let ghost all = files(assets@);
    for i in 0..assets.len()
        invariant
            all == files(assets@),
            address_of(all, name@, 0) == address_of(all, name@, i as int),
    {
        proof {
            assert(all[i as int] == (assets@[i as int].name@, assets@[i as int].download_url@));
        }
        if text::same_str(assets[i].name.as_str(), name) {
            return Some(assets[i].download_url.clone());
        }
    }
    None
}

fn no_asset(name: &str) -> (r: String)
    ensures
        r@ == "release "@ + tag() + (" has no asset "@ + name@),
{
    let mut rest = " has no asset ".to_string();
    rest.append(name);
    put_together("release ", release_tag().as_str(), rest.as_str())
}

/// The addresses of the server and of its checksum file in a release.
pub fn choose_assets(version: &str, assets: &Vec<ReleaseAsset>, asset: &str) -> (r: Result<
    (String, String),
    String,
>)
    ensures
        match r {
            Ok((binary, checksum)) => release_files(version@, files(assets@), asset@) == Ok::<
                (Seq<char>, Seq<char>),
                Seq<char>,
            >((binary@, checksum@)),
            Err(reason) => release_files(version@, files(assets@), asset@) == Err::<
                (Seq<char>, Seq<char>),
                Seq<char>,
            >(reason@),
        },
{
    if !release_version_matches(version) {
        let rest = put_together(" while ", release_tag().as_str(), " was requested");
        return Err(put_together("GitHub returned release ", version, rest.as_str()));
    }
    let binary = match address_for(assets, asset) {
        None => {
            return Err(no_asset(asset));
        },
        Some(address) => address,
    };
    let mut checksum_name = asset.to_string();
    checksum_name.append(".sha256");
    match address_for(assets, checksum_name.as_str()) {
        None => Err(no_asset(checksum_name.as_str())),
        Some(checksum) => Ok((binary, checksum)),
    }
}

/// The command that the user has configured in place of the server, if one is.
pub fn configured_command(path: Option<String>, arguments: Option<Vec<String>>) -> (r: Option<
    (String, Vec<String>),
>)
    ensures
        r is Some <==> path is Some,
        r matches Some((command, given)) ==> Some(command) == path && (arguments matches Some(
            wanted,
        ) ==> given@ == wanted@) && (arguments is None ==> given@ == Seq::<String>::empty()),
        match path {
            None => r is None,
            Some(command) => match arguments {
                Some(given) => r == Some((command, given)),
                None => r matches Some((same, none)) && same == command && none@.len() == 0,
            },
        },
{
    match path {
        None => None,
        Some(command) => match arguments {
            Some(given) => Some((command, given)),
            None => Some((command, Vec::new())),
        },
    }
}

// ---------------------------------------------------------------------------
// Laws
// ---------------------------------------------------------------------------

/// Whether a text ends with another.
pub open spec fn ends_with(s: Seq<char>, end: Seq<char>) -> bool {
    end.len() <= s.len() && s.skip(s.len() - end.len()) == end
}

/// A machine gets a server that is made for it: the name of the file tells the
/// processor and the system, on every system that there is a server for.
pub proof fn law_assets_are_made_for_the_machine(os: Os, architecture: Architecture)
    ensures
        asset_name(os, architecture) is Ok <==> os != Os::Windows && architecture
            != Architecture::X86,
        asset_name(os, architecture) matches Ok(name) ==> {
            &&& text::starts_with(name, "ansible-vault-lsp-"@)
            &&& architecture == Architecture::Aarch64 ==> ends_with(name, "-aarch64"@)
            &&& architecture == Architecture::X8664 ==> ends_with(name, "-x86_64"@)
            &&& os == Os::Mac ==> text::starts_with(name, "ansible-vault-lsp-darwin-"@)
            &&& os == Os::Linux ==> text::starts_with(name, "ansible-vault-lsp-linux-"@)
        },
{
    reveal_strlit("ansible-vault-lsp");
    reveal_strlit("ansible-vault-lsp-");
    reveal_strlit("ansible-vault-lsp-darwin-");
    reveal_strlit("ansible-vault-lsp-linux-");
    reveal_strlit("-darwin");
    reveal_strlit("-linux");
    reveal_strlit("-aarch64");
    reveal_strlit("-x86_64");
    if let Ok(name) = asset_name(os, architecture) {
        assert(name.take(18) =~= "ansible-vault-lsp-"@);
        if os == Os::Mac {
            assert(name.take(25) =~= "ansible-vault-lsp-darwin-"@);
        } else {
            assert(name.take(24) =~= "ansible-vault-lsp-linux-"@);
        }
        if architecture == Architecture::Aarch64 {
            assert(name.skip(name.len() - 8) =~= "-aarch64"@);
        } else {
            assert(name.skip(name.len() - 7) =~= "-x86_64"@);
        }
    }
}

/// Two machines get the same file only where system and processor are the same.
pub proof fn law_assets_tell_machines_apart(
    os: Os,
    architecture: Architecture,
    other_os: Os,
    other_architecture: Architecture,
)
    requires
        asset_name(os, architecture) is Ok,
        asset_name(os, architecture) == asset_name(other_os, other_architecture),
    ensures
        os == other_os,
        architecture == other_architecture,
{
    law_assets_are_made_for_the_machine(os, architecture);
    law_assets_are_made_for_the_machine(other_os, other_architecture);
    let name = asset_name(os, architecture)->Ok_0;
    reveal_strlit("ansible-vault-lsp-darwin-");
    reveal_strlit("ansible-vault-lsp-linux-");
    reveal_strlit("-aarch64");
    reveal_strlit("-x86_64");
    if os != other_os {
        assert(name[18] == name.take(25)[18] && name[18] == name.take(24)[18]);
    }
    if architecture != other_architecture {
        let n = name.len();
        assert(name.skip(n - 8)[7] == name[n - 1]);
        assert(name.skip(n - 7)[6] == name[n - 1]);
        assert(name.skip(n - 8)[6] == name[n - 2]);
        assert(name.skip(n - 7)[5] == name[n - 2]);
    }
}

/// The first file of a release with the wanted name is taken, and its checksum file, whose
/// name ends in `.sha256`. Another release, and a release without one of the two, cannot be
/// used.
pub proof fn law_releases_need_both_files(
    version: Seq<char>,
    files: Seq<(Seq<char>, Seq<char>)>,
    asset: Seq<char>,
)
    ensures
        version != "v0.2.0"@ && version != "0.2.0"@ ==> release_files(version, files, asset)
            == Err::<(Seq<char>, Seq<char>), Seq<char>>(
            "GitHub returned release "@ + version + (" while "@ + "v0.2.0"@ + " was requested"@),
        ),
        (version == "v0.2.0"@ || version == "0.2.0"@) && (forall|j: int|
            0 <= j < files.len() ==> (#[trigger] files[j]).0 != asset) ==> release_files(
            version,
            files,
            asset,
        ) == Err::<(Seq<char>, Seq<char>), Seq<char>>(
            "release "@ + "v0.2.0"@ + (" has no asset "@ + asset),
        ),
        (version == "v0.2.0"@ || version == "0.2.0"@) && (exists|j: int|
            0 <= j < files.len() && (#[trigger] files[j]).0 == asset) && (forall|j: int|
            0 <= j < files.len() ==> (#[trigger] files[j]).0 != asset + ".sha256"@)
            ==> release_files(version, files, asset) == Err::<(Seq<char>, Seq<char>), Seq<char>>(
            "release "@ + "v0.2.0"@ + (" has no asset "@ + (asset + ".sha256"@)),
        ),
{
    reveal_strlit("v");
    reveal_strlit("0.2.0");
    reveal_strlit("v0.2.0");
    assert(tag() =~= "v0.2.0"@);
    lemma_no_address(files, asset, 0);
    lemma_no_address(files, asset + ".sha256"@, 0);
}

proof fn lemma_no_address(files: Seq<(Seq<char>, Seq<char>)>, name: Seq<char>, i: int)
    requires
        0 <= i <= files.len(),
    ensures
        address_of(files, name, i) is None <==> forall|j: int|
            i <= j < files.len() ==> (#[trigger] files[j]).0 != name,
    decreases files.len() - i,
{
    if i < files.len() {
        lemma_no_address(files, name, i + 1);
        if files[i].0 != name {
            if address_of(files, name, i) is None {
                assert forall|j: int| i <= j < files.len() implies (#[trigger] files[j]).0
                    != name by {}
            }
        }
    }
}

/// A text of sixty-four hexadecimal digits, in whatever case.
pub open spec fn sixty_four_digits(word: Seq<char>) -> bool {
    word.len() == 64 && forall|i: int|
        0 <= i < word.len() ==> '0' <= #[trigger] word[i] <= '9' || 'a' <= word[i] <= 'f' || 'A'
            <= word[i] <= 'F'
}

/// A server is accepted exactly where the first word of its checksum file is the digest of
/// its bytes in hexadecimal, in whatever case, whatever stands before and behind that word.
/// Anything else in that place is no digest, and a blank file names none.
pub proof fn law_servers_are_held_to_their_checksum(
    before: Seq<char>,
    word: Seq<char>,
    behind: Seq<char>,
    bytes: Seq<u8>,
    reason: Seq<char>,
)
    requires
        text::all_blank(before),
        word.len() > 0,
        forall|i: int| 0 <= i < word.len() ==> !text::white_space(#[trigger] word[i]),
        behind.len() > 0 ==> text::white_space(behind[0]),
    ensures
        ({
            let content = before + word + behind;
            let small = text::lowered(word);
            let actual = digest::hex(digest::sha256_digest(bytes));
            &&& !sixty_four_digits(word) ==> checksum_failure(Ok(content), Ok(bytes)) == Some(
                "server checksum is not a valid SHA-256 digest"@,
            )
            &&& sixty_four_digits(word) && small == actual ==> checksum_failure(
                Ok(content),
                Ok(bytes),
            ) is None
            &&& sixty_four_digits(word) && small != actual ==> checksum_failure(
                Ok(content),
                Ok(bytes),
            ) == Some(
                "language server checksum mismatch: expected "@ + small + (", got "@ + actual),
            )
            &&& sixty_four_digits(word) ==> checksum_failure(Ok(content), Err(reason)) == Some(
                "failed to read downloaded language server: "@ + reason,
            )
            &&& checksum_failure(Err(reason), Ok(bytes)) == Some(
                "failed to read server checksum: "@ + reason,
            )
            &&& checksum_failure(Ok(before), Ok(bytes)) == Some("server checksum file is empty"@)
        }),
{
    let content = before + word + behind;
    let n = before.len() as int;
    assert forall|k: int| 0 <= k < n implies text::blank()(#[trigger] content[k]) by {
        assert(content[k] == before[k]);
    }
    assert(content[n] == word[0]);
    text::lemma_prefix_len(content, text::blank(), n);
    let t = word + behind;
    assert(text::trim_start(content) =~= t);
    assert forall|k: int| 0 <= k < word.len() implies text::visible()(#[trigger] t[k]) by {
        assert(t[k] == word[k]);
    }
    if behind.len() > 0 {
        assert(t[word.len() as int] == behind[0]);
    }
    text::lemma_prefix_len(t, text::visible(), word.len() as int);
    assert(t.take(word.len() as int) =~= word);
    assert(text::words(content)[0] == word);
    let small = text::lowered(word);
    assert forall|i: int| 0 <= i < word.len() implies validation::hex_digit(#[trigger] small[i])
        == ('0' <= word[i] <= '9' || 'a' <= word[i] <= 'f' || 'A' <= word[i] <= 'F') by {
        text::law_letters_have_two_cases(word[i]);
    }
    if sixty_four_digits(word) {
        assert forall|i: int| 0 <= i < small.len() implies validation::hex_digit(
            #[trigger] small[i],
        ) by {
            assert('0' <= word[i] <= '9' || 'a' <= word[i] <= 'f' || 'A' <= word[i] <= 'F');
        }
    }
    if digest_text(small) {
        assert forall|i: int| 0 <= i < word.len() implies '0' <= #[trigger] word[i] <= '9' || 'a'
            <= word[i] <= 'f' || 'A' <= word[i] <= 'F' by {
            assert(validation::hex_digit(small[i]));
        }
    }
    text::lemma_trim_empty(before);
    text::lemma_prefix_len_bounds(text::trim_start(before), text::visible());
    assert(text::words(before).len() == 0);
}

/// Machines that there is no server for are told so.
pub proof fn law_other_machines_are_told(os: Os, architecture: Architecture)
    ensures
        os == Os::Windows ==> asset_name(os, architecture) == Err::<Seq<char>, Seq<char>>(
            "Ansible Vault extension "@ + "0.2.0"@ + " supports macOS and Linux only"@,
        ),
        os != Os::Windows && architecture == Architecture::X86 ==> asset_name(os, architecture)
            == Err::<Seq<char>, Seq<char>>(
            "32-bit platforms are not supported by Ansible Vault extension"@,
        ),
{
}

} // verus!
