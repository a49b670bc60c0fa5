//! SHA-256 digests.
use crate::bytes;
use vstd::prelude::*;

verus! {

/// The SHA-256 digest of some bytes.
pub uninterp spec fn sha256_digest(bytes: Seq<u8>) -> Seq<u8>;

/// Computes a digest with `sha2::Sha256::digest`. Claimed: the digest depends on
/// the bytes alone.
#[verifier::external_body]
fn sha256(bytes: &[u8]) -> (r: [u8; 32])
    ensures
        r@ == sha256_digest(bytes@),
{
    <sha2::Sha256 as sha2::Digest>::digest(bytes).into()
}

/// The digest of some bytes.
pub fn hash_bytes(bytes: &[u8]) -> (r: [u8; 32])
    ensures
        r@ == sha256_digest(bytes@),
{
    sha256(bytes)
}

/// Whether two digests are the same.
pub fn same_hash(a: &[u8; 32], b: &[u8; 32]) -> (r: bool)
    ensures
        r == (a@ == b@),
{
    bytes::same_bytes(a.as_slice(), b.as_slice())
}

/// The digit for a number below sixteen.
pub open spec fn hex_digit(n: int) -> char {
    if n < 10 {
        (n + 0x30) as char
    } else {
        (n - 10 + 0x61) as char
    }
}

/// Bytes in hexadecimal, two small digits for each.
pub open spec fn hex(bytes: Seq<u8>) -> Seq<char> {
    Seq::new(
        bytes.len() * 2,
        |i: int|
            if i % 2 == 0 {
                hex_digit(bytes[i / 2] as int / 16)
            } else {
                hex_digit(bytes[i / 2] as int % 16)
            },
    )
}

fn hex_digit_of(n: u8) -> (r: char)
    requires
        n < 16,
    ensures
        r == hex_digit(n as int),
{
    if n < 10 {
        (n + 0x30) as char
    } else {
        (n - 10 + 0x61) as char
    }
}

/// Writes bytes in hexadecimal.
pub fn hex_of(bytes: &[u8]) -> (r: String)
    ensures
        r@ == hex(bytes@),
{
    let mut out = String::new();
    for i in 0..bytes.len()
        invariant
            out@ == hex(bytes@.take(i as int)),
    {
        let b = bytes[i];
        out.push(hex_digit_of(b / 16));
        out.push(hex_digit_of(b % 16));
        proof {
            let (before, after) = (bytes@.take(i as int), bytes@.take(i + 1));
            assert forall|k: int| 0 <= k < 2 * i implies hex(after)[k] == hex(before)[k] by {
                assert(after[k / 2] == before[k / 2]);
            }
            assert(after[i as int] == b);
            assert(hex(after)[2 * i] == hex_digit(b as int / 16));
            assert(hex(after)[2 * i + 1] == hex_digit(b as int % 16));
            assert(out@ =~= hex(after));
        }
    }
    proof {
        assert(bytes@.take(bytes@.len() as int) =~= bytes@);
    }
    out
}

/// The number that a small hexadecimal digit stands for.
pub open spec fn digit_value(c: char) -> int {
    if '0' <= c <= '9' {
        c as int - '0' as int
    } else {
        c as int - 'a' as int + 10
    }
}

/// Every byte can be read back from the two digits it is written in: the first stands for
/// the sixteens and the second for the rest, and letters are small.
pub proof fn law_bytes_are_read_back(bytes: Seq<u8>, i: int)
    requires
        0 <= i < bytes.len(),
    ensures
        ({
            let s = hex(bytes);
            &&& s.len() == 2 * bytes.len()
            &&& '0' <= s[2 * i] <= '9' || 'a' <= s[2 * i] <= 'f'
            &&& '0' <= s[2 * i + 1] <= '9' || 'a' <= s[2 * i + 1] <= 'f'
            &&& 16 * digit_value(s[2 * i]) + digit_value(s[2 * i + 1]) == bytes[i]
        }),
{
    let s = hex(bytes);
    let b = bytes[i] as int;
    assert(0 <= b / 16 < 16 && 0 <= b % 16 < 16);
    assert((2 * i) % 2 == 0 && (2 * i) / 2 == i);
    assert((2 * i + 1) % 2 == 1 && (2 * i + 1) / 2 == i);
    assert(s[2 * i] == hex_digit(b / 16));
    assert(s[2 * i + 1] == hex_digit(b % 16));
}

} // verus!
