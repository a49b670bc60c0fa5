//! Bytes that processes write and files hold.
use crate::text;
use vstd::prelude::*;

verus! {

/// The text that bytes encode, where they are UTF-8.
pub open spec fn utf8_text(bytes: Seq<u8>) -> Option<Seq<char>> {
    if vstd::utf8::valid_utf8(bytes) {
        Some(vstd::utf8::decode_utf8(bytes))
    } else {
        None
    }
}

/// Reads bytes as text with `std::str::from_utf8`, which succeeds exactly on
/// UTF-8 and gives the text that the bytes encode.
#[verifier::external_body]
pub(crate) fn utf8(bytes: &[u8]) -> (r: Option<&str>)
    ensures
        match r {
            Some(text) => utf8_text(bytes@) == Some(text@),
            None => utf8_text(bytes@) is None,
        },
{
    std::str::from_utf8(bytes).ok()
}

/// Whether an ASCII text stands in the bytes from `i` on.
pub open spec fn word_at(bytes: Seq<u8>, word: Seq<char>, i: int) -> bool {
    forall|k: int| 0 <= k < word.len() ==> (bytes[i + k] as char) == #[trigger] word[k]
}

/// Whether an ASCII text stands anywhere in the bytes.
pub open spec fn contains_word(bytes: Seq<u8>, word: Seq<char>) -> bool {
    exists|i: int| 0 <= i <= bytes.len() - word.len() && #[trigger] word_at(bytes, word, i)
}

/// The bytes with the ASCII letters small.
pub open spec fn lowered_bytes(bytes: Seq<u8>) -> Seq<u8> {
    bytes.map_values(|b: u8| lower_byte(b))
}

pub open spec fn lower_byte(b: u8) -> u8 {
    if 0x41 <= b <= 0x5a {
        (b + 32) as u8
    } else {
        b
    }
}

pub fn has_word(bytes: &[u8], word: &str) -> (r: bool)
    ensures
        r == contains_word(bytes@, word@),
{
    let held = text::chars_of(word);
    let n: usize = held.len();
    let total: usize = bytes.len();
    if n > total {
        return false;
    }
    let last: usize = total - n;
    let mut i: usize = 0;
    while i <= last
        invariant
            held@ == word@,
            n == word@.len(),
            last + n == total,
            total == bytes@.len(),
            i <= last + 1,
            forall|k: int| 0 <= k < i ==> !#[trigger] word_at(bytes@, word@, k),
        decreases last + 1 - i,
    {
        let mut k: usize = 0;
        while k < n && bytes[i + k] as char == held[k]
            invariant
                held@ == word@,
                n == word@.len(),
                last + n == total,
                total == bytes@.len(),
                i <= last,
                k <= n,
                forall|j: int| 0 <= j < k ==> (bytes@[i + j] as char) == #[trigger] word@[j],
            decreases n - k,
        {
            k = k + 1;
        }
        if k == n {
            proof {
                assert(word_at(bytes@, word@, i as int));
            }
            return true;
        }
        proof {
            assert(word@[k as int] != bytes@[i + k] as char);
            assert(!word_at(bytes@, word@, i as int));
        }
        if i == last {
            return false;
        }
        i = i + 1;
    }
    false
}

pub fn lowered_bytes_of(bytes: &[u8]) -> (r: Vec<u8>)
    ensures
        r@ == lowered_bytes(bytes@),
{
    let mut out: Vec<u8> = Vec::new();
    for i in 0..bytes.len()
        invariant
            out@ == lowered_bytes(bytes@.take(i as int)),
    {
        let b = bytes[i];
        out.push(
            if 0x41 <= b && b <= 0x5a {
                b + 32
            } else {
                b
            },
        );
        proof {
            assert(out@ =~= lowered_bytes(bytes@.take(i + 1)));
        }
    }
    proof {
        assert(bytes@.take(bytes@.len() as int) =~= bytes@);
    }
    out
}

pub fn same_bytes(a: &[u8], b: &[u8]) -> (r: bool)
    ensures
        r == (a@ == b@),
{
    if a.len() != b.len() {
        return false;
    }
    for i in 0..a.len()
        invariant
            a@.len() == b@.len(),
            forall|k: int| 0 <= k < i ==> a@[k] == b@[k],
    {
        if a[i] != b[i] {
            return false;
        }
    }
    proof {
        assert(a@ =~= b@);
    }
    true
}

} // verus!
