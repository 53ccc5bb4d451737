//! BLAKE3 content digests, rendered as 64 lowercase hex characters.

use vstd::prelude::*;

verus! {

/// The hex rendering of the BLAKE3 digest of a byte sequence.
/// The digest depends on the bytes alone.
pub uninterp spec fn blake3_hex(bytes: Seq<u8>) -> Seq<char>;

/// A lowercase hexadecimal digit.
pub open spec fn is_lower_hex_char(c: char) -> bool {
    ('0' <= c && c <= '9') || ('a' <= c && c <= 'f')
}

/// The shape of a rendered digest: exactly 64 lowercase hex digits.
pub open spec fn is_hex_digest(s: Seq<char>) -> bool {
    s.len() == 64 && forall|i: int| 0 <= i < s.len() ==> is_lower_hex_char(#[trigger] s[i])
}

/// Relies on blake3::hash and blake3::Hash::to_hex: the digest is a function
/// of the input bytes alone, rendered as 64 lowercase hex characters.
#[verifier::external_body]
pub fn hash_bytes(bytes: &Vec<u8>) -> (r: String)
    ensures
        r@ == blake3_hex(bytes@),
        is_hex_digest(r@),
{
    blake3::hash(bytes.as_slice()).to_hex().as_str().to_string()
}

/// Checks that a string has the shape of a rendered digest.
pub fn check_hex_digest(s: &str) -> (r: bool)
    ensures
        r == is_hex_digest(s@),
{
    let n: usize = s.unicode_len();
    if n != 64 {
        return false;
    }
    let mut i: usize = 0;
    while i < n
        invariant
            n == s@.len(),
            i <= n,
            forall|j: int| 0 <= j < i ==> is_lower_hex_char(#[trigger] s@[j]),
        decreases n - i,
    {
        let c = s.get_char(i);
        if !(('0' <= c && c <= '9') || ('a' <= c && c <= 'f')) {
            return false;
        }
        i = i + 1;
    }
    true
}

/// Two byte-identical contents always render to the same digest.
pub proof fn lemma_identical_content_same_digest(a: Seq<u8>, b: Seq<u8>)
    requires
        a == b,
    ensures
        blake3_hex(a) == blake3_hex(b),
{
}

} // verus!
