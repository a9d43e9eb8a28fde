//! Digests: the names of objects, computed from their bytes with SHA-1.

use sha1::Digest;
use vstd::prelude::*;

use crate::text::{hex_digit, is_hex_digit, to_chars};

verus! {

/// Number of characters in a digest.
pub const HASH_LENGTH: usize = 40;

/// Number of bytes in a raw hash.
pub const RAW_HASH_LENGTH: usize = 20;

/// The SHA-1 hash of `data`, as computed by the `sha1` crate.
pub uninterp spec fn sha1_digest(data: Seq<u8>) -> Seq<u8>;

/// Hashes `data` with `sha1::Sha1::digest` (from the `Digest` trait).
///
/// Trusted: the result is the crate's SHA-1 of `data`, a function of the bytes alone,
/// and it is twenty bytes long (the hasher's output size is fixed at twenty).
#[verifier::external_body]
fn sha1_of(data: &[u8]) -> (out: Vec<u8>)
    ensures
        out@ == sha1_digest(data@),
        out@.len() == RAW_HASH_LENGTH,
{
    sha1::Sha1::digest(data).to_vec()
}

/// The lower-case hexadecimal digit for a value below sixteen.
pub open spec fn hex_char(nibble: int) -> char {
    if nibble == 0 {
        '0'
    } else if nibble == 1 {
        '1'
    } else if nibble == 2 {
        '2'
    } else if nibble == 3 {
        '3'
    } else if nibble == 4 {
        '4'
    } else if nibble == 5 {
        '5'
    } else if nibble == 6 {
        '6'
    } else if nibble == 7 {
        '7'
    } else if nibble == 8 {
        '8'
    } else if nibble == 9 {
        '9'
    } else if nibble == 10 {
        'a'
    } else if nibble == 11 {
        'b'
    } else if nibble == 12 {
        'c'
    } else if nibble == 13 {
        'd'
    } else if nibble == 14 {
        'e'
    } else {
        'f'
    }
}

/// Lower-case hexadecimal text of `bytes`: two digits per byte, high half first.
pub open spec fn hex_lower(bytes: Seq<u8>) -> Seq<char> {
    Seq::new(
        2 * bytes.len(),
        |i: int|
            if i % 2 == 0 {
                hex_char(bytes[i / 2] as int / 16)
            } else {
                hex_char(bytes[i / 2] as int % 16)
            },
    )
}

/// Encodes `bytes` with `hex::encode`.
///
/// Trusted: the result has two lower-case hexadecimal digits for each byte, in order,
/// the high four bits first, as the crate's table-driven encoder produces them.
#[verifier::external_body]
fn hex_of(bytes: &[u8]) -> (s: String)
    ensures
        s@ == hex_lower(bytes@),
{
    hex::encode(bytes)
}

/// Whether `s` has the shape of a digest: forty hexadecimal digits.
pub open spec fn is_digest(s: Seq<char>) -> bool {
    &&& s.len() == HASH_LENGTH
    &&& forall|i: int| 0 <= i < s.len() ==> is_hex_digit(#[trigger] s[i])
}

/// `raw` if it is twenty bytes long, and otherwise its first twenty bytes, filled up with
/// zeros. Hashes always are twenty bytes long, so this changes none of them; it makes the
/// shape of a digest hold of every byte string a specification may speak of.
pub open spec fn twenty_bytes(raw: Seq<u8>) -> Seq<u8> {
    Seq::new(
        RAW_HASH_LENGTH as nat,
        |i: int|
            if i < raw.len() {
                raw[i]
            } else {
                0u8
            },
    )
}

/// The digest under which the store keeps `content`: its SHA-1 hash in hexadecimal.
pub open spec fn object_digest(content: Seq<u8>) -> Seq<char> {
    hex_lower(twenty_bytes(sha1_digest(content)))
}

/// Every object digest has the shape of a digest.
pub proof fn lemma_object_digest_is_digest(content: Seq<u8>)
    ensures
        is_digest(object_digest(content)),
{
    assert(twenty_bytes(sha1_digest(content)).len() == RAW_HASH_LENGTH);
}

/// Whether `hash` is forty hexadecimal digits.
pub fn is_valid_hash(hash: &str) -> (valid: bool)
    ensures
        valid == is_digest(hash@),
{
    let chars = to_chars(hash);
    if chars.len() != HASH_LENGTH {
        return false;
    }
    let mut i: usize = 0;
    while i < chars.len()
        invariant
            i <= chars.len(),
            chars@ == hash@,
            forall|j: int| 0 <= j < i ==> is_hex_digit(#[trigger] chars@[j]),
        decreases chars.len() - i,
    {
        if !hex_digit(chars[i]) {
            return false;
        }
        i += 1;
    }
    true
}

/// Computes the digest of `content`.
pub fn digest_of(content: &[u8]) -> (digest: String)
    ensures
        digest@ == object_digest(content@),
        is_digest(digest@),
{
    let raw = sha1_of(content);
    let digest = hex_of(raw.as_slice());
    digest
}

} // verus!
