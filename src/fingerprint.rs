//! Content fingerprints of file bytes.

use vstd::prelude::*;

verus! {

/// The SHA-256 digest of a byte sequence, written as lowercase hexadecimal.
pub uninterp spec fn sha256_hex(b: Seq<u8>) -> Seq<char>;

/// A lowercase hexadecimal digit.
pub open spec fn is_lower_hex_digit(c: char) -> bool {
    ('0' <= c && c <= '9') || ('a' <= c && c <= 'f')
}

/// Relies on `sha256::digest` over a byte slice: it hashes the bytes with
/// SHA-256 and hex-encodes the 32 digest bytes with `hex::encode`, two
/// lowercase digits for each.
#[verifier::external_body]
fn sha256_digest(bytes: &[u8]) -> (r: String)
    ensures
        r@ == sha256_hex(bytes@),
        r@.len() == 64,
        forall|i: int| 0 <= i < r@.len() ==> is_lower_hex_digit(#[trigger] r@[i]),
{
    sha256::digest(bytes)
}

/// The fingerprint of a file's contents: its SHA-256 digest in hexadecimal.
/// Equal contents always give equal fingerprints.
pub fn fingerprint(contents: &[u8]) -> (r: String)
    ensures
        r@ == sha256_hex(contents@),
        r@.len() == 64,
        forall|i: int| 0 <= i < r@.len() ==> is_lower_hex_digit(#[trigger] r@[i]),
{
    sha256_digest(contents)
}

} // verus!
