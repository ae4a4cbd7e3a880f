//! Content fingerprints: the lowercase hex form of a file's SHA-256 digest.

use sha2::Digest;
use vstd::prelude::*;

verus! {

/// The SHA-256 digest of `data`, as sha2 computes it.
pub uninterp spec fn sha256_of(data: Seq<u8>) -> Seq<u8>;

/// The lowercase hexadecimal digit for a value below sixteen.
pub open spec fn hex_digit(n: u8) -> char
    recommends
        n < 16,
{
    seq!['0', '1', '2', '3', '4', '5', '6', '7', '8', '9', 'a', 'b', 'c', 'd', 'e', 'f'][n as int]
}

/// Each byte as two lowercase hex digits, high half first.
pub open spec fn hex_lower(bytes: Seq<u8>) -> Seq<char>
    decreases bytes.len(),
{
    if bytes.len() == 0 {
        Seq::empty()
    } else {
        let b = bytes.last();
        hex_lower(bytes.drop_last()) + seq![hex_digit(b / 16), hex_digit(b % 16)]
    }
}

/// The fingerprint of a file whose contents are `data`.
pub open spec fn fingerprint_of(data: Seq<u8>) -> Seq<char> {
    hex_lower(sha256_of(data))
}

/// Relies on sha2's `Sha256::digest` for the 32-byte digest of `data`, and on
/// the `LowerHex` formatting of that digest (generic-array): two lowercase
/// digits per byte, high half first.
#[verifier::external_body]
fn sha256_hex(data: &[u8]) -> (r: String)
    ensures
        r@ == hex_lower(sha256_of(data@)),
        r@.len() == 64,
{
    format!("{:x}", sha2::Sha256::digest(data))
}

/// The fingerprint of `data`.
pub fn fingerprint(data: &[u8]) -> (r: String)
    ensures
        r@ == fingerprint_of(data@),
        r@.len() == 64,
{
    sha256_hex(data)
}

} // verus!
