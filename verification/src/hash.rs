//! SHA-256 content hashing, used to identify documents by their bytes.
use vstd::prelude::*;

use sha2::Digest;

verus! {

/// The lowercase hexadecimal SHA-256 digest of a byte sequence: a
/// function of the bytes alone, computed by the hashing crate.
pub uninterp spec fn sha256_hex_of(bytes: Seq<u8>) -> Seq<char>;

/// A lowercase hexadecimal digit.
pub open spec fn is_hex_digit(c: char) -> bool {
    (0x30 <= (c as u32) && (c as u32) <= 0x39) || (0x61 <= (c as u32) && (c as u32) <= 0x66)
}

/// Relies on sha2's `Sha256::digest` and the `LowerHex` formatting of its
/// output: the 32-byte digest is a function of the input bytes alone and
/// prints as 64 lowercase hexadecimal digits.
#[verifier::external_body]
fn sha256_hex(bytes: &[u8]) -> (r: String)
    ensures
        r@ == sha256_hex_of(bytes@),
        r@.len() == 64,
        forall|i: int| 0 <= i < r@.len() ==> is_hex_digit(#[trigger] r@[i]),
{
    let digest = sha2::Sha256::digest(bytes);
    format!("{:x}", digest)
}

/// The SHA-256 digest of the given bytes, as 64 lowercase hexadecimal
/// digits.
pub fn hash_bytes(data: &[u8]) -> (r: String)
    ensures
        r@ == sha256_hex_of(data@),
        r@.len() == 64,
        forall|i: int| 0 <= i < r@.len() ==> is_hex_digit(#[trigger] r@[i]),
{
    sha256_hex(data)
}

} // verus!
