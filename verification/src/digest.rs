//! SHA-256 digests.

use vstd::prelude::*;
use sha2::Digest;

verus! {

/// What `format!("{:x}", Sha256::digest(data))` writes: the lowercase hex SHA-256 of the bytes.
pub uninterp spec fn sha256_hex_of(data: Seq<u8>) -> Seq<char>;

/// `Sha256::digest` in lowercase hex. The claim: the result is the named digest of exactly
/// these bytes, 64 hex digits long.
#[verifier::external_body]
pub(crate) fn sha256_hex(data: &[u8]) -> (r: String)
    ensures
        r@ == sha256_hex_of(data@),
        r@.len() == 64,
{

    format!("{:x}", sha2::Sha256::digest(data))
}

/// The digest of a string's UTF-8 bytes.
pub fn sha256_of_text(s: &str) -> (r: String)
    ensures
        r@ == sha256_hex_of(crate::text::utf8(s@)),
{
    sha256_hex(s.as_bytes())
}

} // verus!
