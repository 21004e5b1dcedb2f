use vstd::prelude::*;

verus! {

/// Lowercase hex of the SHA-256 digest of `b`.
pub uninterp spec fn sha256_hex_of(b: Seq<u8>) -> Seq<char>;

/// Relies on `sha2::Sha256::digest` and on the `LowerHex` formatting of its
/// 32-byte output, which prints two lowercase hex digits per byte.
#[verifier::external_body]
fn sha256_hex(b: &[u8]) -> (r: String)
    ensures
        r@ == sha256_hex_of(b@),
        r@.len() == 64,
{
    format!("{:x}", <sha2::Sha256 as sha2::Digest>::digest(b))
}

/// Cache key of a video render: the SHA-256 hex of the serialized commands.
pub fn compute_video_cache_key(serialized: &[u8]) -> (r: String)
    ensures
        r@ == sha256_hex_of(serialized@),
        r@.len() == 64,
{
    sha256_hex(serialized)
}

} // verus!
