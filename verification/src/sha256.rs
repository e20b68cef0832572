//! SHA-256, computed by the `sha2` crate.
use vstd::prelude::*;
use sha2::Digest;

verus! {

/// The SHA-256 digest (FIPS 180-4) of `data`.
pub uninterp spec fn sha256_digest(data: Seq<u8>) -> Seq<u8>;

/// Trusted: `<sha2::Sha256 as digest::Digest>::digest`. It is a pure
/// function of its input; the claim is only that the 32 bytes returned are
/// the digest named `sha256_digest` of the input.
#[verifier::external_body]
pub(crate) fn hash(data: &[u8]) -> (r: [u8; 32])
    ensures r@ == sha256_digest(data@),
{
    let out = sha2::Sha256::digest(data);
    let mut r = [0u8; 32];
    r.copy_from_slice(&out);
    r
}

} // verus!
