//! ECDSA P-256 signature verification over a precomputed digest, computed
//! by the `p256` crate.
use vstd::prelude::*;
use p256::ecdsa::signature::hazmat::PrehashVerifier;

verus! {

/// Whether `(r, s)` is a valid ECDSA P-256 signature of the 32-byte digest
/// `digest` under the SEC1-encoded public point `point`.
pub uninterp spec fn p256_verify_spec(point: Seq<u8>, digest: Seq<u8>, r: Seq<u8>, s: Seq<u8>) -> bool;

/// Trusted: `p256::ecdsa::VerifyingKey::from_sec1_bytes(point)`,
/// `p256::ecdsa::Signature::from_scalars(r, s)` and
/// `PrehashVerifier::verify_prehash(digest)`; false when the point or the
/// scalars are rejected. A pure function of its inputs, named
/// `p256_verify_spec`.
#[verifier::external_body]
pub(crate) fn verify_p256(point: &[u8; 65], digest: &[u8; 32], r: &[u8; 32], s: &[u8; 32]) -> (ok: bool)
    ensures ok == p256_verify_spec(point@, digest@, r@, s@),
{
    let key = match p256::ecdsa::VerifyingKey::from_sec1_bytes(point) {
        Ok(k) => k,
        Err(_) => return false,
    };
    let sig = match p256::ecdsa::Signature::from_scalars(*r, *s) {
        Ok(x) => x,
        Err(_) => return false,
    };
    key.verify_prehash(digest, &sig).is_ok()
}

} // verus!
