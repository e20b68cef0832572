//! BLAKE2s-256, plain and keyed, computed by the `blake2` crate.
use vstd::prelude::*;
use blake2::digest::{Digest, Mac, KeyInit};

verus! {

/// The BLAKE2s-256 digest (RFC 7693) of `data`.
pub uninterp spec fn blake2s_256_spec(data: Seq<u8>) -> Seq<u8>;

/// The BLAKE2s-256 digest of `data` keyed with the 32-byte `key`.
pub uninterp spec fn keyed_blake2s_spec(key: Seq<u8>, data: Seq<u8>) -> Seq<u8>;

/// Trusted: `<blake2::Blake2s256 as Digest>::digest`; a pure function of its
/// input, named `blake2s_256_spec`.
#[verifier::external_body]
pub(crate) fn blake2s_256(data: &[u8]) -> (r: [u8; 32])
    ensures r@ == blake2s_256_spec(data@),
{
    let out = blake2::Blake2s256::digest(data);
    let mut r = [0u8; 32];
    r.copy_from_slice(&out);
    r
}

/// Trusted: `blake2::Blake2sMac256` keyed with the 32-byte `key`, fed `data`
/// and finalized; a pure function of key and data, named `keyed_blake2s_spec`.
#[verifier::external_body]
pub(crate) fn keyed_blake2s_256(key: &[u8; 32], data: &[u8]) -> (r: [u8; 32])
    ensures r@ == keyed_blake2s_spec(key@, data@),
{
    let mut m = <blake2::Blake2sMac256 as KeyInit>::new(key.into());
    m.update(data);
    let out = m.finalize().into_bytes();
    let mut r = [0u8; 32];
    r.copy_from_slice(&out);
    r
}

} // verus!
