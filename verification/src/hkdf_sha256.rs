//! HMAC-SHA256 and HKDF-SHA256 (RFC 2104, RFC 5869), computed by the
//! `hmac` and `hkdf` crates.
use vstd::prelude::*;
use hmac::Mac;

verus! {

/// HMAC-SHA256 of `msg` under `key`.
pub uninterp spec fn hmac_sha256_spec(key: Seq<u8>, msg: Seq<u8>) -> Seq<u8>;

/// HKDF-Extract with SHA-256: the pseudorandom key from `salt` and `ikm`.
pub uninterp spec fn hkdf_extract_spec(salt: Seq<u8>, ikm: Seq<u8>) -> Seq<u8>;

/// HKDF-Expand with SHA-256: `len` bytes of output keying material from
/// the pseudorandom key `prk` and context `info`.
pub uninterp spec fn hkdf_expand_spec(prk: Seq<u8>, info: Seq<u8>, len: nat) -> Seq<u8>;

/// Trusted: `hmac::Hmac::<sha2::Sha256>` keyed with `new_from_slice`, fed
/// `msg`, finalized. HMAC takes keys of any length, so the keying never
/// fails; the claim is only that the tag is the function named
/// `hmac_sha256_spec` of key and message.
#[verifier::external_body]
pub(crate) fn hmac_sha256(key: &[u8], msg: &[u8]) -> (r: [u8; 32])
    ensures r@ == hmac_sha256_spec(key@, msg@),
{
    let mut r = [0u8; 32];
    if let Ok(mut m) = hmac::Hmac::<sha2::Sha256>::new_from_slice(key) {
        m.update(msg);
        r.copy_from_slice(&m.finalize().into_bytes());
    }
    r
}

/// Trusted: `hkdf::Hkdf::<sha2::Sha256>::extract(Some(salt), ikm)`, the
/// 32-byte pseudorandom key; a function of salt and input key material,
/// named `hkdf_extract_spec`.
#[verifier::external_body]
pub(crate) fn hkdf_extract(salt: &[u8], ikm: &[u8]) -> (r: [u8; 32])
    ensures r@ == hkdf_extract_spec(salt@, ikm@),
{
    let (prk, _) = hkdf::Hkdf::<sha2::Sha256>::extract(Some(salt), ikm);
    let mut r = [0u8; 32];
    r.copy_from_slice(&prk);
    r
}

/// Trusted: `hkdf::Hkdf::<sha2::Sha256>::from_prk(prk)` then
/// `expand(info, okm)` into `len` bytes. A 32-byte key is long enough for
/// `from_prk`, and `expand` only fails above 255 * 32 bytes, which
/// `requires` excludes; the output is named `hkdf_expand_spec`.
#[verifier::external_body]
pub(crate) fn hkdf_expand(prk: &[u8; 32], info: &[u8], len: usize) -> (r: Vec<u8>)
    requires len <= 255 * 32,
    ensures r@ == hkdf_expand_spec(prk@, info@, len as nat), r@.len() == len,
{
    let mut okm = vec![0u8; len];
    if let Ok(h) = hkdf::Hkdf::<sha2::Sha256>::from_prk(prk) {
        let _ = h.expand(info, &mut okm);
    }
    okm
}

} // verus!
