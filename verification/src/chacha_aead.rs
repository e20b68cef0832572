//! ChaCha20-Poly1305 authenticated encryption (RFC 8439), computed by the
//! `chacha20poly1305` crate.
use vstd::prelude::*;
use chacha20poly1305::{AeadInPlace, KeyInit};

verus! {

/// Length of a tag.
pub const TAG_SIZE: usize = 16;
/// Length of a nonce.
pub const NONCE_SIZE: usize = 12;
/// Length of a key.
pub const KEY_SIZE: usize = 32;

/// The ciphertext followed by the 16-byte tag that ChaCha20-Poly1305
/// produces for `plaintext` under `key`, `nonce` and associated data `aad`.
pub uninterp spec fn chacha_seal(key: Seq<u8>, nonce: Seq<u8>, aad: Seq<u8>, plaintext: Seq<u8>) -> Seq<u8>;

/// Message lengths the crate handles without panicking. It refuses a
/// message of `u32::MAX` 64-byte blocks or more; below that, the keystream
/// (whose 32-bit block counter starts at 1, block 0 keying the MAC) has
/// `u32::MAX - 1` blocks, and a longer message makes `apply_keystream` panic.
pub open spec fn aead_len_safe(n: int) -> bool {
    n <= 64 * 0xFFFF_FFFE || n / 64 >= 0xFFFF_FFFF
}

/// Trusted: `ChaCha20Poly1305::encrypt_in_place_detached`. The crate
/// refuses a message of `u32::MAX` 64-byte blocks or more and otherwise
/// returns the tag; the ciphertext has the plaintext's length. The result
/// is named `chacha_seal`.
#[verifier::external_body]
pub(crate) fn seal(key: &[u8; 32], nonce: &[u8; 12], aad: &[u8], plaintext: &[u8]) -> (r: Option<Vec<u8>>)
    requires aead_len_safe(plaintext@.len() as int),
    ensures
        r is Some <==> plaintext@.len() / 64 < 0xFFFF_FFFF,
        r matches Some(v) ==> v@ == chacha_seal(key@, nonce@, aad@, plaintext@)
            && v@.len() == plaintext@.len() + TAG_SIZE,
{
    let cipher = chacha20poly1305::ChaCha20Poly1305::new(key.into());
    let mut buf = plaintext.to_vec();
    let tag = cipher.encrypt_in_place_detached(nonce.into(), aad, &mut buf).ok()?;
    buf.extend_from_slice(&tag);
    Some(buf)
}

/// Trusted: `ChaCha20Poly1305::decrypt_in_place_detached` on `sealed`
/// split into ciphertext and its last 16 bytes as the tag. Decryption
/// authenticates the tag and inverts the keystream, so it succeeds exactly
/// on the outputs of sealing some plaintext under the same key, nonce and
/// associated data, and then returns that plaintext.
#[verifier::external_body]
pub(crate) fn open(key: &[u8; 32], nonce: &[u8; 12], aad: &[u8], sealed: &[u8]) -> (r: Option<Vec<u8>>)
    requires sealed@.len() >= TAG_SIZE, aead_len_safe(sealed@.len() - TAG_SIZE),
    ensures
        r matches Some(p) ==> chacha_seal(key@, nonce@, aad@, p@) == sealed@
            && p@.len() + TAG_SIZE == sealed@.len(),
        forall|p: Seq<u8>| #[trigger] chacha_seal(key@, nonce@, aad@, p) == sealed@ && p.len() / 64 < 0xFFFF_FFFF
            ==> r is Some && r->0@ == p,
{
    let cipher = chacha20poly1305::ChaCha20Poly1305::new(key.into());
    let (ct, tag) = sealed.split_at(sealed.len() - TAG_SIZE);
    let mut buf = ct.to_vec();
    cipher.decrypt_in_place_detached(nonce.into(), aad, &mut buf, tag.into()).ok()?;
    Some(buf)
}

} // verus!
