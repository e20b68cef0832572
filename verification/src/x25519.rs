//! X25519 Diffie-Hellman (RFC 7748), computed by the `x25519-dalek` crate.
use vstd::prelude::*;

verus! {

/// X25519 of scalar `k` and u-coordinate `u`.
pub uninterp spec fn x25519_spec(k: Seq<u8>, u: Seq<u8>) -> Seq<u8>;

/// Trusted: `x25519_dalek::x25519`, the byte-oriented function of RFC 7748
/// (the scalar is clamped); a pure function of its inputs, named `x25519_spec`.
#[verifier::external_body]
pub(crate) fn x25519(k: &[u8; 32], u: &[u8; 32]) -> (r: [u8; 32])
    ensures r@ == x25519_spec(k@, u@),
{
    x25519_dalek::x25519(*k, *u)
}

/// The u-coordinate 9 of the base point.
pub open spec fn basepoint() -> Seq<u8> {
    seq![9u8] + Seq::new(31, |i: int| 0u8)
}

/// The public key of private key `k`: X25519 with the base point.
pub fn x25519_base(k: &[u8; 32]) -> (r: [u8; 32])
    ensures r@ == x25519_spec(k@, basepoint()),
{
    let mut b = [0u8; 32];
    b[0] = 9;
    assert(b@ =~= basepoint());
    x25519(k, &b)
}

} // verus!
