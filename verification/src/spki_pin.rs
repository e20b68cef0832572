//! Certificate pinning: find the SubjectPublicKeyInfo of an X.509 DER
//! certificate, compare its SHA-256 with a pin, and extract an ECDSA P-256
//! public point. A minimal DER scanner: definite lengths only, at most four
//! length bytes.
use vstd::prelude::*;
use crate::der::{be_value, read_be_bytes};
use vstd::slice::slice_subrange;

verus! {

/// SHA-256 of the SubjectPublicKeyInfo of the pinned intermediate.
pub const ANTHROPIC_INTERMEDIATE_PIN: [u8; 32] = [
    0x90, 0x87, 0x69, 0xe8, 0xd3, 0x44, 0x77, 0xcc,
    0x2c, 0xba, 0x06, 0x32, 0xc8, 0x86, 0x05, 0xb2,
    0x2d, 0x72, 0x94, 0xc0, 0x84, 0x0f, 0x78, 0x59,
    0x6d, 0x24, 0x7c, 0x64, 0x5b, 0x1a, 0xfc, 0x0e,
];

/// Length of an uncompressed P-256 point: `0x04 || X || Y`.
pub const EC_P256_UNCOMPRESSED_LEN: usize = 65;

/// What the scanner rejects.
#[derive(Debug, Clone, Copy, PartialEq, Eq, Structural)]
pub enum DerError {
    /// Input ended inside a structure.
    Truncated,
    /// Indefinite length form (forbidden in DER).
    IndefiniteLength,
    /// More than four length bytes.
    LengthOverflow,
    /// A tag other than the one the structure needs.
    UnexpectedTag,
    /// The layout is not that of a certificate.
    InvalidStructure,
    /// The key is not an uncompressed point with no unused bits.
    InvalidPublicKey,
}

pub const TAG_BIT_STRING: u8 = 0x03;
pub const TAG_SEQUENCE: u8 = 0x30;
pub const TAG_CTX_0_CONS: u8 = 0xA0;

/// The length field at `pos`: its value and the position after it.
pub open spec fn read_length_spec(b: Seq<u8>, pos: int) -> Result<(nat, nat), DerError> {
    if pos < 0 || pos >= b.len() {
        Err(DerError::Truncated)
    } else if b[pos] < 0x80 {
        Ok((b[pos] as nat, (pos + 1) as nat))
    } else if b[pos] == 0x80 {
        Err(DerError::IndefiniteLength)
    } else if b[pos] - 0x80 > 4 {
        Err(DerError::LengthOverflow)
    } else if b.len() - (pos + 1) < b[pos] - 0x80 {
        Err(DerError::Truncated)
    } else {
        Ok((be_value(b, pos + 1, b[pos] - 0x80), (pos + 1 + b[pos] - 0x80) as nat))
    }
}

/// The tag-length-value entry at `pos`: its tag and the bounds of its value.
pub open spec fn read_tlv_spec(b: Seq<u8>, pos: int) -> Result<(u8, nat, nat), DerError> {
    if pos < 0 || pos >= b.len() {
        Err(DerError::Truncated)
    } else {
        match read_length_spec(b, pos + 1) {
            Err(e) => Err(e),
            Ok((len, p)) => if b.len() - p < len {
                Err(DerError::Truncated)
            } else {
                Ok((b[pos], p, p + len))
            },
        }
    }
}

/// The position after `n` entries starting at `pos`.
pub open spec fn skip_n(b: Seq<u8>, pos: int, n: nat) -> Result<nat, DerError>
    decreases n,
{
    if n == 0 {
        if pos >= 0 { Ok(pos as nat) } else { Err(DerError::Truncated) }
    } else {
        match read_tlv_spec(b, pos) {
            Err(e) => Err(e),
            Ok((_t, _s, end)) => skip_n(b, end as int, (n - 1) as nat),
        }
    }
}

/// The contents of the SEQUENCE at the start of `b`.
pub open spec fn read_sequence_spec(b: Seq<u8>) -> Result<Seq<u8>, DerError> {
    match read_tlv_spec(b, 0) {
        Err(e) => Err(e),
        Ok((t, s, e)) => if t != TAG_SEQUENCE { Err(DerError::UnexpectedTag) } else {
            Ok(b.subrange(s as int, e as int))
        },
    }
}

/// The SubjectPublicKeyInfo (with its header) of certificate `c`: inside the
/// certificate SEQUENCE, inside its first SEQUENCE (tbsCertificate), past an
/// optional `[0]` version and five more entries.
pub open spec fn extract_spki_spec(c: Seq<u8>) -> Result<Seq<u8>, DerError> {
    match read_sequence_spec(c) {
        Err(e) => Err(e),
        Ok(cert) => match read_sequence_spec(cert) {
            Err(e) => Err(e),
            Ok(tbs) => if tbs.len() == 0 {
                Err(DerError::Truncated)
            } else {
                let first = if tbs[0] == TAG_CTX_0_CONS { skip_n(tbs, 0, 1) } else { Ok(0nat) };
                match first {
                    Err(e) => Err(e),
                    Ok(p) => match skip_n(tbs, p as int, 5) {
                        Err(e) => Err(e),
                        Ok(p5) => match read_tlv_spec(tbs, p5 as int) {
                            Err(e) => Err(e),
                            Ok((t, _s, end)) => if t != TAG_SEQUENCE {
                                Err(DerError::InvalidStructure)
                            } else {
                                Ok(tbs.subrange(p5 as int, end as int))
                            },
                        },
                    },
                }
            },
        },
    }
}

/// The public point of P-256 key info `k`: inside its SEQUENCE, past the
/// algorithm, a BIT STRING with no unused bits whose 65 remaining bytes
/// start with 0x04.
pub open spec fn extract_point_spec(k: Seq<u8>) -> Result<Seq<u8>, DerError> {
    match read_sequence_spec(k) {
        Err(e) => Err(e),
        Ok(inner) => match skip_n(inner, 0, 1) {
            Err(e) => Err(e),
            Ok(p) => match read_tlv_spec(inner, p as int) {
                Err(e) => Err(e),
                Ok((t, s, end)) => if t != TAG_BIT_STRING {
                    Err(DerError::UnexpectedTag)
                } else {
                    let v = inner.subrange(s as int, end as int);
                    if v.len() == 0 || v[0] != 0 {
                        Err(DerError::InvalidPublicKey)
                    } else if v.len() - 1 != EC_P256_UNCOMPRESSED_LEN || v[1] != 0x04 {
                        Err(DerError::InvalidPublicKey)
                    } else {
                        Ok(v.subrange(1, v.len() as int))
                    }
                },
            },
        },
    }
}

/// Decode the length field at `pos`.
fn read_length(b: &[u8], pos: usize) -> (r: Result<(usize, usize), DerError>)
    ensures
        r is Ok <==> read_length_spec(b@, pos as int) is Ok,
        r matches Ok((l, p)) ==> read_length_spec(b@, pos as int) == Ok::<(nat, nat), DerError>((l as nat, p as nat)),
        r matches Err(e) ==> read_length_spec(b@, pos as int) == Err::<(nat, nat), DerError>(e),
{
    if pos >= b.len() {
        return Err(DerError::Truncated);
    }
    let first = b[pos];
    if first < 0x80 {
        return Ok((first as usize, pos + 1));
    }
    if first == 0x80 {
        return Err(DerError::IndefiniteLength);
    }
    let n = (first - 0x80) as usize;
    if n > 4 {
        return Err(DerError::LengthOverflow);
    }
    if b.len() - (pos + 1) < n {
        return Err(DerError::Truncated);
    }
    let len = read_be_bytes(b, pos + 1, n);
    Ok((len, pos + 1 + n))
}

/// Read the entry at `pos`: its tag and value bounds.
fn read_tlv(b: &[u8], pos: usize) -> (r: Result<(u8, usize, usize), DerError>)
    ensures
        r is Ok <==> read_tlv_spec(b@, pos as int) is Ok,
        r matches Ok((t, s, e)) ==> read_tlv_spec(b@, pos as int)
            == Ok::<(u8, nat, nat), DerError>((t, s as nat, e as nat)) && s <= e <= b@.len(),
        r matches Err(e) ==> read_tlv_spec(b@, pos as int) == Err::<(u8, nat, nat), DerError>(e),
{
    if pos >= b.len() {
        return Err(DerError::Truncated);
    }
    let tag = b[pos];
    match read_length(b, pos + 1) {
        Err(e) => Err(e),
        Ok((len, p)) => {
            if b.len() - p < len {
                Err(DerError::Truncated)
            } else {
                Ok((tag, p, p + len))
            }
        }
    }
}

/// Skip `n` entries from `pos`.
fn skip_entries(b: &[u8], pos: usize, n: usize) -> (r: Result<usize, DerError>)
    ensures
        r is Ok <==> skip_n(b@, pos as int, n as nat) is Ok,
        r matches Ok(p) ==> skip_n(b@, pos as int, n as nat) == Ok::<nat, DerError>(p as nat) && p <= b@.len() || (n == 0 && p == pos),
        r matches Err(e) ==> skip_n(b@, pos as int, n as nat) == Err::<nat, DerError>(e),
    decreases n,
{
    if n == 0 {
        return Ok(pos);
    }
    match read_tlv(b, pos) {
        Err(e) => Err(e),
        Ok((_t, _s, end)) => skip_entries(b, end, n - 1),
    }
}

/// The contents of the SEQUENCE at the start of `b`.
fn read_sequence(b: &[u8]) -> (r: Result<&[u8], DerError>)
    ensures
        r is Ok <==> read_sequence_spec(b@) is Ok,
        r matches Ok(v) ==> read_sequence_spec(b@) == Ok::<Seq<u8>, DerError>(v@),
        r matches Err(e) ==> read_sequence_spec(b@) == Err::<Seq<u8>, DerError>(e),
{
    match read_tlv(b, 0) {
        Err(e) => Err(e),
        Ok((t, s, e)) => {
            if t != TAG_SEQUENCE {
                Err(DerError::UnexpectedTag)
            } else {
                Ok(slice_subrange(b, s, e))
            }
        }
    }
}

/// The SubjectPublicKeyInfo of an X.509 DER certificate, header included.
pub fn extract_spki(cert_der: &[u8]) -> (r: Result<&[u8], DerError>)
    ensures
        r is Ok <==> extract_spki_spec(cert_der@) is Ok,
        r matches Ok(v) ==> extract_spki_spec(cert_der@) == Ok::<Seq<u8>, DerError>(v@),
        r matches Err(e) ==> extract_spki_spec(cert_der@) == Err::<Seq<u8>, DerError>(e),
{
    let cert = match read_sequence(cert_der) {
        Ok(c) => c,
        Err(e) => { return Err(e); }
    };
    let tbs = match read_sequence(cert) {
        Ok(t) => t,
        Err(e) => { return Err(e); }
    };
    if tbs.len() == 0 {
        return Err(DerError::Truncated);
    }
    let p = if tbs[0] == TAG_CTX_0_CONS {
        match skip_entries(tbs, 0, 1) {
            Ok(p) => p,
            Err(e) => { return Err(e); }
        }
    } else {
        0
    };
    let p5 = match skip_entries(tbs, p, 5) {
        Ok(q) => q,
        Err(e) => { return Err(e); }
    };
    match read_tlv(tbs, p5) {
        Err(e) => Err(e),
        Ok((t, _s, end)) => {
            if t != TAG_SEQUENCE {
                Err(DerError::InvalidStructure)
            } else {
                Ok(slice_subrange(tbs, p5, end))
            }
        }
    }
}

/// Whether `digest` equals `expected`, compared in constant time;
/// a mismatch is `InvalidStructure`.
pub fn check_pin_digest(digest: &[u8; 32], expected: &[u8; 32]) -> (r: Result<(), DerError>)
    ensures
        r == (if digest@ == expected@ { Ok::<(), DerError>(()) } else { Err(DerError::InvalidStructure) }),
{
    let mut diff: u8 = 0;
    let mut i: usize = 0;
    while i < 32
        invariant
            i <= 32, digest@.len() == 32, expected@.len() == 32,
            (diff == 0) == (forall|j: int| 0 <= j < i ==> digest@[j] == expected@[j]),
        decreases 32 - i,
    {
        let a = digest[i];
        let b = expected[i];
        let d = diff;
        assert((d | (a ^ b)) == 0 <==> (d == 0 && a == b)) by (bit_vector);
        diff = diff | (a ^ b);
        i += 1;
    }
    if diff == 0 {
        assert(digest@ =~= expected@);
        Ok(())
    } else {
        Err(DerError::InvalidStructure)
    }
}

/// Check that the SHA-256 of the certificate's SubjectPublicKeyInfo equals
/// `expected_pin`; a parse failure gives its error, a mismatch
/// `InvalidStructure`.
pub fn verify_pin(cert_der: &[u8], expected_pin: &[u8; 32]) -> (r: Result<(), DerError>)
    ensures
        match extract_spki_spec(cert_der@) {
            Err(e) => r == Err::<(), DerError>(e),
            Ok(spki) => r == (if crate::sha256::sha256_digest(spki) == expected_pin@ {
                Ok::<(), DerError>(()) } else { Err(DerError::InvalidStructure) }),
        },
{
    let spki = match extract_spki(cert_der) {
        Ok(s) => s,
        Err(e) => { return Err(e); }
    };
    let digest = crate::sha256::hash(spki);
    check_pin_digest(&digest, expected_pin)
}

/// The 65-byte uncompressed P-256 point of a SubjectPublicKeyInfo.
pub fn extract_ec_p256_point(spki_der: &[u8]) -> (r: Result<[u8; 65], DerError>)
    ensures
        r is Ok <==> extract_point_spec(spki_der@) is Ok,
        r matches Ok(p) ==> extract_point_spec(spki_der@) == Ok::<Seq<u8>, DerError>(p@),
        r matches Err(e) ==> extract_point_spec(spki_der@) == Err::<Seq<u8>, DerError>(e),
{
    let inner = match read_sequence(spki_der) {
        Ok(i) => i,
        Err(e) => { return Err(e); }
    };
    let p = match skip_entries(inner, 0, 1) {
        Ok(p) => p,
        Err(e) => { return Err(e); }
    };
    let (tag, s, end) = match read_tlv(inner, p) {
        Ok(x) => x,
        Err(e) => { return Err(e); }
    };
    if tag != TAG_BIT_STRING {
        return Err(DerError::UnexpectedTag);
    }
    let value = slice_subrange(inner, s, end);
    if value.len() == 0 || value[0] != 0 {
        return Err(DerError::InvalidPublicKey);
    }
    if value.len() - 1 != EC_P256_UNCOMPRESSED_LEN || value[1] != 0x04 {
        return Err(DerError::InvalidPublicKey);
    }
    let mut out = [0u8; 65];
    let mut i: usize = 0;
    while i < 65
        invariant
            i <= 65, value@.len() == 66, out@.len() == 65,
            forall|j: int| 0 <= j < i ==> out@[j] == value@[j + 1],
        decreases 65 - i,
    {
        out[i] = value[i + 1];
        i += 1;
    }
    assert(out@ =~= value@.subrange(1, 66));
    Ok(out)
}

} // verus!
