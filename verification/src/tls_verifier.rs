//! Server-certificate checks of the TLS 1.3 handshake: the pin check on the
//! intermediate, the leaf's public point, the CertificateVerify message, and
//! DER decoding of the ECDSA P-256 signature.
use vstd::prelude::*;
use crate::der::{be_value, read_be_bytes};
use vstd::slice::slice_subrange;
use crate::spki_pin::{extract_spki, extract_ec_p256_point, verify_pin, extract_spki_spec, extract_point_spec};

verus! {

/// The DER length field at the start of `b`: the length and how many bytes
/// the field takes.
pub open spec fn der_length_spec(b: Seq<u8>) -> Option<(nat, nat)> {
    if b.len() == 0 {
        None
    } else if b[0] < 0x80 {
        Some((b[0] as nat, 1nat))
    } else if b[0] == 0x80 {
        None
    } else if b[0] - 0x80 > 4 || b.len() < 1 + (b[0] - 0x80) {
        None
    } else {
        Some((be_value(b, 1, b[0] - 0x80), (1 + b[0] - 0x80) as nat))
    }
}

/// The entry with tag `tag` at the start of `b`: its value, and the bytes after it.
pub open spec fn tlv_split_spec(b: Seq<u8>, tag: u8) -> Option<(Seq<u8>, Seq<u8>)> {
    if b.len() == 0 || b[0] != tag {
        None
    } else {
        match der_length_spec(b.subrange(1, b.len() as int)) {
            None => None,
            Some((len, h)) => if 1 + h + len > b.len() {
                None
            } else {
                Some((b.subrange((1 + h) as int, (1 + h + len) as int), b.subrange((1 + h + len) as int, b.len() as int)))
            },
        }
    }
}

/// The value of the entry with tag `tag` that makes up all of `b`.
pub open spec fn tlv_only_spec(b: Seq<u8>, tag: u8) -> Option<Seq<u8>> {
    match tlv_split_spec(b, tag) {
        Some((v, rest)) => if rest.len() == 0 { Some(v) } else { None },
        None => None,
    }
}

/// A DER INTEGER value as 32 big-endian bytes: one leading zero byte is
/// dropped, then the value is left-padded with zeros; empty or longer than
/// 32 bytes gives none.
pub open spec fn integer_to_32_spec(v: Seq<u8>) -> Option<Seq<u8>> {
    let w = if v.len() > 1 && v[0] == 0 { v.subrange(1, v.len() as int) } else { v };
    if w.len() > 32 || w.len() == 0 {
        None
    } else {
        Some(Seq::new((32 - w.len()) as nat, |i: int| 0u8) + w)
    }
}

/// `(r, s)` of a DER `SEQUENCE { INTEGER r, INTEGER s }` that makes up all of `sig`.
pub open spec fn decode_sig_spec(sig: Seq<u8>) -> Option<(Seq<u8>, Seq<u8>)> {
    match tlv_only_spec(sig, 0x30) {
        None => None,
        Some(body) => match tlv_split_spec(body, 0x02) {
            None => None,
            Some((rb, after)) => match tlv_only_spec(after, 0x02) {
                None => None,
                Some(sb) => match (integer_to_32_spec(rb), integer_to_32_spec(sb)) {
                    (Some(r), Some(s)) => Some((r, s)),
                    _ => None,
                },
            },
        },
    }
}

/// Decode the DER length field at the start of `buf`.
pub fn decode_der_length(buf: &[u8]) -> (r: Option<(usize, usize)>)
    ensures
        r is Some <==> der_length_spec(buf@) is Some,
        r matches Some((l, h)) ==> der_length_spec(buf@) == Some((l as nat, h as nat)),
{
    if buf.len() == 0 {
        return None;
    }
    let first = buf[0];
    if first < 0x80 {
        Some((first as usize, 1))
    } else if first == 0x80 {
        None
    } else {
        let n = (first - 0x80) as usize;
        if n > 4 || buf.len() < 1 + n {
            return None;
        }
        let len = read_be_bytes(buf, 1, n);
        Some((len, 1 + n))
    }
}

/// Read the entry with tag `expected_tag` at the start of `buf`; returns
/// its value and what follows it.
pub fn read_tlv_with_rest(buf: &[u8], expected_tag: u8) -> (r: Option<(&[u8], &[u8])>)
    ensures
        r is Some <==> tlv_split_spec(buf@, expected_tag) is Some,
        r matches Some((v, rest)) ==> tlv_split_spec(buf@, expected_tag) == Some((v@, rest@)),
{
    if buf.len() == 0 || buf[0] != expected_tag {
        return None;
    }
    let tail = slice_subrange(buf, 1, buf.len());
    let (len, header_size) = match decode_der_length(tail) {
        Some(x) => x,
        None => { return None; }
    };
    assert(header_size <= tail@.len());
    if len > buf.len() - 1 - header_size {
        return None;
    }
    let total = 1 + header_size + len;
    Some((slice_subrange(buf, 1 + header_size, total), slice_subrange(buf, total, buf.len())))
}

/// Read the entry with tag `expected_tag` that makes up all of `buf`.
pub fn read_tlv(buf: &[u8], expected_tag: u8) -> (r: Option<&[u8]>)
    ensures
        r is Some <==> tlv_only_spec(buf@, expected_tag) is Some,
        r matches Some(v) ==> tlv_only_spec(buf@, expected_tag) == Some(v@),
{
    let (value, rest) = match read_tlv_with_rest(buf, expected_tag) {
        Some(x) => x,
        None => { return None; }
    };
    if rest.len() != 0 {
        return None;
    }
    Some(value)
}

/// A DER INTEGER value as 32 big-endian bytes.
pub fn der_integer_to_32(value: &[u8]) -> (r: Option<[u8; 32]>)
    ensures
        r is Some <==> integer_to_32_spec(value@) is Some,
        r matches Some(a) ==> integer_to_32_spec(value@) == Some(a@),
{
    let v = if value.len() > 1 && value[0] == 0 { slice_subrange(value, 1, value.len()) } else { value };
    if v.len() > 32 || v.len() == 0 {
        return None;
    }
    let mut out = [0u8; 32];
    let pad = 32 - v.len();
    let mut i: usize = 0;
    while i < v.len()
        invariant
            v@.len() <= 32, pad == 32 - v@.len(), i <= v@.len(), out@.len() == 32,
            forall|j: int| 0 <= j < pad ==> out@[j] == 0,
            forall|j: int| 0 <= j < i ==> #[trigger] out@[pad + j] == v@[j],
        decreases v@.len() - i,
    {
        out[pad + i] = v[i];
        i += 1;
    }
    proof {
        let w = Seq::new(pad as nat, |i: int| 0u8) + v@;
        assert forall|j: int| 0 <= j < 32 implies out@[j] == w[j] by {
            if j >= pad {
                assert(out@[pad + (j - pad)] == v@[j - pad]);
            }
        }
        assert(out@ =~= w);
    }
    Some(out)
}

/// Decode a DER ECDSA P-256 signature `SEQUENCE { INTEGER r, INTEGER s }`
/// into 32-byte big-endian `(r, s)`.
pub fn decode_ecdsa_p256_signature(sig: &[u8]) -> (r: Option<([u8; 32], [u8; 32])>)
    ensures
        r is Some <==> decode_sig_spec(sig@) is Some,
        r matches Some((a, b)) ==> decode_sig_spec(sig@) == Some((a@, b@)),
{
    let body = match read_tlv(sig, 0x30) {
        Some(b) => b,
        None => { return None; }
    };
    let (r_bytes, after_r) = match read_tlv_with_rest(body, 0x02) {
        Some(x) => x,
        None => { return None; }
    };
    let s_bytes = match read_tlv(after_r, 0x02) {
        Some(x) => x,
        None => { return None; }
    };
    let r = match der_integer_to_32(r_bytes) {
        Some(x) => x,
        None => { return None; }
    };
    let s = match der_integer_to_32(s_bytes) {
        Some(x) => x,
        None => { return None; }
    };
    Some((r, s))
}

// ------------------------------------------------------------- the verifier

/// Why the server's certificate or signature is refused.
#[derive(Debug, Clone, Copy, PartialEq, Eq, Structural)]
pub enum TlsVerifyError {
    InvalidCertificate,
    InvalidSignature,
}

/// The signed content of a server CertificateVerify (RFC 8446 section
/// 4.4.3): 64 spaces, the context string, a zero byte, the transcript hash.
pub open spec fn certificate_verify_message(transcript_hash: Seq<u8>) -> Seq<u8> {
    Seq::new(64, |i: int| 0x20u8) + cv_context() + seq![0u8] + transcript_hash
}

/// "TLS 1.3, server CertificateVerify".
pub open spec fn cv_context() -> Seq<u8> {
    seq![0x54u8, 0x4Cu8, 0x53u8, 0x20u8, 0x31u8, 0x2Eu8, 0x33u8, 0x2Cu8, 0x20u8, 0x73u8, 0x65u8, 0x72u8, 0x76u8,
        0x65u8, 0x72u8, 0x20u8, 0x43u8, 0x65u8, 0x72u8, 0x74u8, 0x69u8, 0x66u8, 0x69u8, 0x63u8, 0x61u8, 0x74u8,
        0x65u8, 0x56u8, 0x65u8, 0x72u8, 0x69u8, 0x66u8, 0x79u8]
}

/// Build the CertificateVerify content for `transcript_hash`.
pub fn build_certificate_verify_message(transcript_hash: &[u8; 32]) -> (r: Vec<u8>)
    ensures r@ == certificate_verify_message(transcript_hash@), r@.len() == 130,
{
    let mut m: Vec<u8> = Vec::new();
    let mut i: usize = 0;
    while i < 64
        invariant i <= 64, m@ == Seq::new(i as nat, |k: int| 0x20u8),
        decreases 64 - i,
    {
        m.push(0x20);
        assert(m@ =~= Seq::new((i + 1) as nat, |k: int| 0x20u8));
        i += 1;
    }
    let ctx: [u8; 33] = [0x54, 0x4C, 0x53, 0x20, 0x31, 0x2E, 0x33, 0x2C, 0x20, 0x73, 0x65, 0x72, 0x76, 0x65, 0x72,
        0x20, 0x43, 0x65, 0x72, 0x74, 0x69, 0x66, 0x69, 0x63, 0x61, 0x74, 0x65, 0x56, 0x65, 0x72, 0x69, 0x66, 0x79];
    crate::bytes::push_bytes(&mut m, ctx.as_slice());
    m.push(0u8);
    crate::bytes::push_bytes(&mut m, transcript_hash.as_slice());
    assert(m@ =~= certificate_verify_message(transcript_hash@));
    m
}

/// Verifier of the server chain: it pins the intermediate certificate and
/// accepts only an ECDSA P-256 signature by the leaf over the
/// CertificateVerify message. It keeps the leaf point and the transcript
/// hash between the two steps.
pub struct SpkiPinVerifier {
    pub leaf_ec_point: Option<[u8; 65]>,
    /// Transcript hash up to the server Certificate message.
    pub cert_transcript: Option<[u8; 32]>,
}

/// What the certificate step concludes for a chain whose first two entries
/// are `leaf` and `intermediate` (none for an entry that is not X.509).
pub open spec fn certificate_outcome(leaf: Option<Seq<u8>>, intermediate: Option<Seq<u8>>, pin: Seq<u8>)
    -> Result<Seq<u8>, TlsVerifyError>
{
    match (leaf, intermediate) {
        (Some(l), Some(m)) => match extract_spki_spec(m) {
            Err(_) => Err(TlsVerifyError::InvalidCertificate),
            Ok(spki) => if crate::sha256::sha256_digest(spki) != pin {
                Err(TlsVerifyError::InvalidCertificate)
            } else {
                match extract_spki_spec(l) {
                    Err(_) => Err(TlsVerifyError::InvalidCertificate),
                    Ok(lspki) => match extract_point_spec(lspki) {
                        Ok(p) => Ok(p),
                        Err(_) => Err(TlsVerifyError::InvalidCertificate),
                    },
                }
            },
        },
        _ => Err(TlsVerifyError::InvalidCertificate),
    }
}

impl SpkiPinVerifier {
    /// No captured state.
    pub fn new() -> (r: Self)
        ensures r.leaf_ec_point is None, r.cert_transcript is None,
    {
        SpkiPinVerifier { leaf_ec_point: None, cert_transcript: None }
    }

    /// The leaf point captured by a successful certificate step.
    pub fn captured_leaf_point(&self) -> (r: Option<&[u8; 65]>)
        ensures r == (match self.leaf_ec_point { Some(p) => Some(&p), None => None::<&[u8; 65]> }),
    {
        match &self.leaf_ec_point {
            Some(p) => Some(p),
            None => None,
        }
    }

    /// Certificate step: `entries` holds the chain (leaf first), each entry
    /// the DER of an X.509 certificate or none for another kind of entry.
    /// The intermediate's key must hash to the pin; the leaf's P-256 point
    /// and `transcript_hash` are kept for the signature step.
    pub fn verify_certificate(&mut self, transcript_hash: &[u8; 32], entries: &[Option<&[u8]>])
        -> (r: Result<(), TlsVerifyError>)
        ensures
            entries@.len() < 2 ==> r == Err::<(), TlsVerifyError>(TlsVerifyError::InvalidCertificate)
                && *final(self) == *old(self),
            entries@.len() >= 2 ==> ({
                let out = certificate_outcome(opt_view(entries@[0]), opt_view(entries@[1]),
                    crate::spki_pin::ANTHROPIC_INTERMEDIATE_PIN@);
                &&& (r is Ok <==> out is Ok)
                &&& (r is Err ==> r == Err::<(), TlsVerifyError>(TlsVerifyError::InvalidCertificate)
                    && *final(self) == *old(self))
                &&& (out matches Ok(p) ==> final(self).leaf_ec_point matches Some(q) && q@ == p
                    && final(self).cert_transcript == Some(*transcript_hash))
            }),
    {
        if entries.len() < 2 {
            return Err(TlsVerifyError::InvalidCertificate);
        }
        let leaf = match entries[0] {
            Some(d) => d,
            None => return Err(TlsVerifyError::InvalidCertificate),
        };
        let intermediate = match entries[1] {
            Some(d) => d,
            None => return Err(TlsVerifyError::InvalidCertificate),
        };
        match verify_pin(intermediate, &crate::spki_pin::ANTHROPIC_INTERMEDIATE_PIN) {
            Ok(()) => {}
            Err(_) => return Err(TlsVerifyError::InvalidCertificate),
        }
        let leaf_spki = match extract_spki(leaf) {
            Ok(s) => s,
            Err(_) => return Err(TlsVerifyError::InvalidCertificate),
        };
        let point = match extract_ec_p256_point(leaf_spki) {
            Ok(p) => p,
            Err(_) => return Err(TlsVerifyError::InvalidCertificate),
        };
        self.leaf_ec_point = Some(point);
        self.cert_transcript = Some(*transcript_hash);
        Ok(())
    }

    /// Signature step: only ECDSA P-256 with SHA-256 is accepted; the
    /// signature must verify under the captured leaf point over the SHA-256
    /// of the CertificateVerify content. The transcript is used up.
    pub fn verify_signature(&mut self, scheme_is_ecdsa_p256: bool, signature: &[u8])
        -> (r: Result<(), TlsVerifyError>)
        ensures
            !scheme_is_ecdsa_p256 ==> r == Err::<(), TlsVerifyError>(TlsVerifyError::InvalidSignature)
                && *final(self) == *old(self),
            scheme_is_ecdsa_p256 && (old(self).leaf_ec_point is None || old(self).cert_transcript is None)
                ==> r == Err::<(), TlsVerifyError>(TlsVerifyError::InvalidSignature),
            scheme_is_ecdsa_p256 && old(self).leaf_ec_point is Some ==> final(self).cert_transcript is None,
            final(self).leaf_ec_point == old(self).leaf_ec_point,
            r is Ok <==> scheme_is_ecdsa_p256 && (old(self).leaf_ec_point matches Some(p)
                && old(self).cert_transcript matches Some(th)
                && decode_sig_spec(signature@) matches Some((a, b))
                && crate::p256_verify::p256_verify_spec(p@,
                    crate::sha256::sha256_digest(certificate_verify_message(th@)), a, b)),
            r is Err ==> r == Err::<(), TlsVerifyError>(TlsVerifyError::InvalidSignature),
    {
        if !scheme_is_ecdsa_p256 {
            return Err(TlsVerifyError::InvalidSignature);
        }
        let point = match self.leaf_ec_point {
            Some(p) => p,
            None => return Err(TlsVerifyError::InvalidSignature),
        };
        let th = match self.cert_transcript.take() {
            Some(t) => t,
            None => return Err(TlsVerifyError::InvalidSignature),
        };
        let msg = build_certificate_verify_message(&th);
        let signed_hash = crate::sha256::hash(msg.as_slice());
        let (r, s) = match decode_ecdsa_p256_signature(signature) {
            Some(x) => x,
            None => return Err(TlsVerifyError::InvalidSignature),
        };
        if crate::p256_verify::verify_p256(&point, &signed_hash, &r, &s) {
            Ok(())
        } else {
            Err(TlsVerifyError::InvalidSignature)
        }
    }
}

/// The view of an optional byte slice.
pub open spec fn opt_view(e: Option<&[u8]>) -> Option<Seq<u8>> {
    match e {
        Some(d) => Some(d@),
        None => None,
    }
}

} // verus!
