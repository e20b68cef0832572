//! Device pairing protocol, version 1: the QR payload and its Crockford
//! base32 text form, the handshake key schedule, the wire frames and the
//! stored pairing record. No I/O: the caller moves the bytes.
use vstd::prelude::*;
use vstd::string::StringSliceAdditionalSpecFns;
use crate::bytes::{be16, be64, from_be16, from_be32, from_be64, u16_to_be, u64_to_be, read_be16, read_be32,
    read_be64, push_bytes, lemma_be64_roundtrip, lemma_be16_roundtrip};
use crate::sha256::{hash, sha256_digest};
use crate::x25519::{x25519, x25519_spec};
use crate::hkdf_sha256::{hmac_sha256, hmac_sha256_spec, hkdf_extract, hkdf_extract_spec, hkdf_expand, hkdf_expand_spec};

verus! {

/// Protocol version.
pub const VERSION: u8 = 0x01;
/// Payload magic, "SP".
pub const MAGIC: [u8; 2] = [0x53, 0x50];
/// Nonce length per side.
pub const NONCE_LEN: usize = 16;
/// Payload bytes: magic, version, public key, IPv4 address, port, nonce, CRC.
pub const PAYLOAD_LEN: usize = 59;
/// Most base32 characters of an encoded payload.
pub const MAX_ENCODED_LEN: usize = 96;

/// Why a pairing string is refused.
#[derive(Debug, Clone, Copy, PartialEq, Eq, Structural)]
pub enum PairError {
    /// A character outside the base32 alphabet.
    BadChar,
    /// The decoded length is not `PAYLOAD_LEN`.
    BadLength,
    /// The magic is not "SP".
    BadMagic,
    /// The version byte is not `VERSION`.
    BadVersion,
    /// CRC-16 mismatch: a transcription error.
    BadCrc,
}

// ------------------------------------------------------------------ CRC-16

/// One bit step of the CCITT CRC register (polynomial 0x1021, MSB first).
pub open spec fn crc16_bit(c: u16) -> u16 {
    if c & 0x8000 != 0 { ((c << 1u16) ^ 0x1021u16) as u16 } else { (c << 1u16) as u16 }
}

pub open spec fn crc16_bits(c: u16, k: nat) -> u16
    decreases k,
{
    if k == 0 { c } else { crc16_bit(crc16_bits(c, (k - 1) as nat)) }
}

/// The register after feeding all of `s` from `c`.
pub open spec fn crc16_fold(c: u16, s: Seq<u8>) -> u16
    decreases s.len(),
{
    if s.len() == 0 { c } else { crc16_bits(crc16_fold(c, s.drop_last()) ^ ((s.last() as u16) << 8u16), 8) }
}

/// CRC-16/CCITT of `s` (initial value 0xFFFF, no final complement).
pub open spec fn crc16_spec(s: Seq<u8>) -> u16 {
    crc16_fold(0xFFFFu16, s)
}

proof fn lemma_crc16_bit_linear(x: u16, y: u16)
    ensures crc16_bit(x ^ y) == crc16_bit(x) ^ crc16_bit(y), x != 0 ==> crc16_bit(x) != 0,
{
    assert(crc16_bit(x ^ y) == crc16_bit(x) ^ crc16_bit(y) && (x != 0 ==> crc16_bit(x) != 0)) by (bit_vector);
}

proof fn lemma_crc16_bits_linear(x: u16, y: u16, k: nat)
    ensures crc16_bits(x ^ y, k) == crc16_bits(x, k) ^ crc16_bits(y, k), x != 0 ==> crc16_bits(x, k) != 0,
    decreases k,
{
    if k > 0 {
        lemma_crc16_bits_linear(x, y, (k - 1) as nat);
        lemma_crc16_bit_linear(crc16_bits(x, (k - 1) as nat), crc16_bits(y, (k - 1) as nat));
    }
}

proof fn lemma_crc16_step_differs(u: u16, v: u16, a: u8, b: u8)
    requires u != v || a != b, u == v || a == b,
    ensures crc16_bits(u ^ ((a as u16) << 8u16), 8) != crc16_bits(v ^ ((b as u16) << 8u16), 8),
{
    let x = u ^ ((a as u16) << 8u16);
    let y = v ^ ((b as u16) << 8u16);
    assert((u != v || a != b) && (u == v || a == b) ==> x ^ y != 0) by (bit_vector)
        requires x == u ^ ((a as u16) << 8u16), y == v ^ ((b as u16) << 8u16);
    lemma_crc16_bits_linear(x ^ y, y, 8);
    assert((x ^ y) ^ y == x) by (bit_vector);
    let d = crc16_bits(x ^ y, 8);
    let e = crc16_bits(y, 8);
    assert(d != 0 ==> d ^ e != e) by (bit_vector);
}

proof fn lemma_crc16_prefix_differs(s: Seq<u8>, t: Seq<u8>, k: int, n: int)
    requires
        s.len() == t.len(), 0 <= k < n <= s.len(), s[k] != t[k],
        forall|j: int| 0 <= j < s.len() && j != k ==> s[j] == t[j],
    ensures crc16_fold(0xFFFFu16, s.subrange(0, n)) != crc16_fold(0xFFFFu16, t.subrange(0, n)),
    decreases n,
{
    assert(s.subrange(0, n).drop_last() =~= s.subrange(0, n - 1));
    assert(t.subrange(0, n).drop_last() =~= t.subrange(0, n - 1));
    let u = crc16_fold(0xFFFFu16, s.subrange(0, n - 1));
    let v = crc16_fold(0xFFFFu16, t.subrange(0, n - 1));
    if n == k + 1 {
        assert(s.subrange(0, k) =~= t.subrange(0, k));
    } else {
        lemma_crc16_prefix_differs(s, t, k, n - 1);
    }
    lemma_crc16_step_differs(u, v, s[n - 1], t[n - 1]);
}

/// The payload CRC catches any single-byte change: a body that differs from
/// another in exactly one byte has a different CRC-16.
pub proof fn law_crc16_single_byte(s: Seq<u8>, k: int, b: u8)
    requires 0 <= k < s.len(), b != s[k],
    ensures crc16_spec(s.update(k, b)) != crc16_spec(s),
{
    let t = s.update(k, b);
    lemma_crc16_prefix_differs(t, s, k, s.len() as int);
    assert(s.subrange(0, s.len() as int) =~= s);
    assert(t.subrange(0, t.len() as int) =~= t);
}

/// CRC-16/CCITT (polynomial 0x1021, initial value 0xFFFF).
pub fn crc16_ccitt(data: &[u8]) -> (r: u16)
    ensures r == crc16_spec(data@),
{
    let mut crc: u16 = 0xFFFF;
    let mut i: usize = 0;
    while i < data.len()
        invariant i <= data@.len(), crc == crc16_fold(0xFFFFu16, data@.subrange(0, i as int)),
        decreases data@.len() - i,
    {
        let c0 = crc ^ ((data[i] as u16) << 8);
        crc = c0;
        let mut k: u32 = 0;
        while k < 8
            invariant k <= 8, crc == crc16_bits(c0, k as nat),
            decreases 8 - k,
        {
            if crc & 0x8000 != 0 {
                crc = (crc << 1) ^ 0x1021;
            } else {
                crc = crc << 1;
            }
            k += 1;
        }
        assert(data@.subrange(0, i as int + 1).drop_last() =~= data@.subrange(0, i as int));
        i += 1;
    }
    assert(data@.subrange(0, data@.len() as int) =~= data@);
    crc
}

// ----------------------------------------------------------------- payload

/// The pairing parameters of the phone, carried by the QR code.
#[derive(Clone, Copy, Debug)]
pub struct PairingPayload {
    pub version: u8,
    pub phone_pub: [u8; 32],
    pub ip: [u8; 4],
    pub port: u16,
    pub nonce_p: [u8; 16],
}

/// The 57 bytes the payload CRC covers.
pub open spec fn payload_body(p: PairingPayload) -> Seq<u8> {
    MAGIC@ + seq![p.version] + p.phone_pub@ + p.ip@ + be16(p.port) + p.nonce_p@
}

/// Wire bytes of a payload: body then its CRC-16, big-endian.
pub open spec fn payload_bytes(p: PairingPayload) -> Seq<u8> {
    payload_body(p) + be16(crc16_spec(payload_body(p)))
}

/// What parsing `b` as a payload gives.
pub open spec fn payload_parse(b: Seq<u8>) -> Result<PairingPayload, PairError> {
    if b.len() != PAYLOAD_LEN {
        Err(PairError::BadLength)
    } else if b.subrange(0, 2) != MAGIC@ {
        Err(PairError::BadMagic)
    } else if b[2] != VERSION {
        Err(PairError::BadVersion)
    } else if from_be16(b.subrange(57, 59)) != crc16_spec(b.subrange(0, 57)) {
        Err(PairError::BadCrc)
    } else {
        Ok(PairingPayload {
            version: b[2],
            phone_pub: seq_to_32(b.subrange(3, 35)),
            ip: seq_to_4(b.subrange(35, 39)),
            port: from_be16(b.subrange(39, 41)),
            nonce_p: seq_to_16(b.subrange(41, 57)),
        })
    }
}

/// The array holding `s` (of length 32).
pub open spec fn seq_to_32(s: Seq<u8>) -> [u8; 32] {
    choose|a: [u8; 32]| a@ == s
}

/// The array holding `s` (of length 16).
pub open spec fn seq_to_16(s: Seq<u8>) -> [u8; 16] {
    choose|a: [u8; 16]| a@ == s
}

/// The array holding `s` (of length 4).
pub open spec fn seq_to_4(s: Seq<u8>) -> [u8; 4] {
    choose|a: [u8; 4]| a@ == s
}

impl PairingPayload {
    /// Serialize into the 59-byte wire layout with its CRC.
    pub fn to_bytes(&self) -> (r: Vec<u8>)
        ensures r@ == payload_bytes(*self), r@.len() == PAYLOAD_LEN,
    {
        let mut b: Vec<u8> = Vec::new();
        push_bytes(&mut b, MAGIC.as_slice());
        b.push(self.version);
        push_bytes(&mut b, self.phone_pub.as_slice());
        push_bytes(&mut b, self.ip.as_slice());
        push_bytes(&mut b, u16_to_be(self.port).as_slice());
        push_bytes(&mut b, self.nonce_p.as_slice());
        assert(b@ =~= payload_body(*self));
        let crc = crc16_ccitt(b.as_slice());
        push_bytes(&mut b, u16_to_be(crc).as_slice());
        b
    }

    /// Parse the 59-byte layout, checking length, magic, version and CRC.
    pub fn from_bytes(b: &[u8]) -> (r: Result<Self, PairError>)
        ensures
            r is Ok <==> payload_parse(b@) is Ok,
            r matches Err(e) ==> payload_parse(b@) == Err::<PairingPayload, PairError>(e),
            r matches Ok(p) ==> payload_parse(b@) == Ok::<PairingPayload, PairError>(p),
    {
        if b.len() != PAYLOAD_LEN {
            return Err(PairError::BadLength);
        }
        if !(b[0] == MAGIC[0] && b[1] == MAGIC[1]) {
            assert(b@.subrange(0, 2) != MAGIC@) by {
                if b@.subrange(0, 2) == MAGIC@ {
                    assert(b@.subrange(0, 2)[0] == b@[0] && b@.subrange(0, 2)[1] == b@[1]);
                }
            }
            return Err(PairError::BadMagic);
        }
        assert(b@.subrange(0, 2) =~= MAGIC@);
        if b[2] != VERSION {
            return Err(PairError::BadVersion);
        }
        let crc = read_be16(b, 57);
        if crc != crc16_ccitt(vstd::slice::slice_subrange(b, 0, 57)) {
            return Err(PairError::BadCrc);
        }
        let phone_pub: [u8; 32] = crate::bytes::to_array(b, 3);
        let ip: [u8; 4] = crate::bytes::to_array(b, 35);
        let nonce_p: [u8; 16] = crate::bytes::to_array(b, 41);
        let p = PairingPayload { version: b[2], phone_pub, ip, port: read_be16(b, 39), nonce_p };
        assert(phone_pub == seq_to_32(b@.subrange(3, 35))) by {
            let a = seq_to_32(b@.subrange(3, 35));
            assert(a@ == b@.subrange(3, 35));
            assert(a@ =~= phone_pub@);
        }
        assert(ip == seq_to_4(b@.subrange(35, 39))) by {
            let a = seq_to_4(b@.subrange(35, 39));
            assert(a@ =~= ip@);
        }
        assert(nonce_p == seq_to_16(b@.subrange(41, 57))) by {
            let a = seq_to_16(b@.subrange(41, 57));
            assert(a@ =~= nonce_p@);
        }
        Ok(p)
    }
}

/// Parsing the wire bytes of a payload of the current version gives it
/// back.
pub proof fn law_payload_roundtrip(p: PairingPayload)
    requires p.version == VERSION,
    ensures payload_parse(payload_bytes(p)) == Ok::<PairingPayload, PairError>(p),
{
    let b = payload_bytes(p);
    let body = payload_body(p);
    assert(b.subrange(0, 57) =~= body);
    assert(b.subrange(0, 2) =~= MAGIC@);
    assert(b.subrange(57, 59) =~= be16(crc16_spec(body)));
    lemma_be16_roundtrip(crc16_spec(body));
    assert(b.subrange(39, 41) =~= be16(p.port));
    lemma_be16_roundtrip(p.port);
    let a = seq_to_32(b.subrange(3, 35));
    assert(b.subrange(3, 35) =~= p.phone_pub@);
    assert(a@ == p.phone_pub@);
    assert(a == p.phone_pub);
    let c = seq_to_4(b.subrange(35, 39));
    assert(b.subrange(35, 39) =~= p.ip@);
    assert(c == p.ip);
    let d = seq_to_16(b.subrange(41, 57));
    assert(b.subrange(41, 57) =~= p.nonce_p@);
    assert(d == p.nonce_p);
}

// ------------------------------------------------------------------ base32

/// The Crockford base32 alphabet.
pub const CROCKFORD: [u8; 32] = [
    0x30, 0x31, 0x32, 0x33, 0x34, 0x35, 0x36, 0x37, 0x38, 0x39,
    0x41, 0x42, 0x43, 0x44, 0x45, 0x46, 0x47, 0x48, 0x4A, 0x4B,
    0x4D, 0x4E, 0x50, 0x51, 0x52, 0x53, 0x54, 0x56, 0x57, 0x58, 0x59, 0x5A,
];

/// Bit `k` of `b` read most-significant first; zero past the end.
pub open spec fn bit_of(b: Seq<u8>, k: int) -> u8 {
    if 0 <= k < 8 * b.len() { (b[k / 8] >> ((7 - k % 8) as u8)) & 1u8 } else { 0 }
}

/// The 5-bit group `j` of `b`.
pub open spec fn quint_of(b: Seq<u8>, j: int) -> int {
    16 * bit_of(b, 5 * j) + 8 * bit_of(b, 5 * j + 1) + 4 * bit_of(b, 5 * j + 2) + 2 * bit_of(b, 5 * j + 3)
        + bit_of(b, 5 * j + 4)
}

/// Characters needed for `n` bytes.
pub open spec fn base32_len(n: nat) -> nat {
    (8 * n + 4) / 5
}

/// Crockford base32 of `b`: one character per 5 bits, the last group
/// padded with zero bits.
pub open spec fn base32_encode(b: Seq<u8>) -> Seq<u8> {
    Seq::new(base32_len(b.len()), |j: int| CROCKFORD@[quint_of(b, j)])
}

/// Value of a base32 character, either case; none outside the alphabet.
pub open spec fn char_value(c: u8) -> Option<u8> {
    let u = if 0x61 <= c <= 0x7A { (c - 0x20) as u8 } else { c };
    if 0x30 <= u <= 0x39 { Some((u - 0x30) as u8) }
    else if 0x41 <= u <= 0x48 { Some((u - 0x41 + 10) as u8) }
    else if u == 0x4A || u == 0x4B { Some((u - 0x4A + 18) as u8) }
    else if u == 0x4D || u == 0x4E { Some((u - 0x4D + 20) as u8) }
    else if 0x50 <= u <= 0x54 { Some((u - 0x50 + 22) as u8) }
    else if 0x56 <= u <= 0x5A { Some((u - 0x56 + 27) as u8) }
    else { None }
}

/// The 5-bit values of the characters of `s`, hyphens skipped; none on a
/// character outside the alphabet.
pub open spec fn base32_values(s: Seq<u8>) -> Option<Seq<u8>>
    decreases s.len(),
{
    if s.len() == 0 {
        Some(Seq::empty())
    } else {
        match base32_values(s.drop_last()) {
            None => None,
            Some(v) => if s.last() == 0x2D { Some(v) } else {
                match char_value(s.last()) {
                    Some(x) => Some(v.push(x)),
                    None => None,
                }
            },
        }
    }
}

/// Bit `k` of the 5-bit values `v`, most significant first.
pub open spec fn vbit(v: Seq<u8>, k: int) -> u8 {
    (v[k / 5] >> ((4 - k % 5) as u8)) & 1u8
}

/// The bytes the 5-bit values `v` carry; leftover bits are dropped.
pub open spec fn base32_bytes(v: Seq<u8>) -> Seq<u8> {
    Seq::new(5 * v.len() / 8, |i: int|
        (128 * vbit(v, 8 * i) + 64 * vbit(v, 8 * i + 1) + 32 * vbit(v, 8 * i + 2) + 16 * vbit(v, 8 * i + 3)
            + 8 * vbit(v, 8 * i + 4) + 4 * vbit(v, 8 * i + 5) + 2 * vbit(v, 8 * i + 6) + vbit(v, 8 * i + 7)) as u8)
}

/// Decoded base32 text.
pub open spec fn base32_decode(s: Seq<u8>) -> Option<Seq<u8>> {
    match base32_values(s) {
        Some(v) => Some(base32_bytes(v)),
        None => None,
    }
}

fn bit_at(b: &[u8], k: usize) -> (r: u8)
    ensures r == bit_of(b@, k as int), r <= 1,
{
    if k / 8 < b.len() {
        let x = b[k / 8];
        let sh = (7 - k % 8) as u8;
        assert(x >> sh & 1u8 <= 1) by (bit_vector);
        (x >> sh) & 1
    } else {
        0
    }
}

/// Crockford base32 of `b`.
pub fn encode_base32(b: &[u8]) -> (r: Vec<u8>)
    requires b@.len() <= 0x1000_0000,
    ensures r@ == base32_encode(b@),
{
    let n = (8 * b.len() + 4) / 5;
    let mut out: Vec<u8> = Vec::new();
    let mut j: usize = 0;
    while j < n
        invariant j <= n, n == base32_len(b@.len()), b@.len() <= 0x1000_0000, out@.len() == j,
            forall|i: int| 0 <= i < j ==> out@[i] == CROCKFORD@[quint_of(b@, i)],
        decreases n - j,
    {
        let q = 16 * bit_at(b, 5 * j) + 8 * bit_at(b, 5 * j + 1) + 4 * bit_at(b, 5 * j + 2)
            + 2 * bit_at(b, 5 * j + 3) + bit_at(b, 5 * j + 4);
        out.push(CROCKFORD[q as usize]);
        j += 1;
    }
    assert(out@ =~= base32_encode(b@));
    out
}

fn char_val(c: u8) -> (r: Option<u8>)
    ensures r == char_value(c),
{
    let u = if 0x61 <= c && c <= 0x7A { c - 0x20 } else { c };
    if 0x30 <= u && u <= 0x39 { Some(u - 0x30) }
    else if 0x41 <= u && u <= 0x48 { Some(u - 0x41 + 10) }
    else if u == 0x4A || u == 0x4B { Some(u - 0x4A + 18) }
    else if u == 0x4D || u == 0x4E { Some(u - 0x4D + 20) }
    else if 0x50 <= u && u <= 0x54 { Some(u - 0x50 + 22) }
    else if 0x56 <= u && u <= 0x5A { Some(u - 0x56 + 27) }
    else { None }
}

/// Decode Crockford base32 text (hyphens skipped, either case).
pub fn decode_base32(s: &[u8]) -> (r: Option<Vec<u8>>)
    ensures
        r is Some <==> base32_decode(s@) is Some,
        r matches Some(v) ==> v@ == base32_decode(s@)->0,
{
    let mut vals: Vec<u8> = Vec::new();
    let mut i: usize = 0;
    while i < s.len()
        invariant i <= s@.len(), base32_values(s@.subrange(0, i as int)) == Some(vals@), vals@.len() <= i,
            forall|k: int| 0 <= k < vals@.len() ==> vals@[k] < 32,
        decreases s@.len() - i,
    {
        assert(s@.subrange(0, i as int + 1).drop_last() =~= s@.subrange(0, i as int));
        let c = s[i];
        if c != 0x2D {
            match char_val(c) {
                Some(x) => { vals.push(x); }
                None => {
                    proof {
                        assert(base32_values(s@.subrange(0, i as int + 1)) is None);
                        lemma_values_none_extends(s@, i as int + 1);
                    }
                    return None;
                }
            }
        }
        i += 1;
    }
    assert(s@.subrange(0, s@.len() as int) =~= s@);
    let m = vals.len();
    let nbytes: usize = m / 8 * 5 + (m % 8) * 5 / 8;
    assert(nbytes as int == 5 * m / 8) by (nonlinear_arith)
        requires nbytes as int == m / 8 * 5 + (m % 8) * 5 / 8;
    let mut out: Vec<u8> = Vec::new();
    let mut k: usize = 0;
    let mut q: usize = 0;
    let mut rm: usize = 0;
    while k < nbytes
        invariant k <= nbytes, nbytes as int == 5 * vals@.len() / 8, out@.len() == k, m == vals@.len(),
            8 * k == 5 * q + rm, rm < 5,
            forall|j: int| 0 <= j < k ==> out@[j] == base32_bytes(vals@)[j],
        decreases nbytes - k,
    {
        let mut byte: u8 = 0;
        let mut t: usize = 0;
        while t < 8
            invariant t <= 8, k < nbytes, nbytes as int == 5 * vals@.len() / 8, m == vals@.len(),
                8 * k + t == 5 * q + rm, rm < 5,
                byte as int == partial_byte(vals@, k as int, t as int), (byte as int) < pow2_nat(t as nat),
            decreases 8 - t,
        {
            assert(q < vals@.len()) by (nonlinear_arith)
                requires 8 * k + t == 5 * q + rm, rm < 5, t < 8, k < nbytes, nbytes as int == 5 * vals@.len() / 8;
            let v = vals[q];
            let sh = (4 - rm) as u8;
            let bit = (v >> sh) & 1;
            assert(v >> sh & 1u8 <= 1) by (bit_vector);
            proof {
                let p = 8 * k + t;
                assert(p / 5 == q && p % 5 == rm) by (nonlinear_arith)
                    requires p == 5 * q + rm, 0 <= rm < 5, q >= 0;
                lemma_partial_step(vals@, k as int, t as int, byte as int);
            }
            byte = byte * 2 + bit;
            assert(q + 1 <= vals@.len());
            if rm == 4 {
                q += 1;
                rm = 0;
            } else {
                rm += 1;
            }
            t += 1;
        }
        proof { lemma_partial_full(vals@, k as int); }
        out.push(byte);
        k += 1;
    }
    assert(out@ =~= base32_bytes(vals@));
    Some(out)
}

proof fn lemma_values_none_extends(s: Seq<u8>, i: int)
    requires 0 <= i <= s.len(), base32_values(s.subrange(0, i)) is None,
    ensures base32_values(s) is None,
    decreases s.len() - i,
{
    if i < s.len() {
        assert(s.subrange(0, i + 1).drop_last() =~= s.subrange(0, i));
        lemma_values_none_extends(s, i + 1);
    } else {
        assert(s.subrange(0, i) =~= s);
    }
}

/// 2 to the `n`.
pub open spec fn pow2_nat(n: nat) -> int
    decreases n,
{
    if n == 0 { 1 } else { 2 * pow2_nat((n - 1) as nat) }
}

/// The first `t` bits of byte `i`, as a number.
pub open spec fn partial_byte(v: Seq<u8>, i: int, t: int) -> int
    decreases t,
{
    if t <= 0 { 0 } else { 2 * partial_byte(v, i, t - 1) + vbit(v, 8 * i + t - 1) }
}

proof fn lemma_partial_step(v: Seq<u8>, i: int, t: int, acc: int)
    requires 0 <= t < 8, acc == partial_byte(v, i, t), acc < pow2_nat(t as nat),
        vbit(v, 8 * i + t) <= 1,
    ensures
        partial_byte(v, i, t + 1) == 2 * acc + vbit(v, 8 * i + t),
        2 * acc + vbit(v, 8 * i + t) < pow2_nat((t + 1) as nat),
        2 * acc + vbit(v, 8 * i + t) < 256,
{
    reveal_with_fuel(pow2_nat, 9);
    assert(pow2_nat((t + 1) as nat) <= 256) by {
        reveal_with_fuel(pow2_nat, 9);
        assert(t + 1 <= 8);
        if t + 1 == 1 {} else if t + 1 == 2 {} else if t + 1 == 3 {} else if t + 1 == 4 {}
        else if t + 1 == 5 {} else if t + 1 == 6 {} else if t + 1 == 7 {} else {}
    }
}

proof fn lemma_partial_full(v: Seq<u8>, i: int)
    ensures partial_byte(v, i, 8) == 128 * vbit(v, 8 * i) + 64 * vbit(v, 8 * i + 1) + 32 * vbit(v, 8 * i + 2)
        + 16 * vbit(v, 8 * i + 3) + 8 * vbit(v, 8 * i + 4) + 4 * vbit(v, 8 * i + 5) + 2 * vbit(v, 8 * i + 6)
        + vbit(v, 8 * i + 7),
{
    reveal_with_fuel(partial_byte, 9);
}

proof fn lemma_char_value_inverse(v: int)
    requires 0 <= v < 32,
    ensures char_value(CROCKFORD@[v]) == Some(v as u8), CROCKFORD@[v] != 0x2Du8,
{
    assert(CROCKFORD@ =~= seq![
        0x30u8, 0x31u8, 0x32u8, 0x33u8, 0x34u8, 0x35u8, 0x36u8, 0x37u8, 0x38u8, 0x39u8,
        0x41u8, 0x42u8, 0x43u8, 0x44u8, 0x45u8, 0x46u8, 0x47u8, 0x48u8, 0x4Au8, 0x4Bu8,
        0x4Du8, 0x4Eu8, 0x50u8, 0x51u8, 0x52u8, 0x53u8, 0x54u8, 0x56u8, 0x57u8, 0x58u8, 0x59u8, 0x5Au8]);
}

proof fn lemma_bit_of_range(b: Seq<u8>, k: int)
    ensures bit_of(b, k) <= 1,
{
    if 0 <= k < 8 * b.len() {
        let x = b[k / 8];
        let sh = (7 - k % 8) as u8;
        assert(x >> sh & 1u8 <= 1u8) by (bit_vector);
    }
}

proof fn lemma_quint_bits(a: u8, b: u8, c: u8, d: u8, e: u8)
    requires a <= 1, b <= 1, c <= 1, d <= 1, e <= 1,
    ensures ({
        let q = (16 * a + 8 * b + 4 * c + 2 * d + e) as u8;
        &&& (q >> 4u8) & 1u8 == a
        &&& (q >> 3u8) & 1u8 == b
        &&& (q >> 2u8) & 1u8 == c
        &&& (q >> 1u8) & 1u8 == d
        &&& (q >> 0u8) & 1u8 == e
    }),
{
    assert({
        let q = (16 * a + 8 * b + 4 * c + 2 * d + e) as u8;
        &&& (q >> 4u8) & 1u8 == a
        &&& (q >> 3u8) & 1u8 == b
        &&& (q >> 2u8) & 1u8 == c
        &&& (q >> 1u8) & 1u8 == d
        &&& (q >> 0u8) & 1u8 == e
    }) by (bit_vector)
        requires a <= 1, b <= 1, c <= 1, d <= 1, e <= 1;
}

proof fn lemma_byte_from_bits(x: u8)
    ensures x == (128 * ((x >> 7u8) & 1u8) + 64 * ((x >> 6u8) & 1u8) + 32 * ((x >> 5u8) & 1u8)
        + 16 * ((x >> 4u8) & 1u8) + 8 * ((x >> 3u8) & 1u8) + 4 * ((x >> 2u8) & 1u8) + 2 * ((x >> 1u8) & 1u8)
        + ((x >> 0u8) & 1u8)) as u8,
{
    assert(x == (128 * ((x >> 7u8) & 1u8) + 64 * ((x >> 6u8) & 1u8) + 32 * ((x >> 5u8) & 1u8)
        + 16 * ((x >> 4u8) & 1u8) + 8 * ((x >> 3u8) & 1u8) + 4 * ((x >> 2u8) & 1u8) + 2 * ((x >> 1u8) & 1u8)
        + ((x >> 0u8) & 1u8)) as u8) by (bit_vector);
}

/// The 5-bit groups of `b`.
pub open spec fn quints(b: Seq<u8>, n: nat) -> Seq<u8> {
    Seq::new(n, |j: int| quint_of(b, j) as u8)
}

proof fn lemma_values_of_encoding(b: Seq<u8>, j: nat)
    requires j <= base32_len(b.len()),
    ensures base32_values(base32_encode(b).subrange(0, j as int)) == Some(quints(b, j)),
    decreases j,
{
    let e = base32_encode(b);
    if j > 0 {
        lemma_values_of_encoding(b, (j - 1) as nat);
        assert(e.subrange(0, j as int).drop_last() =~= e.subrange(0, j - 1));
        let q = quint_of(b, j - 1);
        lemma_bit_of_range(b, 5 * (j - 1));
        lemma_bit_of_range(b, 5 * (j - 1) + 1);
        lemma_bit_of_range(b, 5 * (j - 1) + 2);
        lemma_bit_of_range(b, 5 * (j - 1) + 3);
        lemma_bit_of_range(b, 5 * (j - 1) + 4);
        lemma_char_value_inverse(q);
        assert(quints(b, j) =~= quints(b, (j - 1) as nat).push(q as u8));
    } else {
        assert(e.subrange(0, 0) =~= Seq::<u8>::empty());
        assert(quints(b, 0) =~= Seq::<u8>::empty());
    }
}

proof fn lemma_byte_roundtrip(b: Seq<u8>, v: Seq<u8>, i: int)
    requires 0 <= i < b.len(), 5 * v.len() / 8 == b.len(),
        forall|k: int| 0 <= k < 8 * b.len() ==> #[trigger] vbit(v, k) == bit_of(b, k),
    ensures base32_bytes(v)[i] == b[i],
{
    assert forall|t: int| 0 <= t < 8 implies #[trigger] bit_of(b, 8 * i + t) == ((b[i] >> ((7 - t) as u8)) & 1u8) by {
        assert((8 * i + t) / 8 == i && (8 * i + t) % 8 == t) by (nonlinear_arith) requires 0 <= t < 8;
        assert(8 * i + t < 8 * b.len()) by (nonlinear_arith) requires 0 <= t < 8, 0 <= i < b.len();
    }
    assert(vbit(v, 8 * i) == bit_of(b, 8 * i));
    assert(vbit(v, 8 * i + 1) == bit_of(b, 8 * i + 1));
    assert(vbit(v, 8 * i + 2) == bit_of(b, 8 * i + 2));
    assert(vbit(v, 8 * i + 3) == bit_of(b, 8 * i + 3));
    assert(vbit(v, 8 * i + 4) == bit_of(b, 8 * i + 4));
    assert(vbit(v, 8 * i + 5) == bit_of(b, 8 * i + 5));
    assert(vbit(v, 8 * i + 6) == bit_of(b, 8 * i + 6));
    assert(vbit(v, 8 * i + 7) == bit_of(b, 8 * i + 7));
    assert(bit_of(b, 8 * i + 0) == ((b[i] >> 7u8) & 1u8));
    lemma_byte_from_bits(b[i]);
}

/// Decoding the base32 text of bytes gives the bytes back.
pub proof fn law_base32_roundtrip(b: Seq<u8>)
    ensures base32_decode(base32_encode(b)) == Some(b),
{
    let n = b.len();
    let len = base32_len(n);
    lemma_values_of_encoding(b, len);
    assert(base32_encode(b).subrange(0, len as int) =~= base32_encode(b));
    let v = quints(b, len);
    assert(5 * len / 8 == n) by (nonlinear_arith)
        requires len == (8 * n + 4) / 5;
    assert forall|k: int| 0 <= k < 8 * n implies #[trigger] vbit(v, k) == bit_of(b, k) by {
        let j = k / 5;
        let r = k % 5;
        assert(0 <= j < len) by (nonlinear_arith) requires 0 <= k < 8 * n, j == k / 5, len == (8 * n + 4) / 5;
        assert(k == 5 * j + r) by (nonlinear_arith) requires j == k / 5, r == k % 5;
        lemma_bit_of_range(b, 5 * j);
        lemma_bit_of_range(b, 5 * j + 1);
        lemma_bit_of_range(b, 5 * j + 2);
        lemma_bit_of_range(b, 5 * j + 3);
        lemma_bit_of_range(b, 5 * j + 4);
        lemma_quint_bits(bit_of(b, 5 * j), bit_of(b, 5 * j + 1), bit_of(b, 5 * j + 2), bit_of(b, 5 * j + 3),
            bit_of(b, 5 * j + 4));
    }
    assert forall|i: int| 0 <= i < n implies #[trigger] base32_bytes(v)[i] == b[i] by {
        lemma_byte_roundtrip(b, v, i);
    }
    assert(base32_bytes(v) =~= b);
}

/// Decoding the encoded text of a payload of the current version gives the
/// payload back.
pub proof fn law_pairing_text_roundtrip(p: PairingPayload)
    requires p.version == VERSION,
    ensures decode_payload_spec(base32_encode(payload_bytes(p))) == Ok::<PairingPayload, PairError>(p),
{
    law_base32_roundtrip(payload_bytes(p));
    law_payload_roundtrip(p);
}

/// Encode a payload as base32 text into `out`; the character count, or 0
/// when `out` is too short.
pub fn encode_payload(p: &PairingPayload, out: &mut [u8]) -> (r: usize)
    ensures
        final(out)@.len() == old(out)@.len(),
        base32_len(PAYLOAD_LEN as nat) <= old(out)@.len() ==> r == base32_len(PAYLOAD_LEN as nat)
            && final(out)@.subrange(0, r as int) == base32_encode(payload_bytes(*p)),
        base32_len(PAYLOAD_LEN as nat) > old(out)@.len() ==> r == 0,
{
    let bytes = p.to_bytes();
    let text = encode_base32(bytes.as_slice());
    if text.len() > out.len() {
        return 0;
    }
    crate::bytes::copy_into(out, 0, text.as_slice());
    assert(out@.subrange(0, text@.len() as int) =~= text@);
    text.len()
}

/// What decoding a pairing string gives.
pub open spec fn decode_payload_spec(s: Seq<u8>) -> Result<PairingPayload, PairError> {
    match base32_decode(s) {
        None => Err(PairError::BadChar),
        Some(b) => if b.len() > PAYLOAD_LEN + 2 { Err(PairError::BadChar) } else { payload_parse(b) },
    }
}

/// The upper-case form of an ASCII letter; other bytes unchanged.
pub open spec fn upper(c: u8) -> u8 {
    if 0x61 <= c <= 0x7A { (c - 0x20) as u8 } else { c }
}

/// A pairing string with hyphens removed and letters upper-cased.
pub open spec fn canonical_text(s: Seq<u8>) -> Seq<u8>
    decreases s.len(),
{
    if s.len() == 0 {
        Seq::empty()
    } else if s.last() == 0x2D {
        canonical_text(s.drop_last())
    } else {
        canonical_text(s.drop_last()).push(upper(s.last()))
    }
}

proof fn lemma_values_canonical(s: Seq<u8>)
    ensures base32_values(canonical_text(s)) == base32_values(s),
    decreases s.len(),
{
    if s.len() > 0 {
        lemma_values_canonical(s.drop_last());
        if s.last() != 0x2D {
            let c = canonical_text(s.drop_last()).push(upper(s.last()));
            assert(c.drop_last() =~= canonical_text(s.drop_last()));
            assert(char_value(upper(s.last())) == char_value(s.last()));
        }
    }
}

/// Hyphens and letter case do not matter to decoding a pairing string.
pub proof fn law_decode_ignores_case_and_hyphens(s: Seq<u8>)
    ensures
        base32_decode(canonical_text(s)) == base32_decode(s),
        decode_payload_spec(canonical_text(s)) == decode_payload_spec(s),
{
    lemma_values_canonical(s);
}

/// Decode a pairing string (hyphens and case ignored) into a payload.
pub fn decode_payload(s: &str) -> (r: Result<PairingPayload, PairError>)
    ensures
        r is Ok <==> decode_payload_spec(s.spec_bytes()) is Ok,
        r matches Ok(p) ==> decode_payload_spec(s.spec_bytes()) == Ok::<PairingPayload, PairError>(p),
        r matches Err(e) ==> decode_payload_spec(s.spec_bytes()) == Err::<PairingPayload, PairError>(e),
{
    let raw = match decode_base32(s.as_bytes()) {
        Some(v) => v,
        None => return Err(PairError::BadChar),
    };
    if raw.len() > PAYLOAD_LEN + 2 {
        return Err(PairError::BadChar);
    }
    PairingPayload::from_bytes(raw.as_slice())
}

// ------------------------------------------------------------ key schedule

/// The agreed session, identical on both sides.
#[derive(Clone, Copy)]
pub struct Session {
    /// Key of the CONFIRM MACs.
    pub session_key: [u8; 32],
    /// Hash of everything the short authentication string commits to.
    pub transcript_hash: [u8; 32],
    /// Six-digit short authentication string.
    pub sas: u32,
}

/// "SPv1".
pub open spec fn transcript_tag() -> Seq<u8> {
    seq![0x53u8, 0x50u8, 0x76u8, 0x31u8]
}

/// "semos-pair-v1 session".
pub open spec fn session_label() -> Seq<u8> {
    seq![0x73u8, 0x65u8, 0x6Du8, 0x6Fu8, 0x73u8, 0x2Du8, 0x70u8, 0x61u8, 0x69u8, 0x72u8, 0x2Du8, 0x76u8,
        0x31u8, 0x20u8, 0x73u8, 0x65u8, 0x73u8, 0x73u8, 0x69u8, 0x6Fu8, 0x6Eu8]
}

/// "semos-pair-v1 sas".
pub open spec fn sas_label() -> Seq<u8> {
    seq![0x73u8, 0x65u8, 0x6Du8, 0x6Fu8, 0x73u8, 0x2Du8, 0x70u8, 0x61u8, 0x69u8, 0x72u8, 0x2Du8, 0x76u8,
        0x31u8, 0x20u8, 0x73u8, 0x61u8, 0x73u8]
}

/// The transcript: tag, version, phone key and nonce, device key and nonce.
pub open spec fn transcript(version: u8, phone_pub: Seq<u8>, nonce_p: Seq<u8>, sem_pub: Seq<u8>,
    nonce_s: Seq<u8>) -> Seq<u8>
{
    transcript_tag() + seq![version] + phone_pub + nonce_p + sem_pub + nonce_s
}

/// The pseudorandom key of the session.
pub open spec fn session_prk(nonce_p: Seq<u8>, nonce_s: Seq<u8>, own_priv: Seq<u8>, peer_pub: Seq<u8>) -> Seq<u8> {
    hkdf_extract_spec(nonce_p + nonce_s, x25519_spec(own_priv, peer_pub))
}

fn push_slice_of(v: &mut Vec<u8>, a: &[u8])
    ensures final(v)@ == old(v)@ + a@,
{
    push_bytes(v, a);
}

/// Derive the session from the transcript fields, the private key of this side
/// and the public key of the other side.
pub fn derive_session(version: u8, phone_pub: &[u8; 32], nonce_p: &[u8; 16], sem_pub: &[u8; 32],
    nonce_s: &[u8; 16], own_priv: &[u8; 32], peer_pub: &[u8; 32]) -> (r: Session)
    ensures ({
        let th = sha256_digest(transcript(version, phone_pub@, nonce_p@, sem_pub@, nonce_s@));
        let prk = session_prk(nonce_p@, nonce_s@, own_priv@, peer_pub@);
        &&& r.transcript_hash@ == th
        &&& r.session_key@ == hkdf_expand_spec(prk, session_label() + th, 32)
        &&& r.sas == from_be32(hkdf_expand_spec(prk, sas_label() + th, 4)) % 1000000
    }),
{
    let shared = x25519(own_priv, peer_pub);
    let mut t: Vec<u8> = Vec::new();
    t.push(0x53); t.push(0x50); t.push(0x76); t.push(0x31);
    t.push(version);
    push_slice_of(&mut t, phone_pub.as_slice());
    push_slice_of(&mut t, nonce_p.as_slice());
    push_slice_of(&mut t, sem_pub.as_slice());
    push_slice_of(&mut t, nonce_s.as_slice());
    assert(t@ =~= transcript(version, phone_pub@, nonce_p@, sem_pub@, nonce_s@));
    let th = hash(t.as_slice());
    let mut salt: Vec<u8> = Vec::new();
    push_slice_of(&mut salt, nonce_p.as_slice());
    push_slice_of(&mut salt, nonce_s.as_slice());
    let prk = hkdf_extract(salt.as_slice(), shared.as_slice());
    let mut info: Vec<u8> = Vec::new();
    let label: [u8; 21] = [0x73, 0x65, 0x6D, 0x6F, 0x73, 0x2D, 0x70, 0x61, 0x69, 0x72, 0x2D, 0x76, 0x31, 0x20,
        0x73, 0x65, 0x73, 0x73, 0x69, 0x6F, 0x6E];
    push_slice_of(&mut info, label.as_slice());
    push_slice_of(&mut info, th.as_slice());
    assert(info@ =~= session_label() + th@);
    let key = hkdf_expand(&prk, info.as_slice(), 32);
    let session_key: [u8; 32] = crate::bytes::to_array(key.as_slice(), 0);
    assert(session_key@ =~= key@);
    let mut info2: Vec<u8> = Vec::new();
    let label2: [u8; 17] = [0x73, 0x65, 0x6D, 0x6F, 0x73, 0x2D, 0x70, 0x61, 0x69, 0x72, 0x2D, 0x76, 0x31, 0x20,
        0x73, 0x61, 0x73];
    push_slice_of(&mut info2, label2.as_slice());
    push_slice_of(&mut info2, th.as_slice());
    assert(info2@ =~= sas_label() + th@);
    let sas_bytes = hkdf_expand(&prk, info2.as_slice(), 4);
    let sas = read_be32(sas_bytes.as_slice(), 0) % 1_000_000;
    assert(sas_bytes@.subrange(0, 4) =~= sas_bytes@);
    Session { session_key, transcript_hash: th, sas }
}

/// "confirm-sem" or "confirm-phone".
pub open spec fn confirm_label(from_sem: bool) -> Seq<u8> {
    if from_sem {
        seq![0x63u8, 0x6Fu8, 0x6Eu8, 0x66u8, 0x69u8, 0x72u8, 0x6Du8, 0x2Du8, 0x73u8, 0x65u8, 0x6Du8]
    } else {
        seq![0x63u8, 0x6Fu8, 0x6Eu8, 0x66u8, 0x69u8, 0x72u8, 0x6Du8, 0x2Du8, 0x70u8, 0x68u8, 0x6Fu8, 0x6Eu8, 0x65u8]
    }
}

/// The CONFIRM MAC of one direction: HMAC(session key, label || th).
pub fn confirm_mac(session_key: &[u8; 32], th: &[u8; 32], from_sem: bool) -> (r: [u8; 32])
    ensures r@ == hmac_sha256_spec(session_key@, confirm_label(from_sem) + th@),
{
    let mut msg: Vec<u8> = Vec::new();
    if from_sem {
        let l: [u8; 11] = [0x63, 0x6F, 0x6E, 0x66, 0x69, 0x72, 0x6D, 0x2D, 0x73, 0x65, 0x6D];
        push_slice_of(&mut msg, l.as_slice());
    } else {
        let l: [u8; 13] = [0x63, 0x6F, 0x6E, 0x66, 0x69, 0x72, 0x6D, 0x2D, 0x70, 0x68, 0x6F, 0x6E, 0x65];
        push_slice_of(&mut msg, l.as_slice());
    }
    push_slice_of(&mut msg, th.as_slice());
    assert(msg@ =~= confirm_label(from_sem) + th@);
    hmac_sha256(session_key.as_slice(), msg.as_slice())
}

/// "semos-pair-id".
pub open spec fn pair_id_tag() -> Seq<u8> {
    seq![0x73u8, 0x65u8, 0x6Du8, 0x6Fu8, 0x73u8, 0x2Du8, 0x70u8, 0x61u8, 0x69u8, 0x72u8, 0x2Du8, 0x69u8, 0x64u8]
}

/// Lowercase hex digit of `d` (< 16).
pub open spec fn hex_lower(d: u8) -> u8 {
    if d < 10 { (0x30 + d) as u8 } else { (0x61 + d - 10) as u8 }
}

/// The pairing id: the first 8 bytes of SHA-256("semos-pair-id" || phone
/// key || device key) in lowercase hex.
pub open spec fn pairing_id_text(phone_pub: Seq<u8>, sem_pub: Seq<u8>) -> Seq<u8> {
    let h = sha256_digest(pair_id_tag() + phone_pub + sem_pub);
    Seq::new(16, |k: int| if k % 2 == 0 { hex_lower(h[k / 2] >> 4u8) } else { hex_lower(h[k / 2] & 0xFu8) })
}

/// Write the pairing id (16 lowercase hex characters) into `out`; 16.
pub fn pairing_id(phone_pub: &[u8; 32], sem_pub: &[u8; 32], out: &mut [u8]) -> (r: usize)
    requires old(out)@.len() >= 16,
    ensures
        r == 16, final(out)@.len() == old(out)@.len(),
        final(out)@.subrange(0, 16) == pairing_id_text(phone_pub@, sem_pub@),
        final(out)@.subrange(16, old(out)@.len() as int) == old(out)@.subrange(16, old(out)@.len() as int),
{
    let mut m: Vec<u8> = Vec::new();
    let tag: [u8; 13] = [0x73, 0x65, 0x6D, 0x6F, 0x73, 0x2D, 0x70, 0x61, 0x69, 0x72, 0x2D, 0x69, 0x64];
    push_slice_of(&mut m, tag.as_slice());
    push_slice_of(&mut m, phone_pub.as_slice());
    push_slice_of(&mut m, sem_pub.as_slice());
    assert(m@ =~= pair_id_tag() + phone_pub@ + sem_pub@);
    let h = hash(m.as_slice());
    let hex: [u8; 16] = [0x30, 0x31, 0x32, 0x33, 0x34, 0x35, 0x36, 0x37, 0x38, 0x39, 0x61, 0x62, 0x63, 0x64, 0x65, 0x66];
    let ghost text = pairing_id_text(phone_pub@, sem_pub@);
    let _n = out.len();
    let mut i: usize = 0;
    while i < 8
        invariant i <= 8, out@.len() == old(out)@.len(), old(out)@.len() >= 16, h@ == sha256_digest(m@),
            m@ == pair_id_tag() + phone_pub@ + sem_pub@,
            text == pairing_id_text(phone_pub@, sem_pub@),
            forall|k: int| 0 <= k < 2 * i ==> out@[k] == text[k],
            forall|k: int| 16 <= k < out@.len() ==> out@[k] == old(out)@[k],
            forall|d: int| 0 <= d < 16 ==> #[trigger] hex@[d] == hex_lower(d as u8),
        decreases 8 - i,
    {
        let x = h[i];
        let hi = x >> 4;
        let lo = x & 0xF;
        assert(x >> 4u8 < 16u8 && x & 0xFu8 < 16u8) by (bit_vector);
        out[i * 2] = hex[hi as usize];
        out[i * 2 + 1] = hex[lo as usize];
        i += 1;
    }
    assert(out@.subrange(0, 16) =~= text);
    assert(out@.subrange(16, old(out)@.len() as int) =~= old(out)@.subrange(16, old(out)@.len() as int));
    16
}

// ------------------------------------------------------------------ frames

pub const FRAME_HELLO: u8 = 0x01;
pub const FRAME_ACK: u8 = 0x02;
pub const FRAME_CONFIRM: u8 = 0x03;
pub const FRAME_ABORT: u8 = 0xFF;
/// Length (2 bytes, big-endian) and type.
pub const FRAME_HEADER_LEN: usize = 3;
/// Largest accepted frame body.
pub const MAX_FRAME_BODY: usize = 125;

/// The HELLO frame: length 50, type, version, device key, nonce.
pub open spec fn hello_frame(sem_pub: Seq<u8>, nonce_s: Seq<u8>) -> Seq<u8> {
    be16(50) + seq![FRAME_HELLO, VERSION] + sem_pub + nonce_s
}

/// The CONFIRM frame: length 33, type, MAC.
pub open spec fn confirm_frame(mac: Seq<u8>) -> Seq<u8> {
    be16(33) + seq![FRAME_CONFIRM] + mac
}

/// The HELLO frame obeys the framing rule: its header, read back by the
/// frame parser's rule, names type HELLO and a 49-byte body, and the whole
/// frame is the 3-byte header plus that body, 52 bytes.
pub proof fn law_hello_frame(sem_pub: Seq<u8>, nonce_s: Seq<u8>)
    requires sem_pub.len() == 32, nonce_s.len() == 16,
    ensures
        ({
            let f = hello_frame(sem_pub, nonce_s);
            &&& f.len() == 52
            &&& f[2] == FRAME_HELLO && f[3] == VERSION
            &&& 1 <= from_be16(f.subrange(0, 2)) <= MAX_FRAME_BODY + 1
            &&& f.len() == FRAME_HEADER_LEN + (from_be16(f.subrange(0, 2)) - 1)
        }),
{
    let f = hello_frame(sem_pub, nonce_s);
    assert(f.subrange(0, 2) =~= be16(50));
    lemma_be16_roundtrip(50);
}

/// Write the HELLO frame into `out`; its length. Every frame is a 2-byte
/// length counting the type byte and the body, the type byte, then the body;
/// the HELLO body is the version, the 32-byte key and the 16-byte nonce (49
/// bytes), so its length field is 50 and the frame is 3 + 49 = 52 bytes, the
/// count a reader takes from `parse_frame_header` (`law_hello_frame`).
pub fn build_hello(sem_pub: &[u8; 32], nonce_s: &[u8; 16], out: &mut [u8]) -> (r: usize)
    requires old(out)@.len() >= 52,
    ensures
        r == 52, final(out)@.len() == old(out)@.len(),
        final(out)@.subrange(0, 52) == hello_frame(sem_pub@, nonce_s@),
        final(out)@.subrange(52, old(out)@.len() as int) == old(out)@.subrange(52, old(out)@.len() as int),
{
    let mut f: Vec<u8> = Vec::new();
    push_slice_of(&mut f, u16_to_be(50u16).as_slice());
    f.push(FRAME_HELLO);
    f.push(VERSION);
    push_slice_of(&mut f, sem_pub.as_slice());
    push_slice_of(&mut f, nonce_s.as_slice());
    assert(f@ =~= hello_frame(sem_pub@, nonce_s@));
    crate::bytes::copy_into(out, 0, f.as_slice());
    assert(out@.subrange(0, 52) =~= f@);
    assert(out@.subrange(52, old(out)@.len() as int) =~= old(out)@.subrange(52, old(out)@.len() as int));
    52
}

/// Write a CONFIRM frame carrying `mac` into `out`; its length, 35.
pub fn build_confirm(mac: &[u8; 32], out: &mut [u8]) -> (r: usize)
    requires old(out)@.len() >= 35,
    ensures
        r == 35, final(out)@.len() == old(out)@.len(),
        final(out)@.subrange(0, 35) == confirm_frame(mac@),
        final(out)@.subrange(35, old(out)@.len() as int) == old(out)@.subrange(35, old(out)@.len() as int),
{
    let mut f: Vec<u8> = Vec::new();
    push_slice_of(&mut f, u16_to_be(33u16).as_slice());
    f.push(FRAME_CONFIRM);
    push_slice_of(&mut f, mac.as_slice());
    assert(f@ =~= confirm_frame(mac@));
    crate::bytes::copy_into(out, 0, f.as_slice());
    assert(out@.subrange(0, 35) =~= f@);
    assert(out@.subrange(35, old(out)@.len() as int) =~= old(out)@.subrange(35, old(out)@.len() as int));
    35
}

/// Frame type and body length from a header; none if the length is zero
/// or the body would exceed 125 bytes.
pub fn parse_frame_header(hdr: &[u8]) -> (r: Option<(u8, usize)>)
    ensures
        r is Some <==> hdr@.len() >= 3 && 1 <= from_be16(hdr@.subrange(0, 2)) <= MAX_FRAME_BODY + 1,
        r matches Some(x) ==> x.0 == hdr@[2] && x.1 == from_be16(hdr@.subrange(0, 2)) - 1,
{
    if hdr.len() < FRAME_HEADER_LEN {
        return None;
    }
    let len = read_be16(hdr, 0) as usize;
    if len == 0 || len - 1 > MAX_FRAME_BODY {
        return None;
    }
    Some((hdr[2], len - 1))
}

/// Constant-time equality of two byte strings of equal length.
pub fn ct_eq(a: &[u8], b: &[u8]) -> (r: bool)
    ensures r == (a@ == b@),
{
    if a.len() != b.len() {
        return false;
    }
    let mut diff: u8 = 0;
    let mut i: usize = 0;
    while i < a.len()
        invariant i <= a@.len(), a@.len() == b@.len(),
            (diff == 0) == (forall|j: int| 0 <= j < i ==> a@[j] == b@[j]),
        decreases a@.len() - i,
    {
        let x = a[i];
        let y = b[i];
        let d = diff;
        assert((d | (x ^ y)) == 0 <==> (d == 0 && x == y)) by (bit_vector);
        diff = diff | (x ^ y);
        i += 1;
    }
    if diff == 0 {
        assert(a@ =~= b@);
    }
    diff == 0
}

/// Whether `body` is the CONFIRM MAC expected for direction `from_sem`.
pub fn verify_confirm(session_key: &[u8; 32], th: &[u8; 32], from_sem: bool, body: &[u8]) -> (r: bool)
    ensures r == (body@ == hmac_sha256_spec(session_key@, confirm_label(from_sem) + th@)),
{
    let expected = confirm_mac(session_key, th, from_sem);
    if body.len() != 32 {
        return false;
    }
    ct_eq(expected.as_slice(), body)
}

// ------------------------------------------------------------------ record

/// Bytes of a stored pairing record.
pub const RECORD_LEN: usize = 49;
/// Record magic, "PR".
pub const RECORD_MAGIC: [u8; 2] = [0x50, 0x52];

/// A paired device.
#[derive(Clone, Copy, Debug)]
pub struct PairRecord {
    pub phone_pub: [u8; 32],
    pub ip: [u8; 4],
    pub port: u16,
    pub created_at: u64,
}

/// Stored bytes of a record: magic, version, key, address, port, creation
/// time (big-endian).
pub open spec fn record_bytes(r: PairRecord) -> Seq<u8> {
    RECORD_MAGIC@ + seq![VERSION] + r.phone_pub@ + r.ip@ + be16(r.port) + be64(r.created_at)
}

/// What parsing `b` as a record gives.
pub open spec fn record_parse(b: Seq<u8>) -> Option<PairRecord> {
    if b.len() != RECORD_LEN || b.subrange(0, 2) != RECORD_MAGIC@ || b[2] != VERSION {
        None
    } else {
        Some(PairRecord {
            phone_pub: seq_to_32(b.subrange(3, 35)),
            ip: seq_to_4(b.subrange(35, 39)),
            port: from_be16(b.subrange(39, 41)),
            created_at: from_be64(b.subrange(41, 49)),
        })
    }
}

impl PairRecord {
    /// Serialize into the 49-byte layout.
    pub fn to_bytes(&self) -> (r: Vec<u8>)
        ensures r@ == record_bytes(*self), r@.len() == RECORD_LEN,
    {
        let mut b: Vec<u8> = Vec::new();
        push_slice_of(&mut b, RECORD_MAGIC.as_slice());
        b.push(VERSION);
        push_slice_of(&mut b, self.phone_pub.as_slice());
        push_slice_of(&mut b, self.ip.as_slice());
        push_slice_of(&mut b, u16_to_be(self.port).as_slice());
        push_slice_of(&mut b, u64_to_be(self.created_at).as_slice());
        assert(b@ =~= record_bytes(*self));
        b
    }

    /// Parse the 49-byte layout; none on a wrong length, magic or version.
    pub fn from_bytes(b: &[u8]) -> (r: Option<Self>)
        ensures r == record_parse(b@),
    {
        if b.len() != RECORD_LEN {
            return None;
        }
        if !(b[0] == RECORD_MAGIC[0] && b[1] == RECORD_MAGIC[1]) || b[2] != VERSION {
            assert(b@.subrange(0, 2) != RECORD_MAGIC@ || b@[2] != VERSION) by {
                if b@.subrange(0, 2) == RECORD_MAGIC@ {
                    assert(b@.subrange(0, 2)[0] == b@[0] && b@.subrange(0, 2)[1] == b@[1]);
                }
            }
            return None;
        }
        assert(b@.subrange(0, 2) =~= RECORD_MAGIC@);
        let phone_pub: [u8; 32] = crate::bytes::to_array(b, 3);
        let ip: [u8; 4] = crate::bytes::to_array(b, 35);
        assert(phone_pub == seq_to_32(b@.subrange(3, 35))) by {
            let a = seq_to_32(b@.subrange(3, 35));
            assert(a@ =~= phone_pub@);
        }
        assert(ip == seq_to_4(b@.subrange(35, 39))) by {
            let a = seq_to_4(b@.subrange(35, 39));
            assert(a@ =~= ip@);
        }
        Some(PairRecord { phone_pub, ip, port: read_be16(b, 39), created_at: read_be64(b, 41) })
    }
}

/// Parsing the stored bytes of a record gives it back.
pub proof fn law_record_roundtrip(r: PairRecord)
    ensures record_parse(record_bytes(r)) == Some(r),
{
    let b = record_bytes(r);
    assert(b.subrange(0, 2) =~= RECORD_MAGIC@);
    assert(b.subrange(3, 35) =~= r.phone_pub@);
    assert(seq_to_32(b.subrange(3, 35)) == r.phone_pub);
    assert(b.subrange(35, 39) =~= r.ip@);
    assert(seq_to_4(b.subrange(35, 39)) == r.ip);
    assert(b.subrange(39, 41) =~= be16(r.port));
    lemma_be16_roundtrip(r.port);
    assert(b.subrange(41, 49) =~= be64(r.created_at));
    lemma_be64_roundtrip(r.created_at);
}

/// Both sides derive the same session: the transcript fields are shared,
/// and each feeds its own private key with the public key of the other, which
/// X25519 makes agree.
pub proof fn law_sessions_agree(version: u8, phone_pub: Seq<u8>, nonce_p: Seq<u8>, sem_pub: Seq<u8>,
    nonce_s: Seq<u8>, phone_priv: Seq<u8>, sem_priv: Seq<u8>)
    requires x25519_spec(sem_priv, phone_pub) == x25519_spec(phone_priv, sem_pub),
    ensures
        session_prk(nonce_p, nonce_s, sem_priv, phone_pub) == session_prk(nonce_p, nonce_s, phone_priv, sem_pub),
{
}

} // verus!
