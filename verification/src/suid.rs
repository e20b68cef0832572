//! Semantic Unique Identifiers: 128-bit object identities.
use vstd::prelude::*;
use crate::bytes::{be64, from_be64, read_be64, u64_to_be, lemma_be64_roundtrip};

verus! {

/// A 128-bit semantic identifier. The top nibble of `high` is the version,
/// the next nibble the identifier type.
#[derive(Clone, Copy, Debug, PartialEq, Eq, Structural)]
pub struct SUID {
    pub high: u64,
    pub low: u64,
}

pub const SUID_VERSION_1: u8 = 1;
pub const SUID_TYPE_CONTENT: u8 = 0;
pub const SUID_TYPE_RANDOM: u8 = 1;
pub const SUID_TYPE_DERIVED: u8 = 2;
pub const SUID_TYPE_SYSTEM: u8 = 15;

/// `h` with version 1 in bits 60..64 and type `t` in bits 56..60.
pub open spec fn stamp(h: u64, t: u64) -> u64 {
    (((h & 0x0FFF_FFFF_FFFF_FFFFu64) | (1u64 << 60u64)) & 0xF0FF_FFFF_FFFF_FFFFu64) | (t << 56u64)
}

/// The version nibble of a high word.
pub open spec fn version_of(h: u64) -> u64 { (h >> 60u64) & 0xFu64 }

/// The type nibble of a high word.
pub open spec fn type_of(h: u64) -> u64 { (h >> 56u64) & 0xFu64 }

/// A stamped word carries version 1 and the given type, and keeps the low 56 bits.
pub proof fn lemma_stamp(h: u64, t: u64)
    requires t < 16,
    ensures
        version_of(stamp(h, t)) == 1,
        type_of(stamp(h, t)) == t,
        stamp(h, t) & 0x00FF_FFFF_FFFF_FFFFu64 == h & 0x00FF_FFFF_FFFF_FFFFu64,
{
    assert(((((((h & 0x0FFF_FFFF_FFFF_FFFFu64) | (1u64 << 60u64)) & 0xF0FF_FFFF_FFFF_FFFFu64) | (t << 56u64)) >> 60u64) & 0xFu64 == 1u64)
        && ((((((h & 0x0FFF_FFFF_FFFF_FFFFu64) | (1u64 << 60u64)) & 0xF0FF_FFFF_FFFF_FFFFu64) | (t << 56u64)) >> 56u64) & 0xFu64 == t)
        && (((((h & 0x0FFF_FFFF_FFFF_FFFFu64) | (1u64 << 60u64)) & 0xF0FF_FFFF_FFFF_FFFFu64) | (t << 56u64)) & 0x00FF_FFFF_FFFF_FFFFu64
            == h & 0x00FF_FFFF_FFFF_FFFFu64)) by (bit_vector)
        requires t < 16;
}

fn stamp_exec(h: u64, t: u64) -> (r: u64)
    requires t < 16,
    ensures r == stamp(h, t),
{
    (((h & 0x0FFF_FFFF_FFFF_FFFFu64) | (1u64 << 60)) & 0xF0FF_FFFF_FFFF_FFFFu64) | (t << 56)
}

/// Rotate left by 32 bits.
pub open spec fn rotl32(x: u64) -> u64 { (x << 32u64) | (x >> 32u64) }

/// Rotate right by 17 bits.
pub open spec fn rotr17(x: u64) -> u64 { (x >> 17u64) | (x << 47u64) }

/// High word of a random SUID made from `seed`.
pub open spec fn lcg(x: u64) -> u64 {
    x.wrapping_mul(6364136223846793005u64).wrapping_add(1442695040888963407u64)
}

/// High word of a derived SUID before stamping.
pub open spec fn derive_mix(parent: SUID, rel: u64) -> (u64, u64) {
    let mh = parent.high ^ rel;
    let ml = parent.low ^ rotl32(rel);
    let high = mh.wrapping_mul(0x9E3779B97F4A7C15u64);
    let low = ml.wrapping_mul(0xBF58476D1CE4E5B9u64);
    (high ^ rotr17(low), low)
}

impl SUID {
    /// The null (invalid) SUID.
    /// Version 1 of the layout.
    pub const VERSION_1: u8 = 1;
    /// Identifier types (the type nibble).
    pub const TYPE_CONTENT: u8 = 0;
    pub const TYPE_RANDOM: u8 = 1;
    pub const TYPE_DERIVED: u8 = 2;
    pub const TYPE_SYSTEM: u8 = 15;

    pub fn null() -> (r: SUID)
        ensures r.high == 0 && r.low == 0,
    {
        SUID { high: 0, low: 0 }
    }

    /// A SUID from raw words.
    pub fn new(high: u64, low: u64) -> (r: Self)
        ensures r.high == high && r.low == low,
    {
        SUID { high, low }
    }

    /// A content-addressed SUID: the first 16 bytes of `hash`, big-endian,
    /// with version 1 and type "content" stamped into the high word.
    pub fn from_content_hash(hash: &[u8; 32]) -> (r: Self)
        ensures
            r.high == stamp(from_be64(hash@.subrange(0, 8)), SUID_TYPE_CONTENT as u64),
            r.low == from_be64(hash@.subrange(8, 16)),
    {
        let h = read_be64(hash, 0);
        let low = read_be64(hash, 8);
        SUID { high: stamp_exec(h, 0), low }
    }

    /// A pseudo-random SUID from `seed` (two LCG steps), stamped type "random".
    pub fn random(seed: u64) -> (r: Self)
        ensures
            r.high == stamp(lcg(seed), SUID_TYPE_RANDOM as u64),
            r.low == lcg(lcg(seed)),
    {
        let r1 = seed.wrapping_mul(6364136223846793005u64).wrapping_add(1442695040888963407u64);
        let r2 = r1.wrapping_mul(6364136223846793005u64).wrapping_add(1442695040888963407u64);
        SUID { high: stamp_exec(r1, 1), low: r2 }
    }

    /// A SUID derived from `parent` and a relationship tag, stamped type "derived".
    pub fn derive(parent: &SUID, relationship: u64) -> (r: Self)
        ensures
            r.high == stamp(derive_mix(*parent, relationship).0, SUID_TYPE_DERIVED as u64),
            r.low == derive_mix(*parent, relationship).1,
    {
        let mixed_high = parent.high ^ relationship;
        let mixed_low = parent.low ^ ((relationship << 32) | (relationship >> 32));
        let high = mixed_high.wrapping_mul(0x9E3779B97F4A7C15u64);
        let low = mixed_low.wrapping_mul(0xBF58476D1CE4E5B9u64);
        let h = high ^ ((low >> 17) | (low << 47));
        SUID { high: stamp_exec(h, 2), low }
    }

    /// A system SUID: version 1, type "system", low word `id`.
    pub fn system(id: u64) -> (r: Self)
        ensures r.high == (1u64 << 60u64) | (15u64 << 56u64), r.low == id,
    {
        SUID { high: (1u64 << 60) | (15u64 << 56), low: id }
    }

    /// Whether both words are zero.
    pub fn is_null(&self) -> (r: bool)
        ensures r == (self.high == 0 && self.low == 0),
    {
        self.high == 0 && self.low == 0
    }

    /// The version nibble.
    pub fn version(&self) -> (r: u8)
        ensures r == version_of(self.high),
    {
        let h = self.high;
        let v = (h >> 60) & 0xF;
        assert(v < 16) by (bit_vector) requires v == (h >> 60u64) & 0xFu64;
        v as u8
    }

    /// The type nibble.
    pub fn suid_type(&self) -> (r: u8)
        ensures r == type_of(self.high),
    {
        let h = self.high;
        let v = (h >> 56) & 0xF;
        assert(v < 16) by (bit_vector) requires v == (h >> 56u64) & 0xFu64;
        v as u8
    }

    /// Big-endian bytes: high word then low word.
    pub fn to_bytes(&self) -> (r: [u8; 16])
        ensures r@ == be64(self.high) + be64(self.low),
    {
        let h = u64_to_be(self.high);
        let l = u64_to_be(self.low);
        let r = [h[0], h[1], h[2], h[3], h[4], h[5], h[6], h[7], l[0], l[1], l[2], l[3], l[4], l[5], l[6], l[7]];
        assert(r@ =~= h@ + l@);
        r
    }

    /// Parse big-endian bytes.
    pub fn from_bytes(bytes: &[u8; 16]) -> (r: Self)
        ensures
            r.high == from_be64(bytes@.subrange(0, 8)),
            r.low == from_be64(bytes@.subrange(8, 16)),
    {
        SUID { high: read_be64(bytes, 0), low: read_be64(bytes, 8) }
    }
}

/// `from_bytes` undoes `to_bytes`.
pub proof fn law_suid_bytes_roundtrip(s: SUID)
    ensures
        from_be64((be64(s.high) + be64(s.low)).subrange(0, 8)) == s.high,
        from_be64((be64(s.high) + be64(s.low)).subrange(8, 16)) == s.low,
{
    lemma_be64_roundtrip(s.high);
    lemma_be64_roundtrip(s.low);
    assert((be64(s.high) + be64(s.low)).subrange(0, 8) =~= be64(s.high));
    assert((be64(s.high) + be64(s.low)).subrange(8, 16) =~= be64(s.low));
}

/// Every generated kind carries version 1 and its own type tag; a system SUID
/// is never null.
pub proof fn law_suid_stamps(seed: u64, parent: SUID, rel: u64, h: u64, id: u64)
    ensures
        version_of(stamp(lcg(seed), 1)) == 1 && type_of(stamp(lcg(seed), 1)) == 1,
        version_of(stamp(derive_mix(parent, rel).0, 2)) == 1 && type_of(stamp(derive_mix(parent, rel).0, 2)) == 2,
        version_of(stamp(h, 0)) == 1 && type_of(stamp(h, 0)) == 0,
        version_of((1u64 << 60u64) | (15u64 << 56u64)) == 1 && type_of((1u64 << 60u64) | (15u64 << 56u64)) == 15,
        (1u64 << 60u64) | (15u64 << 56u64) != 0,
{
    lemma_stamp(lcg(seed), 1);
    lemma_stamp(derive_mix(parent, rel).0, 2);
    lemma_stamp(h, 0);
    assert(((((1u64 << 60u64) | (15u64 << 56u64)) >> 60u64) & 0xFu64 == 1u64)
        && ((((1u64 << 60u64) | (15u64 << 56u64)) >> 56u64) & 0xFu64 == 15u64)
        && ((1u64 << 60u64) | (15u64 << 56u64)) != 0u64) by (bit_vector);
}

/// Well-known system SUIDs.
pub fn system_root() -> (r: SUID) ensures r == SUID::system_spec(0) { SUID::system(0) }
pub fn system_kernel_config() -> (r: SUID) ensures r == SUID::system_spec(1) { SUID::system(1) }
pub fn system_security_policy() -> (r: SUID) ensures r == SUID::system_spec(2) { SUID::system(2) }
pub fn system_process_table() -> (r: SUID) ensures r == SUID::system_spec(3) { SUID::system(3) }
pub fn system_memory_map() -> (r: SUID) ensures r == SUID::system_spec(4) { SUID::system(4) }

impl SUID {
    /// The system SUID with low word `id`.
    pub open spec fn system_spec(id: u64) -> SUID {
        SUID { high: (1u64 << 60u64) | (15u64 << 56u64), low: id }
    }
}

/// Stateful SUID generator.
pub struct SUIDGenerator {
    pub counter: u64,
    pub seed: u64,
}

impl SUIDGenerator {
    /// A generator with counter 0 and the given seed.
    pub fn new(initial_seed: u64) -> (r: Self)
        ensures r.counter == 0 && r.seed == initial_seed,
    {
        SUIDGenerator { counter: 0, seed: initial_seed }
    }

    /// Advance the seed and return the random SUID for the new seed.
    pub fn next_random(&mut self) -> (r: SUID)
        ensures
            final(self).seed == old(self).seed.wrapping_mul(6364136223846793005u64).wrapping_add(1),
            final(self).counter == old(self).counter,
            r.high == stamp(lcg(final(self).seed), SUID_TYPE_RANDOM as u64),
            r.low == lcg(lcg(final(self).seed)),
    {
        self.seed = self.seed.wrapping_mul(6364136223846793005u64).wrapping_add(1);
        SUID::random(self.seed)
    }

    /// Next sequential system SUID (ids start at 1).
    pub fn next_system(&mut self) -> (r: SUID)
        requires old(self).counter < u64::MAX,
        ensures
            final(self).counter == old(self).counter + 1,
            final(self).seed == old(self).seed,
            r == SUID::system_spec(final(self).counter),
    {
        self.counter = self.counter + 1;
        SUID::system(self.counter)
    }
}

} // verus!
