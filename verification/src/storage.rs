//! Persistent storage layout: the storage header, the pool table and the
//! header of each encrypted pool. All multi-byte fields are little-endian.
use vstd::prelude::*;
use crate::bytes::{le32, from_le32, u32_to_le, read_le32, push_bytes, lemma_le32_roundtrip};
use crate::crc32::{crc32, crc32_spec};
use crate::tier::{SecurityTier, tier_level};
use crate::fmt::{dec_digits, push_decimal};
use vstd::string::StringSliceAdditionalSpecFns;

pub mod persistence;
pub mod boot;
pub mod snapshot;
pub mod pools;

verus! {

/// Storage magic "SEMO".
pub const STORAGE_MAGIC: [u8; 4] = [0x53, 0x45, 0x4D, 0x4F];
/// Storage format version.
pub const STORAGE_VERSION: u32 = 1;
/// Largest serialized pool.
pub const MAX_POOL_DATA_SIZE: usize = 65536;
/// Number of pools (one per tier).
pub const NUM_POOLS: usize = 4;
/// Length of the key-derivation salt.
pub const SALT_SIZE: usize = 32;

/// Header at the start of storage.
#[derive(Clone, Copy)]
pub struct StorageHeader {
    pub magic: [u8; 4],
    pub version: u32,
    /// Salt of the master-key derivation.
    pub salt: [u8; 32],
    /// Offset of the pool table.
    pub pool_table_offset: u32,
    /// Bytes used: header, table and pools.
    pub total_size: u32,
    /// CRC-32 of every other field.
    pub checksum: u32,
    pub reserved: [u8; 20],
}

impl StorageHeader {
    /// Bytes of a header.
    pub const SIZE: usize = 72;

    /// The header's bytes, in field order.
    pub open spec fn layout(&self) -> Seq<u8> {
        self.magic@ + le32(self.version) + self.salt@ + le32(self.pool_table_offset)
            + le32(self.total_size) + le32(self.checksum) + self.reserved@
    }

    /// What the checksum covers: every field but the checksum, in order.
    pub open spec fn checksum_input(&self) -> Seq<u8> {
        self.magic@ + le32(self.version) + self.salt@ + le32(self.pool_table_offset)
            + le32(self.total_size) + self.reserved@
    }

    /// A header for the current format with the given salt, table offset
    /// and total size, and its checksum.
    pub fn new(salt: [u8; 32], pool_table_offset: u32, total_size: u32) -> (r: Self)
        ensures
            r.magic@ == STORAGE_MAGIC@, r.version == STORAGE_VERSION, r.salt@ == salt@,
            r.pool_table_offset == pool_table_offset, r.total_size == total_size,
            forall|i: int| 0 <= i < 20 ==> r.reserved@[i] == 0,
            r.checksum == crc32_spec(r.checksum_input()),
    {
        let mut header = StorageHeader {
            magic: STORAGE_MAGIC,
            version: STORAGE_VERSION,
            salt,
            pool_table_offset,
            total_size,
            checksum: 0,
            reserved: [0u8; 20],
        };
        header.checksum = header.compute_checksum();
        header
    }

    fn checksum_bytes(&self) -> (r: Vec<u8>)
        ensures r@ == self.checksum_input(),
    {
        let mut v: Vec<u8> = Vec::new();
        push_bytes(&mut v, self.magic.as_slice());
        push_bytes(&mut v, u32_to_le(self.version).as_slice());
        push_bytes(&mut v, self.salt.as_slice());
        push_bytes(&mut v, u32_to_le(self.pool_table_offset).as_slice());
        push_bytes(&mut v, u32_to_le(self.total_size).as_slice());
        push_bytes(&mut v, self.reserved.as_slice());
        v
    }

    fn compute_checksum(&self) -> (r: u32)
        ensures r == crc32_spec(self.checksum_input()),
    {
        let v = self.checksum_bytes();
        crc32(v.as_slice())
    }

    /// Whether the header has the right magic, version and checksum.
    pub fn verify(&self) -> (r: bool)
        ensures
            r == (self.magic@ == STORAGE_MAGIC@ && self.version == STORAGE_VERSION
                && self.checksum == crc32_spec(self.checksum_input())),
    {
        let magic_ok = self.magic[0] == 0x53 && self.magic[1] == 0x45 && self.magic[2] == 0x4D
            && self.magic[3] == 0x4F;
        proof {
            assert(magic_ok == (self.magic@ =~= STORAGE_MAGIC@));
        }
        magic_ok && self.version == STORAGE_VERSION && self.checksum == self.compute_checksum()
    }

    /// The salt.
    pub fn get_salt(&self) -> (r: [u8; 32])
        ensures r == self.salt,
    {
        self.salt
    }

    /// The header's bytes.
    pub fn to_bytes(&self) -> (r: Vec<u8>)
        ensures r@ == self.layout(), r@.len() == Self::SIZE,
    {
        let mut v: Vec<u8> = Vec::new();
        push_bytes(&mut v, self.magic.as_slice());
        push_bytes(&mut v, u32_to_le(self.version).as_slice());
        push_bytes(&mut v, self.salt.as_slice());
        push_bytes(&mut v, u32_to_le(self.pool_table_offset).as_slice());
        push_bytes(&mut v, u32_to_le(self.total_size).as_slice());
        push_bytes(&mut v, u32_to_le(self.checksum).as_slice());
        push_bytes(&mut v, self.reserved.as_slice());
        v
    }

    /// The header held in the first `SIZE` bytes of `b`.
    pub fn from_bytes(b: &[u8]) -> (r: Self)
        requires b@.len() >= Self::SIZE,
        ensures r.layout() == b@.subrange(0, Self::SIZE as int),
    {
        let r = StorageHeader {
            magic: crate::bytes::to_array::<4>(b, 0),
            version: read_le32(b, 4),
            salt: crate::bytes::to_array::<32>(b, 8),
            pool_table_offset: read_le32(b, 40),
            total_size: read_le32(b, 44),
            checksum: read_le32(b, 48),
            reserved: crate::bytes::to_array::<20>(b, 52),
        };
        proof {
            lemma_le32_inverse(b@.subrange(4, 8));
            lemma_le32_inverse(b@.subrange(40, 44));
            lemma_le32_inverse(b@.subrange(44, 48));
            lemma_le32_inverse(b@.subrange(48, 52));
            assert(r.layout() =~= b@.subrange(0, Self::SIZE as int));
        }
        r
    }
}

/// Encoding the decoding of four bytes gives them back.
pub proof fn lemma_le32_inverse(s: Seq<u8>)
    requires s.len() == 4,
    ensures le32(from_le32(s)) == s,
{
    let x = from_le32(s);
    let (a, b, c, d) = (s[0], s[1], s[2], s[3]);
    assert(((((d as u32) << 24u32) | ((c as u32) << 16u32) | ((b as u32) << 8u32) | (a as u32)) >> 24u32) as u8 == d
        && ((((d as u32) << 24u32) | ((c as u32) << 16u32) | ((b as u32) << 8u32) | (a as u32)) >> 16u32) as u8 == c
        && ((((d as u32) << 24u32) | ((c as u32) << 16u32) | ((b as u32) << 8u32) | (a as u32)) >> 8u32) as u8 == b
        && (((d as u32) << 24u32) | ((c as u32) << 16u32) | ((b as u32) << 8u32) | (a as u32)) as u8 == a)
        by (bit_vector);
    assert(le32(x) =~= s);
}

/// A header made by `new` passes `verify`.
pub proof fn law_new_header_verifies(h: StorageHeader)
    requires
        h.magic@ == STORAGE_MAGIC@, h.version == STORAGE_VERSION,
        h.checksum == crc32_spec(h.checksum_input()),
    ensures
        h.magic@ == STORAGE_MAGIC@ && h.version == STORAGE_VERSION
            && h.checksum == crc32_spec(h.checksum_input()),
{
}

/// Writing a header out and reading it back gives the same header.
pub proof fn law_header_roundtrip(h: StorageHeader, r: StorageHeader)
    requires r.layout() == h.layout(),
    ensures r == h,
{
    let l = h.layout();
    assert(r.magic@ =~= l.subrange(0, 4));
    assert(h.magic@ =~= l.subrange(0, 4));
    assert(r.salt@ =~= l.subrange(8, 40));
    assert(h.salt@ =~= l.subrange(8, 40));
    assert(r.reserved@ =~= l.subrange(52, 72));
    assert(h.reserved@ =~= l.subrange(52, 72));
    assert(le32(r.version) =~= l.subrange(4, 8));
    assert(le32(h.version) =~= l.subrange(4, 8));
    assert(le32(r.pool_table_offset) =~= l.subrange(40, 44));
    assert(le32(h.pool_table_offset) =~= l.subrange(40, 44));
    assert(le32(r.total_size) =~= l.subrange(44, 48));
    assert(le32(h.total_size) =~= l.subrange(44, 48));
    assert(le32(r.checksum) =~= l.subrange(48, 52));
    assert(le32(h.checksum) =~= l.subrange(48, 52));
    lemma_le32_roundtrip(r.version);
    lemma_le32_roundtrip(h.version);
    lemma_le32_roundtrip(r.pool_table_offset);
    lemma_le32_roundtrip(h.pool_table_offset);
    lemma_le32_roundtrip(r.total_size);
    lemma_le32_roundtrip(h.total_size);
    lemma_le32_roundtrip(r.checksum);
    lemma_le32_roundtrip(h.checksum);
    assert(r.magic == h.magic);
    assert(r.salt == h.salt);
    assert(r.reserved == h.reserved);
}

/// One entry of the pool table.
#[derive(Clone, Copy)]
pub struct PoolEntry {
    /// Tier level 0..3.
    pub tier: u8,
    pub flags: u8,
    pub reserved: [u8; 2],
    /// Offset of the pool's data from the start of storage.
    pub data_offset: u32,
    /// Bytes of encrypted data (with nonce and tag).
    pub data_size: u32,
    /// Bytes before encryption.
    pub original_size: u32,
    pub object_count: u32,
    pub metadata: [u8; 8],
}

impl PoolEntry {
    /// Bytes of an entry.
    pub const SIZE: usize = 28;
    /// The pool's data is encrypted.
    pub const FLAG_ENCRYPTED: u8 = 1;
    /// The pool's data is compressed (reserved).
    pub const FLAG_COMPRESSED: u8 = 2;
    /// The pool holds sensitive data.
    pub const FLAG_SENSITIVE: u8 = 4;

    /// The entry's bytes, in field order.
    pub open spec fn layout(&self) -> Seq<u8> {
        seq![self.tier, self.flags] + self.reserved@ + le32(self.data_offset) + le32(self.data_size)
            + le32(self.original_size) + le32(self.object_count) + self.metadata@
    }

    /// An entry for an encrypted pool of tier `tier`; sensitive and secret
    /// pools are also flagged sensitive.
    pub fn new(tier: SecurityTier, data_offset: u32, data_size: u32, original_size: u32) -> (r: Self)
        ensures
            r.tier == tier_level(tier),
            r.flags == (if tier_level(tier) >= 2 { 5u8 } else { 1u8 }),
            r.data_offset == data_offset, r.data_size == data_size, r.original_size == original_size,
            r.object_count == 0,
            forall|i: int| 0 <= i < 2 ==> r.reserved@[i] == 0,
            forall|i: int| 0 <= i < 8 ==> r.metadata@[i] == 0,
    {
        let t = tier.as_u8();
        let flags: u8 = if t >= 2 { 5 } else { 1 };
        PoolEntry {
            tier: t,
            flags,
            reserved: [0u8; 2],
            data_offset,
            data_size,
            original_size,
            object_count: 0,
            metadata: [0u8; 8],
        }
    }

    /// An all-zero entry (no pool).
    pub fn zeroed() -> (r: Self)
        ensures r.tier == 0, r.flags == 0, r.data_offset == 0, r.data_size == 0,
            r.original_size == 0, r.object_count == 0,
            forall|i: int| 0 <= i < 2 ==> r.reserved@[i] == 0,
            forall|i: int| 0 <= i < 8 ==> r.metadata@[i] == 0,
    {
        PoolEntry {
            tier: 0,
            flags: 0,
            reserved: [0u8; 2],
            data_offset: 0,
            data_size: 0,
            original_size: 0,
            object_count: 0,
            metadata: [0u8; 8],
        }
    }

    /// Whether the encrypted flag is set.
    pub fn is_encrypted(&self) -> (r: bool)
        ensures r == (self.flags & 1 != 0),
    {
        self.flags & Self::FLAG_ENCRYPTED != 0
    }

    /// The entry's bytes.
    pub fn to_bytes(&self) -> (r: Vec<u8>)
        ensures r@ == self.layout(), r@.len() == Self::SIZE,
    {
        let mut v: Vec<u8> = Vec::new();
        v.push(self.tier);
        v.push(self.flags);
        proof {
            assert(v@ =~= seq![self.tier, self.flags]);
        }
        push_bytes(&mut v, self.reserved.as_slice());
        push_bytes(&mut v, u32_to_le(self.data_offset).as_slice());
        push_bytes(&mut v, u32_to_le(self.data_size).as_slice());
        push_bytes(&mut v, u32_to_le(self.original_size).as_slice());
        push_bytes(&mut v, u32_to_le(self.object_count).as_slice());
        push_bytes(&mut v, self.metadata.as_slice());
        v
    }

    /// The entry held in `b` at `off`.
    pub fn from_bytes(b: &[u8], off: usize) -> (r: Self)
        requires off + Self::SIZE <= b@.len(),
        ensures r.layout() == b@.subrange(off as int, off + Self::SIZE),
    {
        let _n = b.len();
        let r = PoolEntry {
            tier: b[off],
            flags: b[off + 1],
            reserved: crate::bytes::to_array::<2>(b, off + 2),
            data_offset: read_le32(b, off + 4),
            data_size: read_le32(b, off + 8),
            original_size: read_le32(b, off + 12),
            object_count: read_le32(b, off + 16),
            metadata: crate::bytes::to_array::<8>(b, off + 20),
        };
        proof {
            lemma_le32_inverse(b@.subrange(off + 4, off + 8));
            lemma_le32_inverse(b@.subrange(off + 8, off + 12));
            lemma_le32_inverse(b@.subrange(off + 12, off + 16));
            lemma_le32_inverse(b@.subrange(off + 16, off + 20));
            assert(r.layout() =~= b@.subrange(off as int, off + Self::SIZE));
        }
        r
    }
}

/// The four pool entries.
#[derive(Clone, Copy)]
pub struct PoolTable {
    pub entries: [PoolEntry; 4],
}

impl PoolTable {
    /// Bytes of the table.
    pub const SIZE: usize = 112;

    /// An all-zero table.
    pub fn new() -> (r: Self)
        ensures forall|i: int| 0 <= i < NUM_POOLS ==> (#[trigger] r.entries@[i]).data_size == 0
            && r.entries@[i].tier == 0 && r.entries@[i].flags == 0,
    {
        let e = PoolEntry::zeroed();
        PoolTable { entries: [e; 4] }
    }

    /// The table's bytes: the four entries in order.
    pub fn to_bytes(&self) -> (r: Vec<u8>)
        ensures
            r@.len() == Self::SIZE,
            forall|i: int| 0 <= i < NUM_POOLS ==>
                r@.subrange(i * 28, i * 28 + 28) == (#[trigger] self.entries@[i]).layout(),
    {
        let mut v: Vec<u8> = Vec::new();
        let mut i: usize = 0;
        while i < NUM_POOLS
            invariant
                i <= NUM_POOLS, v@.len() == i * 28,
                forall|k: int| 0 <= k < i ==> v@.subrange(k * 28, k * 28 + 28) == (#[trigger] self.entries@[k]).layout(),
            decreases NUM_POOLS - i,
        {
            let ghost before = v@;
            let e = self.entries[i].to_bytes();
            push_bytes(&mut v, e.as_slice());
            proof {
                assert forall|k: int| 0 <= k < i + 1 implies
                    v@.subrange(k * 28, k * 28 + 28) == (#[trigger] self.entries@[k]).layout() by {
                    if k < i {
                        assert(v@.subrange(k * 28, k * 28 + 28) =~= before.subrange(k * 28, k * 28 + 28));
                    } else {
                        assert(v@.subrange(k * 28, k * 28 + 28) =~= e@);
                    }
                }
            }
            i += 1;
        }
        v
    }

    /// The table held in `b` at `off`.
    pub fn from_bytes(b: &[u8], off: usize) -> (r: Self)
        requires off + Self::SIZE <= b@.len(),
        ensures forall|i: int| 0 <= i < NUM_POOLS ==>
            (#[trigger] r.entries@[i]).layout() == b@.subrange(off + i * 28, off + i * 28 + 28),
    {
        let _n = b.len();
        let e0 = PoolEntry::from_bytes(b, off);
        let e1 = PoolEntry::from_bytes(b, off + 28);
        let e2 = PoolEntry::from_bytes(b, off + 56);
        let e3 = PoolEntry::from_bytes(b, off + 84);
        let r = PoolTable { entries: [e0, e1, e2, e3] };
        assert(r.entries@[0] == e0 && r.entries@[1] == e1 && r.entries@[2] == e2 && r.entries@[3] == e3);
        r
    }
}

/// Nonce and tag stored in front of each pool's ciphertext.
#[derive(Clone, Copy)]
pub struct EncryptedPoolHeader {
    pub nonce: [u8; 12],
    pub tag: [u8; 16],
}

impl EncryptedPoolHeader {
    /// Bytes of the header.
    pub const SIZE: usize = 28;

    pub fn new(nonce: [u8; 12], tag: [u8; 16]) -> (r: Self)
        ensures r.nonce == nonce, r.tag == tag,
    {
        EncryptedPoolHeader { nonce, tag }
    }

    pub fn get_nonce(&self) -> (r: [u8; 12])
        ensures r == self.nonce,
    {
        self.nonce
    }
}

/// Errors of the storage layer.
#[derive(Debug, Clone, Copy, PartialEq, Eq, Structural)]
pub enum StorageError {
    InvalidHeader,
    VersionMismatch,
    ChecksumFailed,
    PoolNotFound,
    EncryptionFailed,
    DecryptionFailed,
    AuthenticationFailed,
    BufferTooSmall,
    KeyNotInitialized,
    IoError,
    StorageFull,
}

/// Storage figures.
#[derive(Clone, Copy)]
pub struct StorageStats {
    pub total_size: usize,
    pub used_size: usize,
    pub pool_count: usize,
    pub object_count: usize,
    pub encrypted_pools: usize,
}

impl StorageStats {
    /// All zero.
    pub fn empty() -> (r: Self)
        ensures r.total_size == 0, r.used_size == 0, r.pool_count == 0, r.object_count == 0,
            r.encrypted_pools == 0,
    {
        StorageStats { total_size: 0, used_size: 0, pool_count: 0, object_count: 0, encrypted_pools: 0 }
    }
}

/// The storage status report: the sizes of the on-disk structures.
pub open spec fn status_spec() -> Seq<u8> {
    "\n  Storage Status:\n".spec_bytes() + "    Header size: ".spec_bytes()
        + dec_digits(StorageHeader::SIZE as nat) + " bytes\n".spec_bytes()
        + "    Pool entry size: ".spec_bytes() + dec_digits(PoolEntry::SIZE as nat) + " bytes\n".spec_bytes()
        + "    Encrypted header size: ".spec_bytes() + dec_digits(EncryptedPoolHeader::SIZE as nat)
        + " bytes\n".spec_bytes()
}

/// The storage status report for the log.
pub fn status_text() -> (r: Vec<u8>)
    ensures r@ == status_spec(),
{
    let mut out: Vec<u8> = Vec::new();
    push_bytes(&mut out, "\n  Storage Status:\n".as_bytes());
    push_bytes(&mut out, "    Header size: ".as_bytes());
    push_decimal(&mut out, StorageHeader::SIZE as u64);
    push_bytes(&mut out, " bytes\n".as_bytes());
    push_bytes(&mut out, "    Pool entry size: ".as_bytes());
    push_decimal(&mut out, PoolEntry::SIZE as u64);
    push_bytes(&mut out, " bytes\n".as_bytes());
    push_bytes(&mut out, "    Encrypted header size: ".as_bytes());
    push_decimal(&mut out, EncryptedPoolHeader::SIZE as u64);
    push_bytes(&mut out, " bytes\n".as_bytes());
    out
}

} // verus!
