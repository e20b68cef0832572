//! Saving the four memory pools to a storage image and loading them back:
//! header, pool table, then each pool serialized and sealed with its key.
use vstd::prelude::*;
use crate::bytes::{le32, le64, u64_to_le, copy_into};
use crate::chacha_aead::chacha_seal;
use vstd::slice::slice_subrange;
use crate::storage::{StorageError, StorageHeader, PoolEntry, PoolTable, EncryptedPoolHeader, MAX_POOL_DATA_SIZE,
    STORAGE_MAGIC, STORAGE_VERSION};
use crate::storage::persistence::{PoolSerializer, encrypt_pool, pool_meta_layout, allocated_data, pool_aad};
use crate::crc32::crc32_spec;
use crate::tier::{SecurityTier, tier_level};

verus! {

/// What persistence reads of a memory pool.
pub struct PoolImage<'a> {
    pub frame_count: usize,
    /// Which frames are in use.
    pub allocated: &'a [bool],
    /// The data of each frame.
    pub frames: &'a [&'a [u8]],
    pub base_address: usize,
    /// Frames the pool reports in use (recorded in the pool table).
    pub allocated_frames: usize,
}

/// Offset of the pool table in a storage image.
pub const TABLE_OFFSET: usize = 72;
/// Offset of the first pool's data.
pub const DATA_OFFSET: usize = 184;

/// The tier of pool `i` (public, internal, sensitive, secret).
pub open spec fn tier_of_index(i: int) -> SecurityTier {
    if i == 0 { SecurityTier::Public } else if i == 1 { SecurityTier::Internal }
    else if i == 2 { SecurityTier::Sensitive } else { SecurityTier::Secret }
}

fn tier_at(i: usize) -> (r: SecurityTier)
    ensures r == tier_of_index(i as int),
{
    if i == 0 { SecurityTier::Public } else if i == 1 { SecurityTier::Internal }
    else if i == 2 { SecurityTier::Sensitive } else { SecurityTier::Secret }
}

/// The serialized bytes of a pool image of tier `t`.
pub open spec fn image_plain(p: PoolImage, t: SecurityTier) -> Seq<u8> {
    pool_meta_layout(p.frame_count, p.allocated@, p.base_address, t)
        + allocated_data(p.frames@.map_values(|f: &[u8]| f@), p.allocated@, p.frame_count as int)
}

/// The serialized bytes of pool `i`.
pub open spec fn plain_of(pools: Seq<PoolImage>, i: int) -> Seq<u8> {
    image_plain(pools[i], tier_of_index(i))
}

/// Where pool `i`'s sealed data starts: after the header, the table and
/// the sealed data (28 bytes of nonce and tag, then the ciphertext) of
/// the pools before it.
pub open spec fn pool_offset(pools: Seq<PoolImage>, i: int) -> int
    decreases i,
{
    if i <= 0 { DATA_OFFSET as int } else { pool_offset(pools, i - 1) + 28 + plain_of(pools, i - 1).len() }
}

/// The first error of saving pools `i..4` into `out_len` bytes: a pool that
/// serializes to more than `MAX_POOL_DATA_SIZE` bytes, a missing key, or
/// sealed data that runs past the end of the output.
pub open spec fn save_error(pools: Seq<PoolImage>, keys: Seq<Option<[u8; 32]>>, out_len: int, i: int)
    -> Option<StorageError>
    decreases 4 - i,
{
    if i >= 4 || i < 0 {
        None
    } else if plain_of(pools, i).len() > MAX_POOL_DATA_SIZE {
        Some(StorageError::BufferTooSmall)
    } else if keys[i] is None {
        Some(StorageError::KeyNotInitialized)
    } else if pool_offset(pools, i + 1) > out_len {
        Some(StorageError::StorageFull)
    } else {
        save_error(pools, keys, out_len, i + 1)
    }
}

/// The nonce of pool `i` sealed at offset `off`: the pool number, three
/// zero bytes, the offset (64-bit little-endian).
pub open spec fn save_nonce(i: int, off: int) -> Seq<u8> {
    seq![i as u8, 0u8, 0u8, 0u8] + le64(off as u64)
}

/// `out` holds pool `i` sealed at its offset: nonce, tag, ciphertext.
pub open spec fn region_ok(out: Seq<u8>, pools: Seq<PoolImage>, keys: Seq<Option<[u8; 32]>>, i: int) -> bool {
    let off = pool_offset(pools, i);
    let plain = plain_of(pools, i);
    let n = plain.len() as int;
    let sealed = chacha_seal(keys[i]->0@, save_nonce(i, off), pool_aad(tier_of_index(i)), plain);
    &&& out.subrange(off, off + 12) == save_nonce(i, off)
    &&& out.subrange(off + 12, off + 28) == sealed.subrange(n, n + 16)
    &&& out.subrange(off + 28, off + 28 + n) == sealed.subrange(0, n)
}

/// The table entry of pool `i`.
pub open spec fn entry_layout(pools: Seq<PoolImage>, i: int) -> Seq<u8> {
    let off = pool_offset(pools, i);
    let n = plain_of(pools, i).len();
    seq![i as u8, if i >= 2 { 5u8 } else { 1u8 }, 0u8, 0u8] + le32(off as u32) + le32((28 + n) as u32)
        + le32(n as u32) + le32(pools[i].allocated_frames as u32) + Seq::new(8, |k: int| 0u8)
}

/// The header of a fresh image with this salt and total size.
pub open spec fn fresh_header(salt: Seq<u8>, total: u32) -> Seq<u8> {
    let zeros = Seq::new(20, |k: int| 0u8);
    let covered = STORAGE_MAGIC@ + le32(STORAGE_VERSION) + salt + le32(TABLE_OFFSET as u32) + le32(total) + zeros;
    STORAGE_MAGIC@ + le32(STORAGE_VERSION) + salt + le32(TABLE_OFFSET as u32) + le32(total)
        + le32(crc32_spec(covered)) + zeros
}

/// Pool `i` is recorded in `out` exactly where the table says.
proof fn lemma_region_kept(a: Seq<u8>, b: Seq<u8>, pools: Seq<PoolImage>, keys: Seq<Option<[u8; 32]>>, i: int)
    requires
        a.len() == b.len(),
        region_ok(a, pools, keys, i),
        0 <= pool_offset(pools, i),
        pool_offset(pools, i) + 28 + plain_of(pools, i).len() <= a.len(),
        forall|k: int| pool_offset(pools, i) <= k < pool_offset(pools, i) + 28 + plain_of(pools, i).len()
            ==> #[trigger] b[k] == a[k],
    ensures region_ok(b, pools, keys, i),
{
    let off = pool_offset(pools, i);
    let n = plain_of(pools, i).len() as int;
    assert(b.subrange(off, off + 12) =~= a.subrange(off, off + 12));
    assert(b.subrange(off + 12, off + 28) =~= a.subrange(off + 12, off + 28));
    assert(b.subrange(off + 28, off + 28 + n) =~= a.subrange(off + 28, off + 28 + n));
}

/// Offsets grow with the pool number.
proof fn lemma_offsets_grow(pools: Seq<PoolImage>, i: int, j: int)
    requires i <= j,
    ensures pool_offset(pools, i) <= pool_offset(pools, j),
    decreases j - i,
{
    if i < j {
        lemma_offsets_grow(pools, i, j - 1);
    }
}

/// Every pool starts after the table.
proof fn lemma_offset_floor(pools: Seq<PoolImage>, i: int)
    ensures pool_offset(pools, i) >= DATA_OFFSET,
    decreases i,
{
    if i > 0 {
        lemma_offset_floor(pools, i - 1);
    }
}

/// Bytes outside the range a copy wrote keep their values.
proof fn lemma_copy_keeps(before: Seq<u8>, after: Seq<u8>, src: Seq<u8>, off: int, k: int)
    requires
        0 <= off, off + src.len() <= before.len(),
        after == before.subrange(0, off) + src + before.subrange(off + src.len(), before.len() as int),
        0 <= k < before.len(), k < off || k >= off + src.len(),
    ensures after[k] == before[k],
{
    if k < off {
        assert(after[k] == before.subrange(0, off)[k]);
    } else {
        assert(after[k] == before.subrange(off + src.len(), before.len() as int)[k - off - src.len()]);
    }
}

/// Save the four pools (public, internal, sensitive, secret) sealed with
/// their keys into `output`: the header (with `salt` and the total size) at
/// 0, the table at `TABLE_OFFSET`, each pool's sealed data from
/// `DATA_OFFSET` on. Returns the total size, or the first error (a pool too
/// large to serialize, a missing key, no room).
#[verifier::rlimit(60)]
pub fn save_pools(pools: &[PoolImage; 4], keys: &[Option<[u8; 32]>; 4], salt: [u8; 32], output: &mut [u8])
    -> (r: Result<usize, StorageError>)
    requires
        forall|i: int| 0 <= i < 4 ==> (#[trigger] pools@[i]).allocated@.len() >= pools@[i].frame_count
            && pools@[i].frames@.len() >= pools@[i].frame_count,
    ensures
        final(output)@.len() == old(output)@.len(),
        r is Err <==> save_error(pools@, keys@, old(output)@.len() as int, 0) is Some,
        r matches Err(e) ==> save_error(pools@, keys@, old(output)@.len() as int, 0) == Some(e),
        r matches Ok(n) ==> n == pool_offset(pools@, 4)
            && final(output)@.subrange(0, 72) == fresh_header(salt@, n as u32)
            && (forall|i: int| 0 <= i < 4 ==> #[trigger] final(output)@.subrange(72 + 28 * i, 100 + 28 * i)
                == entry_layout(pools@, i))
            && (forall|i: int| 0 <= i < 4 ==> #[trigger] region_ok(final(output)@, pools@, keys@, i)),
{
    let mut table = PoolTable::new();
    let mut current: usize = DATA_OFFSET;
    let mut serializer = PoolSerializer::new();
    let mut enc: Vec<u8> = vec![0u8; MAX_POOL_DATA_SIZE + EncryptedPoolHeader::SIZE];
    let olen = output.len();
    let mut i: usize = 0;
    while i < 4
        invariant
            serializer.wf(),
            enc@.len() == MAX_POOL_DATA_SIZE + 28,
            olen == old(output)@.len(), output@.len() == olen,
            forall|k: int| 0 <= k < 4 ==> (#[trigger] pools@[k]).allocated@.len() >= pools@[k].frame_count
                && pools@[k].frames@.len() >= pools@[k].frame_count,
            i <= 4,
            current == pool_offset(pools@, i as int),
            i > 0 ==> current <= olen,
            save_error(pools@, keys@, olen as int, 0) == save_error(pools@, keys@, olen as int, i as int),
            forall|k: int| 0 <= k < i ==> (#[trigger] table.entries@[k]).layout() == entry_layout(pools@, k),
            forall|k: int| 0 <= k < i ==> #[trigger] region_ok(output@, pools@, keys@, k),
        decreases 4 - i,
    {
        let tier = tier_at(i);
        let p = &pools[i];
        let plain_len = match serializer.serialize_pool(p.frame_count, p.allocated, p.frames, p.base_address, tier) {
            Ok(n) => n,
            Err(e) => { return Err(e); },
        };
        let c = u64_to_le(current as u64);
        let nonce: [u8; 12] = [i as u8, 0, 0, 0, c[0], c[1], c[2], c[3], c[4], c[5], c[6], c[7]];
        proof { assert(nonce@ =~= save_nonce(i as int, current as int)); }
        let key: Option<&[u8; 32]> = match &keys[i] {
            Some(k) => Some(k),
            None => None,
        };
        let enc_len = match encrypt_pool(tier, serializer.data(), &nonce, key, enc.as_mut_slice()) {
            Ok(n) => n,
            Err(e) => { return Err(e); },
        };
        let mut entry = PoolEntry::new(tier, current as u32, enc_len as u32, plain_len as u32);
        entry.object_count = p.allocated_frames as u32;
        proof {
            assert(entry.reserved@ =~= seq![0u8, 0u8]);
            assert(entry.metadata@ =~= Seq::new(8, |k: int| 0u8));
            assert(entry.layout() =~= entry_layout(pools@, i as int));
        }
        table.entries[i] = entry;
        if current > olen || enc_len > olen - current {
            return Err(StorageError::StorageFull);
        }
        let ghost before = output@;
        let sealed_part = slice_subrange(enc.as_slice(), 0, enc_len);
        copy_into(output, current, sealed_part);
        proof {
            let off = current as int;
            let n = plain_len as int;
            assert(key->0@ == keys@[i as int]->0@);
            assert(output@.subrange(off, off + 12) =~= sealed_part@.subrange(0, 12));
            assert(output@.subrange(off + 12, off + 28) =~= sealed_part@.subrange(12, 28));
            assert(output@.subrange(off + 28, off + 28 + n) =~= sealed_part@.subrange(28, 28 + n));
            let ghost plain = plain_of(pools@, i as int);
            assert(serializer.written() == plain);
            assert(n == plain.len());
            assert(enc_len == 28 + n);
            assert(sealed_part@ == enc@.subrange(0, enc_len as int));
            assert(sealed_part@.subrange(0, 12) =~= enc@.subrange(0, 12));
            assert(sealed_part@.subrange(12, 28) =~= enc@.subrange(12, 28));
            assert(sealed_part@.subrange(28, 28 + n) =~= enc@.subrange(28, 28 + n));
            assert(enc@.subrange(0, 12) == nonce@);
            let ghost sealed = chacha_seal(keys@[i as int]->0@, save_nonce(i as int, off), pool_aad(tier_of_index(i as int)), plain);
            assert(enc@.subrange(12, 28) == sealed.subrange(n, n + 16));
            assert(enc@.subrange(28, 28 + n) == sealed.subrange(0, n));
            assert(region_ok(output@, pools@, keys@, i as int));
            assert forall|k: int| 0 <= k < i implies #[trigger] region_ok(output@, pools@, keys@, k) by {
                lemma_offsets_grow(pools@, k + 1, i as int);
                lemma_offset_floor(pools@, k);
                assert forall|q: int| pool_offset(pools@, k) <= q < pool_offset(pools@, k) + 28 + plain_of(pools@, k).len()
                    implies #[trigger] output@[q] == before[q] by {
                    lemma_copy_keeps(before, output@, sealed_part@, off, q);
                }
                lemma_region_kept(before, output@, pools@, keys@, k);
            }
        }
        current = current + enc_len;
        i += 1;
    }
    let tb = table.to_bytes();
    proof { lemma_offset_floor(pools@, 0); }
    let ghost before_table = output@;
    copy_into(output, TABLE_OFFSET, tb.as_slice());
    proof {
        assert forall|k: int| 0 <= k < 4 implies #[trigger] region_ok(output@, pools@, keys@, k) by {
            lemma_offsets_grow(pools@, k + 1, 4);
            lemma_offset_floor(pools@, k);
            assert forall|q: int| pool_offset(pools@, k) <= q < pool_offset(pools@, k) + 28 + plain_of(pools@, k).len()
                implies #[trigger] output@[q] == before_table[q] by {
                lemma_copy_keeps(before_table, output@, tb@, 72, q);
            }
            lemma_region_kept(before_table, output@, pools@, keys@, k);
        }
        assert forall|k: int| 0 <= k < 4 implies #[trigger] output@.subrange(72 + 28 * k, 100 + 28 * k)
            == entry_layout(pools@, k) by {
            assert(output@.subrange(72 + 28 * k, 100 + 28 * k) =~= tb@.subrange(28 * k, 28 * k + 28));
            assert(table.entries@[k].layout() == entry_layout(pools@, k));
        }
    }
    let header = StorageHeader::new(salt, TABLE_OFFSET as u32, current as u32);
    let hb = header.to_bytes();
    let ghost before_header = output@;
    copy_into(output, 0, hb.as_slice());
    proof {
        assert(header.reserved@ =~= Seq::new(20, |k: int| 0u8));
        assert(output@.subrange(0, 72) =~= hb@);
        assert(hb@ =~= fresh_header(salt@, current as u32));
        assert forall|k: int| 0 <= k < 4 implies #[trigger] region_ok(output@, pools@, keys@, k) by {
            lemma_offsets_grow(pools@, k + 1, 4);
            lemma_offset_floor(pools@, k);
            assert forall|q: int| pool_offset(pools@, k) <= q < pool_offset(pools@, k) + 28 + plain_of(pools@, k).len()
                implies #[trigger] output@[q] == before_header[q] by {
                lemma_copy_keeps(before_header, output@, hb@, 0, q);
            }
            lemma_region_kept(before_header, output@, pools@, keys@, k);
        }
        assert forall|k: int| 0 <= k < 4 implies #[trigger] output@.subrange(72 + 28 * k, 100 + 28 * k)
            == entry_layout(pools@, k) by {
            assert forall|q: int| 72 + 28 * k <= q < 100 + 28 * k implies #[trigger] output@[q] == before_header[q] by {
                lemma_copy_keeps(before_header, output@, hb@, 0, q);
            }
            assert(output@.subrange(72 + 28 * k, 100 + 28 * k) =~= before_header.subrange(72 + 28 * k, 100 + 28 * k));
        }
    }
    Ok(current)
}

} // verus!
