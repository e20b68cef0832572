//! Pool persistence: serializing a pool (metadata, then the data of its
//! allocated frames) and sealing it with the pool's key.
use vstd::prelude::*;
use crate::bytes::{le64, from_le64, u64_to_le, read_le64, push_bytes, lemma_le64_roundtrip};
use crate::chacha_aead::{aead_len_safe, chacha_seal, seal, open, TAG_SIZE, NONCE_SIZE};
use vstd::slice::slice_subrange;
use crate::storage::{StorageError, EncryptedPoolHeader, MAX_POOL_DATA_SIZE};
use crate::tier::{SecurityTier, tier_level};

verus! {

/// The allocation bitmap of the first `n` frames: bit `i` set when frame
/// `i` is allocated.
pub open spec fn bitmap_of(allocated: Seq<bool>, n: int) -> u64
    decreases n,
{
    if n <= 0 {
        0
    } else if allocated[n - 1] {
        bitmap_of(allocated, n - 1) | (1u64 << ((n - 1) as u64))
    } else {
        bitmap_of(allocated, n - 1)
    }
}

/// How many of the first `n` frames are allocated.
pub open spec fn count_allocated(allocated: Seq<bool>, n: int) -> nat
    decreases n,
{
    if n <= 0 { 0 } else { count_allocated(allocated, n - 1) + if allocated[n - 1] { 1nat } else { 0nat } }
}

/// The bytes of the allocated frames among the first `n`, in frame order.
pub open spec fn allocated_data(frames: Seq<Seq<u8>>, allocated: Seq<bool>, n: int) -> Seq<u8>
    decreases n,
{
    if n <= 0 {
        Seq::empty()
    } else if allocated[n - 1] {
        allocated_data(frames, allocated, n - 1) + frames[n - 1]
    } else {
        allocated_data(frames, allocated, n - 1)
    }
}

/// Metadata written in front of a pool's frames.
#[derive(Clone, Copy)]
pub struct PoolMetadata {
    pub tier: u8,
    pub frame_count: u8,
    pub allocated_count: u8,
    /// Frame size in 4 KiB units.
    pub frame_size_4k: u8,
    pub base_addr: u64,
    /// Bit `i` set when frame `i` is allocated (first 64 frames).
    pub allocation_bitmap: u64,
    pub reserved: [u8; 8],
}

impl PoolMetadata {
    /// Bytes of the metadata record.
    pub const SIZE: usize = 32;

    /// The record's bytes: four byte fields, four zero bytes of alignment,
    /// then the two little-endian words and the reserved bytes.
    pub open spec fn layout(&self) -> Seq<u8> {
        seq![self.tier, self.frame_count, self.allocated_count, self.frame_size_4k, 0u8, 0u8, 0u8, 0u8]
            + le64(self.base_addr) + le64(self.allocation_bitmap) + self.reserved@
    }

    /// Metadata of a pool with `frame_count` frames at `base_address`, whose
    /// frame `i` is allocated when `allocated[i]`; only the first 64 frames
    /// enter the bitmap and the count.
    pub fn from_pool(frame_count: usize, allocated: &[bool], base_address: usize, tier: SecurityTier) -> (r: Self)
        requires allocated@.len() >= (if frame_count < 64 { frame_count } else { 64 }),
        ensures
            r.tier == tier_level(tier),
            r.frame_count == frame_count as u8,
            r.allocated_count == count_allocated(allocated@, if frame_count < 64 { frame_count as int } else { 64 }),
            r.frame_size_4k == 1,
            r.base_addr == base_address as u64,
            r.allocation_bitmap == bitmap_of(allocated@, if frame_count < 64 { frame_count as int } else { 64 }),
            forall|i: int| 0 <= i < 8 ==> r.reserved@[i] == 0,
    {
        let n: usize = if frame_count < 64 { frame_count } else { 64 };
        let mut bitmap: u64 = 0;
        let mut count: u8 = 0;
        let mut i: usize = 0;
        while i < n
            invariant
                n <= 64, n <= allocated@.len(), i <= n,
                bitmap == bitmap_of(allocated@, i as int),
                count == count_allocated(allocated@, i as int), count <= i,
            decreases n - i,
        {
            if allocated[i] {
                bitmap = bitmap | (1u64 << (i as u64));
                count = count + 1;
            }
            i += 1;
        }
        PoolMetadata {
            tier: tier.as_u8(),
            frame_count: frame_count as u8,
            allocated_count: count,
            frame_size_4k: 1,
            base_addr: base_address as u64,
            allocation_bitmap: bitmap,
            reserved: [0u8; 8],
        }
    }

    /// The record's bytes.
    pub fn to_bytes(&self) -> (r: Vec<u8>)
        ensures r@ == self.layout(), r@.len() == Self::SIZE,
    {
        let mut v: Vec<u8> = Vec::new();
        v.push(self.tier);
        v.push(self.frame_count);
        v.push(self.allocated_count);
        v.push(self.frame_size_4k);
        v.push(0);
        v.push(0);
        v.push(0);
        v.push(0);
        proof {
            assert(v@ =~= seq![self.tier, self.frame_count, self.allocated_count, self.frame_size_4k, 0u8, 0u8, 0u8, 0u8]);
        }
        push_bytes(&mut v, u64_to_le(self.base_addr).as_slice());
        push_bytes(&mut v, u64_to_le(self.allocation_bitmap).as_slice());
        push_bytes(&mut v, self.reserved.as_slice());
        v
    }

    /// The record held in `b` at `off` (the alignment bytes are skipped).
    pub fn from_bytes(b: &[u8], off: usize) -> (r: Self)
        requires off + Self::SIZE <= b@.len(),
        ensures
            r.tier == b@[off as int], r.frame_count == b@[off + 1], r.allocated_count == b@[off + 2],
            r.frame_size_4k == b@[off + 3],
            r.base_addr == from_le64(b@.subrange(off + 8, off + 16)),
            r.allocation_bitmap == from_le64(b@.subrange(off + 16, off + 24)),
            r.reserved@ == b@.subrange(off + 24, off + 32),
    {
        let _n = b.len();
        let mut reserved = [0u8; 8];
        let mut i: usize = 0;
        while i < 8
            invariant off + 32 <= b@.len(), b@.len() == _n, i <= 8, reserved@.len() == 8,
                forall|j: int| 0 <= j < i ==> reserved@[j] == b@[off + 24 + j],
            decreases 8 - i,
        {
            reserved[i] = b[off + 24 + i];
            i += 1;
        }
        assert(reserved@ =~= b@.subrange(off + 24, off + 32));
        PoolMetadata {
            tier: b[off],
            frame_count: b[off + 1],
            allocated_count: b[off + 2],
            frame_size_4k: b[off + 3],
            base_addr: read_le64(b, off + 8),
            allocation_bitmap: read_le64(b, off + 16),
            reserved,
        }
    }
}

/// Writing metadata out and reading it back gives the same fields.
pub proof fn law_metadata_roundtrip(m: PoolMetadata, bytes: Seq<u8>)
    requires bytes == m.layout(),
    ensures
        bytes[0] == m.tier, bytes[1] == m.frame_count, bytes[2] == m.allocated_count,
        bytes[3] == m.frame_size_4k,
        from_le64(bytes.subrange(8, 16)) == m.base_addr,
        from_le64(bytes.subrange(16, 24)) == m.allocation_bitmap,
        bytes.subrange(24, 32) == m.reserved@,
{
    assert(bytes.subrange(8, 16) =~= le64(m.base_addr));
    assert(bytes.subrange(16, 24) =~= le64(m.allocation_bitmap));
    assert(bytes.subrange(24, 32) =~= m.reserved@);
    lemma_le64_roundtrip(m.base_addr);
    lemma_le64_roundtrip(m.allocation_bitmap);
}

/// Serializes pools into a fixed buffer.
pub struct PoolSerializer {
    buffer: Vec<u8>,
    pos: usize,
}

impl PoolSerializer {
    /// Serializer invariant: a buffer of `MAX_POOL_DATA_SIZE` bytes, the
    /// write position inside it.
    pub closed spec fn wf(&self) -> bool {
        self.buffer@.len() == MAX_POOL_DATA_SIZE && self.pos <= MAX_POOL_DATA_SIZE
    }

    /// The bytes written so far.
    pub closed spec fn written(&self) -> Seq<u8> {
        self.buffer@.subrange(0, self.pos as int)
    }

    /// An empty serializer.
    pub fn new() -> (r: Self)
        ensures r.wf(), r.written() == Seq::<u8>::empty(),
    {
        let mut buffer: Vec<u8> = Vec::new();
        let mut i: usize = 0;
        while i < MAX_POOL_DATA_SIZE
            invariant i <= MAX_POOL_DATA_SIZE, buffer@.len() == i,
            decreases MAX_POOL_DATA_SIZE - i,
        {
            buffer.push(0);
            i += 1;
        }
        let r = PoolSerializer { buffer, pos: 0 };
        assert(r.written() =~= Seq::<u8>::empty());
        r
    }

    /// Forget what was written.
    pub fn reset(&mut self)
        requires old(self).wf(),
        ensures final(self).wf(), final(self).written() == Seq::<u8>::empty(),
    {
        self.pos = 0;
        assert(self.written() =~= Seq::<u8>::empty());
    }

    /// Append `data`; fails (writing nothing) if it does not fit.
    fn write_bytes(&mut self, data: &[u8]) -> (r: Result<(), StorageError>)
        requires old(self).wf(),
        ensures
            final(self).wf(),
            r is Ok <==> old(self).written().len() + data@.len() <= MAX_POOL_DATA_SIZE,
            r is Ok ==> final(self).written() == old(self).written() + data@,
            r is Err ==> r == Err::<(), StorageError>(StorageError::BufferTooSmall) && final(self).written() == old(self).written(),
    {
        if data.len() > MAX_POOL_DATA_SIZE - self.pos {
            return Err(StorageError::BufferTooSmall);
        }
        let ghost w0 = self.written();
        let mut i: usize = 0;
        while i < data.len()
            invariant
                self.buffer@.len() == MAX_POOL_DATA_SIZE, self.pos + data@.len() <= MAX_POOL_DATA_SIZE,
                i <= data@.len(), w0 == self.buffer@.subrange(0, self.pos as int),
                forall|k: int| 0 <= k < i ==> #[trigger] self.buffer@[self.pos + k] == data@[k],
            decreases data@.len() - i,
        {
            let p = self.pos + i;
            self.buffer.set(p, data[i]);
            i += 1;
            proof {
                assert(w0 =~= self.buffer@.subrange(0, self.pos as int));
            }
        }
        let ghost p0 = self.pos;
        self.pos = self.pos + data.len();
        proof {
            assert forall|k: int| 0 <= k < self.pos implies #[trigger] self.written()[k] == (w0 + data@)[k] by {
                if k >= p0 {
                    assert(self.buffer@[p0 + (k - p0)] == data@[k - p0]);
                }
            }
            assert(self.written() =~= w0 + data@);
        }
        Ok(())
    }

    /// Serialize a pool: its metadata, then the data of each allocated frame
    /// (`frames[i]` holds frame `i`). Returns the bytes written, or
    /// `BufferTooSmall` when they exceed the buffer.
    pub fn serialize_pool(&mut self, frame_count: usize, allocated: &[bool], frames: &[&[u8]],
        base_address: usize, tier: SecurityTier) -> (r: Result<usize, StorageError>)
        requires
            old(self).wf(),
            allocated@.len() >= frame_count, frames@.len() >= frame_count,
        ensures
            final(self).wf(),
            ({
                let all = pool_meta_layout(frame_count, allocated@, base_address, tier) + allocated_data(frames@.map_values(|f: &[u8]| f@), allocated@, frame_count as int);
                &&& (r is Ok <==> all.len() <= MAX_POOL_DATA_SIZE)
                &&& (r matches Ok(n) ==> n == all.len() && final(self).written() == all)
                &&& (r is Err ==> r == Err::<usize, StorageError>(StorageError::BufferTooSmall))
            }),
    {
        self.reset();
        let metadata = PoolMetadata::from_pool(frame_count, allocated, base_address, tier);
        let mb = metadata.to_bytes();
        proof {
            assert(metadata.reserved@ =~= Seq::new(8, |i: int| 0u8));
            assert(metadata.layout() =~= pool_meta_layout(frame_count, allocated@, base_address, tier));
        }
        let ghost fs = frames@.map_values(|f: &[u8]| f@);
        match self.write_bytes(mb.as_slice()) {
            Ok(()) => {}
            Err(e) => { return Err(e); }
        }
        let mut i: usize = 0;
        while i < frame_count
            invariant
                self.wf(), i <= frame_count, allocated@.len() >= frame_count, frames@.len() >= frame_count,
                fs == frames@.map_values(|f: &[u8]| f@),
                self.written() == metadata.layout() + allocated_data(fs, allocated@, i as int),
            decreases frame_count - i,
        {
            if allocated[i] {
                let f = frames[i];
                match self.write_bytes(f) {
                    Ok(()) => {}
                    Err(e) => {
                        proof {
                            lemma_allocated_data_grows(fs, allocated@, i as int + 1, frame_count as int);
                            assert(fs[i as int] == f@);
                        }
                        return Err(e);
                    }
                }
                proof {
                    assert(fs[i as int] == f@);
                }
            }
            i += 1;
        }
        Ok(self.pos)
    }

    /// The bytes written so far.
    pub fn data(&self) -> (r: &[u8])
        requires self.wf(),
        ensures r@ == self.written(),
    {
        slice_subrange(self.buffer.as_slice(), 0, self.pos)
    }

    /// Number of bytes written.
    pub fn len(&self) -> (r: usize)
        requires self.wf(),
        ensures r == self.written().len(),
    {
        self.pos
    }
}

/// The metadata bytes that `serialize_pool` writes for a pool.
pub open spec fn pool_meta_layout(frame_count: usize, allocated: Seq<bool>, base_address: usize,
    tier: SecurityTier) -> Seq<u8> {
    let n = if frame_count < 64 { frame_count as int } else { 64 };
    seq![tier_level(tier) as u8, frame_count as u8, count_allocated(allocated, n) as u8, 1u8, 0u8, 0u8, 0u8, 0u8]
        + le64(base_address as u64) + le64(bitmap_of(allocated, n)) + Seq::new(8, |i: int| 0u8)
}

/// Data of a longer prefix extends that of a shorter one.
pub proof fn lemma_allocated_data_grows(frames: Seq<Seq<u8>>, allocated: Seq<bool>, a: int, b: int)
    requires 0 <= a <= b,
    ensures allocated_data(frames, allocated, a).len() <= allocated_data(frames, allocated, b).len(),
    decreases b - a,
{
    if a < b {
        lemma_allocated_data_grows(frames, allocated, a, b - 1);
    }
}

/// Reads a serialized pool back.
pub struct PoolDeserializer<'a> {
    data: &'a [u8],
    pos: usize,
}

impl<'a> PoolDeserializer<'a> {
    /// The bytes being read.
    pub closed spec fn input(&self) -> Seq<u8> {
        self.data@
    }

    /// The read position.
    pub closed spec fn position(&self) -> int {
        self.pos as int
    }

    /// Reading starts at the beginning of `data`.
    pub fn new(data: &'a [u8]) -> (r: Self)
        ensures r.input() == data@, r.position() == 0,
    {
        PoolDeserializer { data, pos: 0 }
    }

    /// Read a metadata record; `BufferTooSmall` if fewer than 32 bytes remain.
    pub fn read_metadata(&mut self) -> (r: Result<PoolMetadata, StorageError>)
        requires old(self).position() <= old(self).input().len(),
        ensures
            final(self).input() == old(self).input(),
            r is Ok <==> old(self).position() + PoolMetadata::SIZE <= old(self).input().len(),
            r matches Ok(m) ==> m.tier == old(self).input()[old(self).position()]
                && m.frame_count == old(self).input()[old(self).position() + 1]
                && m.allocated_count == old(self).input()[old(self).position() + 2]
                && m.frame_size_4k == old(self).input()[old(self).position() + 3]
                && m.base_addr == from_le64(old(self).input().subrange(old(self).position() + 8, old(self).position() + 16))
                && m.allocation_bitmap == from_le64(old(self).input().subrange(old(self).position() + 16, old(self).position() + 24))
                && final(self).position() == old(self).position() + PoolMetadata::SIZE,
            r is Err ==> r == Err::<PoolMetadata, StorageError>(StorageError::BufferTooSmall)
                && final(self).position() == old(self).position(),
    {
        if PoolMetadata::SIZE > self.data.len() - self.pos {
            return Err(StorageError::BufferTooSmall);
        }
        let m = PoolMetadata::from_bytes(self.data, self.pos);
        self.pos = self.pos + PoolMetadata::SIZE;
        Ok(m)
    }

    /// Read the next `size` bytes; `BufferTooSmall` if fewer remain.
    pub fn read_frame(&mut self, size: usize) -> (r: Result<&'a [u8], StorageError>)
        requires old(self).position() <= old(self).input().len(),
        ensures
            final(self).input() == old(self).input(),
            r is Ok <==> old(self).position() + size <= old(self).input().len(),
            r matches Ok(f) ==> f@ == old(self).input().subrange(old(self).position(), old(self).position() + size)
                && final(self).position() == old(self).position() + size,
            r is Err ==> r == Err::<&[u8], StorageError>(StorageError::BufferTooSmall)
                && final(self).position() == old(self).position(),
    {
        if size > self.data.len() - self.pos {
            return Err(StorageError::BufferTooSmall);
        }
        let f = slice_subrange(self.data, self.pos, self.pos + size);
        self.pos = self.pos + size;
        Ok(f)
    }

    /// Bytes left to read.
    pub fn remaining(&self) -> (r: usize)
        requires self.position() <= self.input().len(),
        ensures r == self.input().len() - self.position(),
    {
        self.data.len() - self.pos
    }
}

/// The associated data of a pool's encryption: its tier level.
pub open spec fn pool_aad(tier: SecurityTier) -> Seq<u8> {
    seq![tier_level(tier) as u8]
}

/// Seal a serialized pool with the pool's key (`None` when the key
/// hierarchy is not set up): the output is the nonce, the tag, then the
/// ciphertext. Returns the bytes written.
pub fn encrypt_pool(tier: SecurityTier, plaintext: &[u8], nonce: &[u8; 12], key: Option<&[u8; 32]>,
    output: &mut [u8]) -> (r: Result<usize, StorageError>)
    requires aead_len_safe(plaintext@.len() as int),
    ensures
        final(output)@.len() == old(output)@.len(),
        key is None ==> r == Err::<usize, StorageError>(StorageError::KeyNotInitialized),
        key is Some && old(output)@.len() < EncryptedPoolHeader::SIZE + plaintext@.len()
            ==> r == Err::<usize, StorageError>(StorageError::BufferTooSmall),
        key is Some && old(output)@.len() >= EncryptedPoolHeader::SIZE + plaintext@.len()
            && plaintext@.len() / 64 >= 0xFFFF_FFFF ==> r == Err::<usize, StorageError>(StorageError::EncryptionFailed),
        r is Ok <==> key is Some && old(output)@.len() >= EncryptedPoolHeader::SIZE + plaintext@.len()
            && plaintext@.len() / 64 < 0xFFFF_FFFF,
        r matches Ok(n) ==> n == EncryptedPoolHeader::SIZE + plaintext@.len() && ({
            let sealed = chacha_seal(key->0@, nonce@, pool_aad(tier), plaintext@);
            let ct_len = plaintext@.len() as int;
            &&& final(output)@.subrange(0, 12) == nonce@
            &&& final(output)@.subrange(12, 28) == sealed.subrange(ct_len, ct_len + 16)
            &&& final(output)@.subrange(28, 28 + ct_len) == sealed.subrange(0, ct_len)
        }),
{
    let k = match key {
        Some(k) => k,
        None => { return Err(StorageError::KeyNotInitialized); }
    };
    if output.len() < EncryptedPoolHeader::SIZE || output.len() - EncryptedPoolHeader::SIZE < plaintext.len() {
        return Err(StorageError::BufferTooSmall);
    }
    let total = EncryptedPoolHeader::SIZE + plaintext.len();
    let aad = [tier.as_u8()];
    proof {
        assert(aad@ =~= pool_aad(tier));
    }
    let sealed = match seal(k, nonce, aad.as_slice(), plaintext) {
        Some(s) => s,
        None => { return Err(StorageError::EncryptionFailed); }
    };
    let n = plaintext.len();
    let ghost o0 = output@;
    crate::bytes::copy_into(output, 0, nonce.as_slice());
    crate::bytes::copy_into(output, 12, slice_subrange(sealed.as_slice(), n, n + TAG_SIZE));
    crate::bytes::copy_into(output, 28, slice_subrange(sealed.as_slice(), 0, n));
    proof {
        assert(output@.subrange(0, 12) =~= nonce@);
        assert(output@.subrange(12, 28) =~= sealed@.subrange(n as int, n + 16));
        assert(output@.subrange(28, 28 + n) =~= sealed@.subrange(0, n as int));
    }
    Ok(total)
}

/// Open a sealed pool (nonce, tag, ciphertext) with the pool's key into
/// `output`; returns the plaintext length.
pub fn decrypt_pool(tier: SecurityTier, encrypted: &[u8], key: Option<&[u8; 32]>, output: &mut [u8])
    -> (r: Result<usize, StorageError>)
    requires encrypted@.len() >= EncryptedPoolHeader::SIZE ==> aead_len_safe(encrypted@.len() - EncryptedPoolHeader::SIZE),
    ensures
        final(output)@.len() == old(output)@.len(),
        encrypted@.len() < EncryptedPoolHeader::SIZE ==> r == Err::<usize, StorageError>(StorageError::BufferTooSmall),
        encrypted@.len() >= EncryptedPoolHeader::SIZE && old(output)@.len() < encrypted@.len() - EncryptedPoolHeader::SIZE
            ==> r == Err::<usize, StorageError>(StorageError::BufferTooSmall),
        encrypted@.len() >= EncryptedPoolHeader::SIZE && old(output)@.len() >= encrypted@.len() - EncryptedPoolHeader::SIZE
            && key is None ==> r == Err::<usize, StorageError>(StorageError::KeyNotInitialized),
        r is Err ==> r == Err::<usize, StorageError>(StorageError::BufferTooSmall)
            || r == Err::<usize, StorageError>(StorageError::KeyNotInitialized)
            || r == Err::<usize, StorageError>(StorageError::AuthenticationFailed),
        r matches Ok(n) ==> key is Some && n == encrypted@.len() - EncryptedPoolHeader::SIZE
            && chacha_seal(key->0@, encrypted@.subrange(0, 12), pool_aad(tier), final(output)@.subrange(0, n as int))
                == encrypted@.subrange(28, encrypted@.len() as int) + encrypted@.subrange(12, 28),
        forall|p: Seq<u8>| key is Some && encrypted@.len() >= EncryptedPoolHeader::SIZE
            && old(output)@.len() >= encrypted@.len() - EncryptedPoolHeader::SIZE
            && p.len() / 64 < 0xFFFF_FFFF
            && #[trigger] chacha_seal(key->0@, encrypted@.subrange(0, 12), pool_aad(tier), p)
                == encrypted@.subrange(28, encrypted@.len() as int) + encrypted@.subrange(12, 28)
            ==> r is Ok && final(output)@.subrange(0, p.len() as int) == p,
{
    if encrypted.len() < EncryptedPoolHeader::SIZE {
        return Err(StorageError::BufferTooSmall);
    }
    let ct_len = encrypted.len() - EncryptedPoolHeader::SIZE;
    if output.len() < ct_len {
        return Err(StorageError::BufferTooSmall);
    }
    let k = match key {
        Some(k) => k,
        None => { return Err(StorageError::KeyNotInitialized); }
    };
    let nonce: [u8; 12] = crate::bytes::to_array::<12>(encrypted, 0);
    let mut sealed: Vec<u8> = Vec::new();
    push_bytes(&mut sealed, slice_subrange(encrypted, 28, encrypted.len()));
    push_bytes(&mut sealed, slice_subrange(encrypted, 12, 28));
    let aad = [tier.as_u8()];
    proof {
        assert(aad@ =~= pool_aad(tier));
    }
    let plain = match open(k, &nonce, aad.as_slice(), sealed.as_slice()) {
        Some(p) => p,
        None => { return Err(StorageError::AuthenticationFailed); }
    };
    crate::bytes::copy_into(output, 0, plain.as_slice());
    proof {
        assert(output@.subrange(0, ct_len as int) =~= plain@);
    }
    Ok(ct_len)
}

/// A pool sealed by `encrypt_pool` opens again with the same key to the same
/// plaintext: the output of `encrypt_pool` satisfies the condition under
/// which `decrypt_pool` returns exactly `plaintext`.
pub proof fn law_pool_roundtrip(key: Seq<u8>, nonce: Seq<u8>, tier: SecurityTier, plaintext: Seq<u8>,
    out: Seq<u8>)
    requires
        nonce.len() == 12,
        out.len() >= 28 + plaintext.len(),
        out.subrange(0, 12) == nonce,
        ({
            let sealed = chacha_seal(key, nonce, pool_aad(tier), plaintext);
            let n = plaintext.len() as int;
            &&& sealed.len() == n + 16
            &&& out.subrange(12, 28) == sealed.subrange(n, n + 16)
            &&& out.subrange(28, 28 + n) == sealed.subrange(0, n)
        }),
    ensures
        ({
            let enc = out.subrange(0, 28 + plaintext.len() as int);
            chacha_seal(key, enc.subrange(0, 12), pool_aad(tier), plaintext)
                == enc.subrange(28, enc.len() as int) + enc.subrange(12, 28)
        }),
{
    let enc = out.subrange(0, 28 + plaintext.len() as int);
    let sealed = chacha_seal(key, nonce, pool_aad(tier), plaintext);
    let n = plaintext.len() as int;
    assert(enc.subrange(0, 12) =~= nonce);
    assert(enc.subrange(28, enc.len() as int) =~= sealed.subrange(0, n));
    assert(enc.subrange(12, 28) =~= sealed.subrange(n, n + 16));
    assert(sealed =~= sealed.subrange(0, n) + sealed.subrange(n, n + 16));
}

/// The nonce of pool `tier` for `counter`: tier, version 1, two zero bytes,
/// then the counter little-endian.
pub fn generate_nonce(tier: SecurityTier, counter: u64) -> (r: [u8; 12])
    ensures r@ == seq![tier_level(tier) as u8, 1u8, 0u8, 0u8] + le64(counter),
{
    let c = u64_to_le(counter);
    let r = [tier.as_u8(), 1, 0, 0, c[0], c[1], c[2], c[3], c[4], c[5], c[6], c[7]];
    assert(r@ =~= seq![tier_level(tier) as u8, 1u8, 0u8, 0u8] + le64(counter));
    r
}

} // verus!
