//! A snapshot of kernel state on a block device: a header sector (magic,
//! version, length, byte-sum checksum) followed by the payload, zero-padded
//! to whole sectors.
use vstd::prelude::*;
use crate::block::{BlockDevice, DriverError};
use crate::bytes::{le32, le64, from_le32, from_le64, u32_to_le, u64_to_le, read_le32, read_le64, push_bytes};

verus! {

pub const SECTOR_SIZE: usize = 512;
/// "SemOS_NA" read as a little-endian number.
pub const SNAPSHOT_MAGIC: u64 = 0x5365_6D4F_535F_4E41;
/// Largest payload of a snapshot.
pub const MAX_SNAPSHOT_BYTES: usize = 1048576;
/// Sectors reserved for the payload.
pub const PAYLOAD_SECTORS: u64 = 2048;

/// Sum of the bytes of `s`, modulo 2^32.
pub open spec fn byte_sum(s: Seq<u8>) -> u32
    decreases s.len(),
{
    if s.len() == 0 { 0 } else { ((byte_sum(s.drop_last()) as int + s.last() as int) % 0x1_0000_0000) as u32 }
}

fn checksum(data: &[u8]) -> (r: u32)
    ensures r == byte_sum(data@),
{
    let mut sum: u32 = 0;
    let mut i: usize = 0;
    while i < data.len()
        invariant i <= data@.len(), sum == byte_sum(data@.subrange(0, i as int)),
        decreases data@.len() - i,
    {
        assert(data@.subrange(0, i as int + 1).drop_last() =~= data@.subrange(0, i as int));
        sum = sum.wrapping_add(data[i] as u32);
        i += 1;
    }
    assert(data@.subrange(0, data@.len() as int) =~= data@);
    sum
}

/// The header sector of a snapshot of `payload`.
pub open spec fn snapshot_header(payload: Seq<u8>) -> Seq<u8> {
    le64(SNAPSHOT_MAGIC) + le32(1) + le32(payload.len() as u32) + le32(byte_sum(payload)) + le32(0)
        + Seq::new(488, |i: int| 0u8)
}

/// What `save_snapshot` decides before writing, from the device's
/// read-only flag and block size and the payload length: `ReadOnly`, then
/// `InvalidParameter` for a payload over the limit, then `NotSupported`
/// for sectors that are not 512 bytes; `Ok` to go on.
pub open spec fn save_check_spec(read_only: bool, block_size: usize, len: usize) -> Result<(), DriverError> {
    if read_only {
        Err(DriverError::ReadOnly)
    } else if len > MAX_SNAPSHOT_BYTES {
        Err(DriverError::InvalidParameter)
    } else if block_size != SECTOR_SIZE {
        Err(DriverError::NotSupported)
    } else {
        Ok(())
    }
}

/// The checks `save_snapshot` makes before its first write.
pub fn snapshot_save_check(read_only: bool, block_size: usize, len: usize) -> (r: Result<(), DriverError>)
    ensures r == save_check_spec(read_only, block_size, len),
{
    if read_only {
        Err(DriverError::ReadOnly)
    } else if len > MAX_SNAPSHOT_BYTES {
        Err(DriverError::InvalidParameter)
    } else if block_size != SECTOR_SIZE {
        Err(DriverError::NotSupported)
    } else {
        Ok(())
    }
}

/// Sector `i` of the payload area (`i` from 0): the payload bytes it
/// covers, zero-padded to a whole sector.
pub open spec fn payload_sector(payload: Seq<u8>, i: int) -> Seq<u8> {
    let start = i * 512;
    let end = if start + 512 < payload.len() { start + 512 } else { payload.len() as int };
    payload.subrange(start, end) + Seq::new((512 - (end - start)) as nat, |k: int| 0u8)
}

/// The header sector of a snapshot of `payload`.
pub fn snapshot_header_sector(payload: &[u8]) -> (r: Vec<u8>)
    requires payload@.len() <= MAX_SNAPSHOT_BYTES,
    ensures r@ == snapshot_header(payload@),
{
    let n = payload.len();
    let sum = checksum(payload);
    let mut sec0: Vec<u8> = Vec::new();
    push_bytes(&mut sec0, u64_to_le(SNAPSHOT_MAGIC).as_slice());
    push_bytes(&mut sec0, u32_to_le(1u32).as_slice());
    push_bytes(&mut sec0, u32_to_le(n as u32).as_slice());
    push_bytes(&mut sec0, u32_to_le(sum).as_slice());
    push_bytes(&mut sec0, u32_to_le(0u32).as_slice());
    let zeros = [0u8; 488];
    push_bytes(&mut sec0, zeros.as_slice());
    assert(zeros@ =~= Seq::new(488, |i: int| 0u8));
    assert(sec0@ =~= snapshot_header(payload@));
    sec0
}

/// Payload sector `i` of a snapshot of `payload`.
pub fn snapshot_payload_sector(payload: &[u8], i: usize) -> (r: Vec<u8>)
    requires payload@.len() <= MAX_SNAPSHOT_BYTES, i * 512 < payload@.len(),
    ensures r@ == payload_sector(payload@, i as int), r@.len() == SECTOR_SIZE,
{
    let n = payload.len();
    let start = i * SECTOR_SIZE;
    let end = if start + SECTOR_SIZE < n { start + SECTOR_SIZE } else { n };
    let mut sec: Vec<u8> = Vec::new();
    let chunk = vstd::slice::slice_subrange(payload, start, end);
    push_bytes(&mut sec, chunk);
    let used = end - start;
    while sec.len() < SECTOR_SIZE
        invariant
            sec@.len() <= SECTOR_SIZE, used <= SECTOR_SIZE,
            sec@.len() >= used,
            sec@.subrange(0, used as int) == chunk@,
            chunk@.len() == used,
            forall|k: int| used <= k < sec@.len() ==> sec@[k] == 0u8,
        decreases SECTOR_SIZE - sec@.len(),
    {
        let ghost before = sec@;
        sec.push(0u8);
        assert(sec@.subrange(0, used as int) =~= before.subrange(0, used as int));
    }
    assert(sec@ =~= payload_sector(payload@, i as int)) by {
        assert forall|k: int| 0 <= k < 512 implies sec@[k] == payload_sector(payload@, i as int)[k] by {
            if k < used {
                assert(sec@.subrange(0, used as int)[k] == sec@[k]);
            }
        }
    }
    sec
}

/// Write `payload` as a snapshot from sector 0: the header, then the
/// payload in zero-padded sectors, then a flush. Before any write the
/// device's flags and the payload go through `snapshot_save_check`.
pub fn save_snapshot<D: BlockDevice>(dev: &D, payload: &[u8]) -> (r: Result<(), DriverError>)
    ensures
        payload@.len() > MAX_SNAPSHOT_BYTES ==> (r == Err::<(), DriverError>(DriverError::ReadOnly)
            || r == Err::<(), DriverError>(DriverError::InvalidParameter)),
{
    let n = payload.len();
    let read_only = dev.is_read_only();
    let block_size = dev.block_size();
    match snapshot_save_check(read_only, block_size, n) {
        Ok(()) => {}
        Err(e) => return Err(e),
    }
    let sec0 = snapshot_header_sector(payload);
    match dev.write_blocks(0, sec0.as_slice()) {
        Ok(()) => {}
        Err(e) => return Err(e),
    }
    let total: usize = (n + SECTOR_SIZE - 1) / SECTOR_SIZE;
    if total as u64 > PAYLOAD_SECTORS {
        return Err(DriverError::OutOfBounds);
    }
    let mut i: usize = 0;
    while i < total
        invariant i <= total, total == (n + 511) / 512, n == payload@.len(), n <= MAX_SNAPSHOT_BYTES,
        decreases total - i,
    {
        assert(i * 512 < n) by (nonlinear_arith)
            requires i < total, total == (n + 511) / 512;
        let sec = snapshot_payload_sector(payload, i);
        match dev.write_blocks(1 + i as u64, sec.as_slice()) {
            Ok(()) => {}
            Err(e) => return Err(e),
        }
        i += 1;
    }
    dev.flush()
}

/// What a header sector `h` tells `load_snapshot` for a buffer of
/// `out_len` bytes: `NotReady` without the magic, `BufferTooSmall` if the
/// recorded length is over the limit or the buffer, else the length and
/// the recorded checksum.
pub open spec fn header_parse_spec(h: Seq<u8>, out_len: usize) -> Result<(usize, u32), DriverError> {
    let len = from_le32(h.subrange(12, 16));
    if from_le64(h.subrange(0, 8)) != SNAPSHOT_MAGIC {
        Err(DriverError::NotReady)
    } else if len > MAX_SNAPSHOT_BYTES || len > out_len {
        Err(DriverError::BufferTooSmall)
    } else {
        Ok((len as usize, from_le32(h.subrange(16, 20))))
    }
}

/// Read the header sector of a snapshot.
pub fn parse_snapshot_header(h: &[u8], out_len: usize) -> (r: Result<(usize, u32), DriverError>)
    requires h@.len() == SECTOR_SIZE,
    ensures r == header_parse_spec(h@, out_len),
{
    if read_le64(h, 0) != SNAPSHOT_MAGIC {
        return Err(DriverError::NotReady);
    }
    let len = read_le32(h, 12);
    if len as usize > MAX_SNAPSHOT_BYTES || len as usize > out_len {
        return Err(DriverError::BufferTooSmall);
    }
    Ok((len as usize, read_le32(h, 16)))
}

/// The last step of `load_snapshot`: `Ok(len)` if the first `len` bytes
/// of `out` sum to `stored`, else `IoError`.
pub fn check_snapshot_payload(out: &[u8], len: usize, stored: u32) -> (r: Result<usize, DriverError>)
    requires len <= out@.len(),
    ensures
        r == if byte_sum(out@.subrange(0, len as int)) == stored {
            Ok::<usize, DriverError>(len)
        } else {
            Err(DriverError::IoError)
        },
{
    let sum = checksum(vstd::slice::slice_subrange(out, 0, len));
    if sum != stored {
        return Err(DriverError::IoError);
    }
    Ok(len)
}

/// Read a snapshot into `out`; its length. `NotSupported` unless sectors
/// are 512 bytes, then what `parse_snapshot_header` makes of sector 0,
/// then what `check_snapshot_payload` makes of the payload read into `out`.
pub fn load_snapshot<D: BlockDevice>(dev: &D, out: &mut [u8]) -> (r: Result<usize, DriverError>)
    ensures
        final(out)@.len() == old(out)@.len(),
        r matches Ok(n) ==> n <= MAX_SNAPSHOT_BYTES && n <= old(out)@.len(),
        r matches Ok(n) ==> final(out)@.subrange(n as int, final(out)@.len() as int)
            == old(out)@.subrange(n as int, old(out)@.len() as int),
{
    if dev.block_size() != SECTOR_SIZE {
        return Err(DriverError::NotSupported);
    }
    let mut sec0: Vec<u8> = vec![0u8; SECTOR_SIZE];
    match dev.read_blocks(0, sec0.as_mut_slice()) {
        Ok(()) => {}
        Err(e) => return Err(e),
    }
    let olen = out.len();
    let (len, stored) = match parse_snapshot_header(sec0.as_slice(), olen) {
        Ok(p) => p,
        Err(e) => return Err(e),
    };
    let sectors: usize = (len + SECTOR_SIZE - 1) / SECTOR_SIZE;
    let mut sec: Vec<u8> = vec![0u8; SECTOR_SIZE];
    let mut i: usize = 0;
    while i < sectors
        invariant i <= sectors, sectors == (len + 511) / 512, len <= olen, len <= MAX_SNAPSHOT_BYTES,
            out@.len() == olen, olen == old(out)@.len(), sec@.len() == SECTOR_SIZE,
            out@.subrange(len as int, olen as int) == old(out)@.subrange(len as int, olen as int),
        decreases sectors - i,
    {
        match dev.read_blocks(1 + i as u64, sec.as_mut_slice()) {
            Ok(()) => {}
            Err(e) => return Err(e),
        }
        let start = i * SECTOR_SIZE;
        let end = if start + SECTOR_SIZE < len { start + SECTOR_SIZE } else { len };
        assert(start < len) by (nonlinear_arith)
            requires start == i * 512, i < sectors, sectors == (len + 511) / 512;
        let ghost before = out@;
        crate::bytes::copy_into(out, start, vstd::slice::slice_subrange(sec.as_slice(), 0, end - start));
        assert(out@.subrange(len as int, olen as int) =~= before.subrange(len as int, olen as int));
        i += 1;
    }
    check_snapshot_payload(out, len, stored)
}

} // verus!
