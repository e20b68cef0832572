//! The block-device interface that storage drivers implement.
use vstd::prelude::*;

verus! {

/// Why a device operation failed.
#[derive(Debug, Clone, Copy, PartialEq, Eq, Structural)]
pub enum DriverError {
    IoError,
    NotReady,
    ReadOnly,
    InvalidParameter,
    NotSupported,
    OutOfBounds,
    BufferTooSmall,
    Timeout,
}

/// A sector-addressed block device. Transfers are whole sectors starting
/// at `lba`; the buffer length is a multiple of the block size.
pub trait BlockDevice {
    fn read_blocks(&self, lba: u64, buf: &mut [u8]) -> (r: Result<(), DriverError>)
        ensures final(buf)@.len() == old(buf)@.len();

    fn write_blocks(&self, lba: u64, buf: &[u8]) -> (r: Result<(), DriverError>);

    /// Bytes per block.
    fn block_size(&self) -> usize;

    /// Whether writes are refused.
    fn is_read_only(&self) -> bool;

    /// Push buffered writes to the medium.
    fn flush(&self) -> (r: Result<(), DriverError>);
}

/// One operation the library handed to a block device, with what came of it.
pub ghost enum DevOp {
    /// A read from `lba`: the bytes it filled when it succeeded.
    Read { lba: u64, data: Option<Seq<u8>> },
    /// A write of `data` at `lba`, and whether it succeeded.
    Write { lba: u64, data: Seq<u8>, ok: bool },
}

/// Whether `op` is a read at `lba`.
pub open spec fn is_read_at(op: DevOp, lba: u64) -> bool {
    op matches DevOp::Read { lba: l, .. } && l == lba
}

/// The bytes a read `op` returned, if it succeeded.
pub open spec fn read_data(op: DevOp) -> Option<Seq<u8>> {
    match op {
        DevOp::Read { data, .. } => data,
        _ => None,
    }
}

/// Whether `op` is a write of `data` at `lba` that came out as `ok`.
pub open spec fn is_write(op: DevOp, lba: u64, data: Seq<u8>, ok: bool) -> bool {
    op == DevOp::Write { lba, data, ok }
}

/// Whether `op` is a write of `data` at `lba`, whatever came of it.
pub open spec fn writes(op: DevOp, lba: u64, data: Seq<u8>) -> bool {
    op matches DevOp::Write { lba: l, data: d, .. } && l == lba && d == data
}

/// Read from `dev` at `lba` into `buf`, recording the read in `log`.
pub fn traced_read<D: BlockDevice>(dev: &D, log: &mut Ghost<Seq<DevOp>>, lba: u64, buf: &mut [u8])
    -> (r: Result<(), DriverError>)
    ensures
        final(buf)@.len() == old(buf)@.len(),
        final(log)@ == old(log)@.push(DevOp::Read { lba, data: if r is Ok { Some(final(buf)@) } else { None } }),
{
    let r = dev.read_blocks(lba, buf);
    *log = Ghost(log@.push(DevOp::Read { lba, data: if r is Ok { Some(buf@) } else { None } }));
    r
}

/// Write `buf` to `dev` at `lba`, recording the write in `log`.
pub fn traced_write<D: BlockDevice>(dev: &D, log: &mut Ghost<Seq<DevOp>>, lba: u64, buf: &[u8])
    -> (r: Result<(), DriverError>)
    ensures final(log)@ == old(log)@.push(DevOp::Write { lba, data: buf@, ok: (r is Ok) }),
{
    let r = dev.write_blocks(lba, buf);
    *log = Ghost(log@.push(DevOp::Write { lba, data: buf@, ok: r is Ok }));
    r
}

} // verus!
