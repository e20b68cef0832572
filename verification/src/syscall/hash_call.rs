//! SYS_HASH: the SHA-256 digest of a user buffer.
use vstd::prelude::*;
use crate::sha256::sha256_digest;

verus! {

/// Most bytes SYS_HASH digests.
pub const MAX_HASH_INPUT: usize = 65536;

/// SYS_HASH with the data bytes: their SHA-256 digest for 1 to
/// `MAX_HASH_INPUT` bytes; `None` (`SYS_ERR`) otherwise.
pub fn sys_hash(data: &[u8]) -> (r: Option<[u8; 32]>)
    ensures
        r is Some <==> 0 < data@.len() <= MAX_HASH_INPUT,
        r matches Some(d) ==> d@ == sha256_digest(data@),
{
    let n = data.len();
    if n == 0 || n > MAX_HASH_INPUT {
        return None;
    }
    Some(crate::sha256::hash(data))
}

} // verus!
