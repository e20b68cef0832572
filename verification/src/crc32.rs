//! IEEE CRC-32 (reflected, polynomial 0xEDB88320, initial value and final
//! complement 0xFFFFFFFF).
use vstd::prelude::*;

verus! {

/// One bit step of the reflected CRC register.
pub open spec fn crc_bit(c: u32) -> u32 {
    if c & 1 != 0 { (c >> 1u32) ^ 0xEDB8_8320u32 } else { c >> 1u32 }
}

/// `k` bit steps.
pub open spec fn crc_bits(c: u32, k: nat) -> u32
    decreases k,
{
    if k == 0 { c } else { crc_bit(crc_bits(c, (k - 1) as nat)) }
}

/// The register after feeding one byte.
pub open spec fn crc_update(c: u32, b: u8) -> u32 {
    crc_bits(c ^ (b as u32), 8)
}

/// The register after feeding all of `s`, starting from `c`.
pub open spec fn crc_fold(c: u32, s: Seq<u8>) -> u32
    decreases s.len(),
{
    if s.len() == 0 { c } else { crc_update(crc_fold(c, s.drop_last()), s.last()) }
}

/// CRC-32 of `s`.
pub open spec fn crc32_spec(s: Seq<u8>) -> u32 {
    !crc_fold(0xFFFF_FFFFu32, s)
}

/// Feeding two pieces one after the other is feeding their concatenation.
pub proof fn lemma_crc_fold_concat(c: u32, a: Seq<u8>, b: Seq<u8>)
    ensures crc_fold(crc_fold(c, a), b) == crc_fold(c, a + b),
    decreases b.len(),
{
    if b.len() > 0 {
        lemma_crc_fold_concat(c, a, b.drop_last());
        assert((a + b).drop_last() =~= a + b.drop_last());
        assert((a + b).last() == b.last());
    }
}

/// Feed `data` into the register `state`.
pub fn crc32_continue(state: u32, data: &[u8]) -> (r: u32)
    ensures r == crc_fold(state, data@),
{
    let mut crc = state;
    let mut i: usize = 0;
    while i < data.len()
        invariant i <= data@.len(), crc == crc_fold(state, data@.subrange(0, i as int)),
        decreases data@.len() - i,
    {
        let ghost c0 = crc;
        crc = crc ^ (data[i] as u32);
        let mut k: u32 = 0;
        while k < 8
            invariant k <= 8, crc == crc_bits(c0 ^ (data@[i as int] as u32), k as nat),
            decreases 8 - k,
        {
            if crc & 1 != 0 {
                crc = (crc >> 1) ^ 0xEDB8_8320;
            } else {
                crc = crc >> 1;
            }
            k += 1;
        }
        proof {
            assert(data@.subrange(0, i as int + 1).drop_last() =~= data@.subrange(0, i as int));
        }
        i += 1;
    }
    assert(data@.subrange(0, data@.len() as int) =~= data@);
    crc
}

/// CRC-32 of `data`.
pub fn crc32(data: &[u8]) -> (r: u32)
    ensures r == crc32_spec(data@),
{
    !crc32_continue(0xFFFF_FFFF, data)
}

} // verus!
