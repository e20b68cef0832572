//! How a log buffer is split into UDP datagrams.
use vstd::prelude::*;

verus! {

/// Largest datagram payload: under the Ethernet payload (1500 − 20 IP − 8 UDP)
/// so that a datagram never fragments.
pub const MTU: usize = 1400;

/// Source port of log datagrams.
pub const LOCAL_PORT: u16 = 49154;

/// The `[start, end)` byte ranges of the datagrams for a buffer of `len`
/// bytes: consecutive `MTU`-sized pieces, the last one possibly shorter.
pub open spec fn datagram_range(len: int, k: int) -> (int, int) {
    let start = k * MTU;
    let end = if start + MTU <= len { start + MTU } else { len };
    (start, end)
}

/// Number of datagrams needed for `len` bytes.
pub open spec fn datagram_count(len: int) -> int {
    (len + MTU - 1) / (MTU as int)
}

/// Split `len` bytes into the datagram ranges that are sent in order.
pub fn datagram_ranges(len: usize) -> (r: Vec<(usize, usize)>)
    ensures
        r@.len() == datagram_count(len as int),
        forall|k: int| 0 <= k < r@.len() ==> {
            let (s, e) = #[trigger] r@[k];
            (s as int, e as int) == datagram_range(len as int, k)
        },
{
    let mut out: Vec<(usize, usize)> = Vec::new();
    let mut off: usize = 0;
    while off < len
        invariant
            off <= len,
            off == (if out@.len() * MTU < len { out@.len() * MTU } else { len as int }),
            forall|k: int| 0 <= k < out@.len() ==> {
                let (s, e) = #[trigger] out@[k];
                (s as int, e as int) == datagram_range(len as int, k)
            },
            off < len ==> out@.len() < datagram_count(len as int),
            off >= len ==> out@.len() == datagram_count(len as int),
        decreases len - off,
    {
        let end = if len - off > MTU { off + MTU } else { len };
        proof {
            let k = out@.len() as int;
            assert(off == k * MTU);
            assert(k * MTU + MTU == (k + 1) * MTU) by (nonlinear_arith);
            if len - off > MTU {
                assert((len + MTU - 1) / (MTU as int) >= k + 2) by (nonlinear_arith)
                    requires len > (k + 1) * 1400, MTU == 1400;
            } else {
                assert((len + MTU - 1) / (MTU as int) == k + 1) by (nonlinear_arith)
                    requires len <= (k + 1) * 1400, len > k * 1400, MTU == 1400;
            }
        }
        out.push((off, end));
        off = end;
    }
    out
}

} // verus!
