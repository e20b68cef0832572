//! Monotonic milliseconds for the network stack, from the platform tick count.
use vstd::prelude::*;

verus! {

/// Milliseconds per platform tick (the timer runs at about 100 Hz).
pub const TICK_MS: i64 = 10;

/// `v` clamped to the `i64` range.
pub open spec fn clamp_i64(v: int) -> i64 {
    if v > i64::MAX { i64::MAX } else if v < i64::MIN { i64::MIN } else { v as i64 }
}

/// The tick count as milliseconds: the ticks taken as an `i64` (two's
/// complement, as a cast gives) times `TICK_MS`, saturating at the `i64` range.
pub fn ticks_to_millis(ticks: u64) -> (r: i64)
    ensures r == clamp_i64((ticks as i64) * TICK_MS),
{
    let t = ticks as i64;
    match t.checked_mul(TICK_MS) {
        Some(v) => v,
        None => if t < 0 { i64::MIN } else { i64::MAX },
    }
}

} // verus!
