//! Moments and the time between them.

use vstd::prelude::*;

verus! {

/// The time from `then` to `now`, as far as 64 bits can hold it.
pub open spec fn elapsed(now: i64, then: i64) -> int {
    if now - then > i64::MAX {
        i64::MAX as int
    } else if now - then < i64::MIN {
        i64::MIN as int
    } else {
        now - then
    }
}

/// `i64::saturating_sub`: the time from `then` to `now`.
pub fn since(now: i64, then: i64) -> (r: i64)
    ensures
        r == elapsed(now, then),
{
    let d: i128 = now as i128 - then as i128;
    if d > i64::MAX as i128 {
        i64::MAX
    } else if d < i64::MIN as i128 {
        i64::MIN
    } else {
        d as i64
    }
}

} // verus!
