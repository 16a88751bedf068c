//! Arithmetic that the modules share: signs, rounding towards zero, and
//! time that has passed.

use vstd::prelude::*;

verus! {

/// The absolute value of a number.
pub open spec fn abs(x: int) -> int {
    if x >= 0 {
        x
    } else {
        -x
    }
}

/// How long ago `then` was at time `now`, in milliseconds; 0 where `then` is
/// not in the past.
pub open spec fn elapsed(now: u64, then: u64) -> int {
    if now >= then {
        now - then
    } else {
        0
    }
}

/// Quotient of `a` by `b` rounded towards zero.
pub open spec fn div_trunc(a: int, b: int) -> int {
    if a >= 0 {
        a / b
    } else {
        -((-a) / b)
    }
}

/// Remainder of `a` by `b` with the sign of `a`.
pub open spec fn rem_trunc(a: int, b: int) -> int {
    if a >= 0 {
        a % b
    } else {
        -((-a) % b)
    }
}

/// The time from `then` to `now`, 0 where `then` is not in the past.
pub fn elapsed_ms(now: u64, then: u64) -> (ms: u64)
    ensures
        ms == elapsed(now, then),
{
    if now >= then {
        now - then
    } else {
        0
    }
}

} // verus!
