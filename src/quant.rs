//! Time quantities on an integer tick grid.
//!
//! A `Time` counts ticks of a fixed resolution chosen by the caller. The two
//! extreme values stand for the infinities: arithmetic saturates at them, so a
//! sum that leaves the representable range becomes infinite instead of wrapping.
use vstd::prelude::*;

verus! {

/// A point in time or a duration, in ticks.
pub type Time = i64;

/// The additive identity.
pub const TIME_ZERO: Time = 0;

/// Positive infinity, used as "unbounded" for a maximum duration.
pub const TIME_INFINITY: Time = 9223372036854775807;

/// Negative infinity.
pub const TIME_NEG_INFINITY: Time = -9223372036854775807;

/// The value of `x` once it is saturated into the time range.
pub open spec fn sat(x: int) -> int {
    if x >= TIME_INFINITY {
        TIME_INFINITY as int
    } else if x <= TIME_NEG_INFINITY {
        TIME_NEG_INFINITY as int
    } else {
        x
    }
}

/// Whether `t` is a finite time.
pub open spec fn is_finite(t: int) -> bool {
    TIME_NEG_INFINITY < t < TIME_INFINITY
}

pub open spec fn max_time(a: int, b: int) -> int {
    if a >= b { a } else { b }
}

pub open spec fn min_time(a: int, b: int) -> int {
    if a <= b { a } else { b }
}

/// `duration` limited to `max` from above and then to `min` from below.
pub open spec fn clamp_spec(duration: int, min: int, max: int) -> int {
    max_time(min_time(duration, max), min)
}

/// Whether `t` is a finite time.
pub fn time_is_finite(t: Time) -> (r: bool)
    ensures
        r == is_finite(t as int),
{
    TIME_NEG_INFINITY < t && t < TIME_INFINITY
}

/// Saturating sum of two times.
pub fn add_time(a: Time, b: Time) -> (r: Time)
    ensures
        r == sat(a + b),
{
    let s: i128 = a as i128 + b as i128;
    if s >= TIME_INFINITY as i128 {
        TIME_INFINITY
    } else if s <= TIME_NEG_INFINITY as i128 {
        TIME_NEG_INFINITY
    } else {
        s as i64
    }
}

/// Saturating difference of two times.
pub fn sub_time(a: Time, b: Time) -> (r: Time)
    ensures
        r == sat(a - b),
{
    let s: i128 = a as i128 - b as i128;
    if s >= TIME_INFINITY as i128 {
        TIME_INFINITY
    } else if s <= TIME_NEG_INFINITY as i128 {
        TIME_NEG_INFINITY
    } else {
        s as i64
    }
}

/// The larger of two times.
pub fn max_of(a: Time, b: Time) -> (r: Time)
    ensures
        r == max_time(a as int, b as int),
{
    if a >= b { a } else { b }
}

/// The smaller of two times.
pub fn min_of(a: Time, b: Time) -> (r: Time)
    ensures
        r == min_time(a as int, b as int),
{
    if a <= b { a } else { b }
}

/// Limits `duration` to `max_duration` from above, then to `min_duration` from below.
pub fn clamp_duration(duration: Time, min_duration: Time, max_duration: Time) -> (r: Time)
    ensures
        r == clamp_spec(duration as int, min_duration as int, max_duration as int),
{
    max_of(min_of(duration, max_duration), min_duration)
}

} // verus!
