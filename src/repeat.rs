//! A child repeated a number of times with even spacing.
use vstd::prelude::*;

use crate::quant::{is_finite, sat, time_is_finite, Time, TIME_INFINITY, TIME_NEG_INFINITY};
use crate::schedule::{ChannelId, ElementRef, ScheduleError};

verus! {

/// `count` copies of `child`, `spacing` apart.
#[derive(Debug, Clone)]
pub struct Repeat {
    pub child: ElementRef,
    pub count: u32,
    pub spacing: Time,
    pub channel_ids: Vec<ChannelId>,
}

impl Repeat {
    /// `count` copies of `child`; fails with `InvalidQuantity` when `spacing`
    /// is not finite. The repeat uses the channels of its child.
    pub fn new(child: ElementRef, count: u32, spacing: Time) -> (r: Result<Repeat, ScheduleError>)
        ensures
            r is Ok <==> is_finite(spacing as int),
            r matches Ok(rep) ==> rep.child == child && rep.count == count && rep.spacing == spacing
                && rep.channel_ids@ == crate::schedule::channel_seq(*child),
            r matches Err(e) ==> e == ScheduleError::InvalidQuantity,
    {
        if !time_is_finite(spacing) {
            return Err(ScheduleError::InvalidQuantity);
        }
        let ids = child.channels();
        let mut channel_ids: Vec<ChannelId> = Vec::new();
        let mut i: usize = 0;
        while i < ids.len()
            invariant
                i <= ids@.len(),
                channel_ids@ == ids@.subrange(0, i as int),
            decreases ids@.len() - i,
        {
            channel_ids.push(ids[i]);
            proof {
                assert(ids@.subrange(0, i + 1) == ids@.subrange(0, i as int).push(ids@[i as int]));
            }
            i += 1;
        }
        proof {
            assert(ids@.subrange(0, ids@.len() as int) == ids@);
        }
        Ok(Repeat { child, count, spacing, channel_ids })
    }
}

/// The measured inner duration of `count` copies of duration `d`, `spacing`
/// apart: zero without copies.
pub open spec fn repeat_total(count: u32, d: Time, spacing: Time) -> Time {
    if count == 0 {
        0
    } else {
        sat(count * d + (count - 1) * spacing) as Time
    }
}

/// The spacing of the copies within an inner block of length `inner`: any
/// excess over the measured length is shared evenly among the gaps.
pub open spec fn repeat_spacing(count: u32, d: Time, spacing: Time, inner: Time) -> Time {
    let excess = inner - repeat_total(count, d, spacing);
    if count >= 2 && excess > 0 {
        sat(spacing + excess / (count - 1)) as Time
    } else {
        spacing
    }
}

/// The start of copy `i`.
pub open spec fn repeat_place(count: u32, d: Time, spacing: Time, inner: Time, i: int) -> Time {
    sat(i * (d + repeat_spacing(count, d, spacing, inner))) as Time
}

fn saturate(x: i128) -> (r: Time)
    ensures
        r == sat(x as int),
{
    if x >= TIME_INFINITY as i128 {
        TIME_INFINITY
    } else if x <= TIME_NEG_INFINITY as i128 {
        TIME_NEG_INFINITY
    } else {
        x as Time
    }
}

proof fn lemma_small_product(a: int, b: int)
    requires
        0 <= a <= 0x1_0000_0000,
        -0x4_0000_0000_0000_0000 <= b <= 0x4_0000_0000_0000_0000,
    ensures
        -0x4_0000_0000_0000_0000_0000_0000 <= a * b <= 0x4_0000_0000_0000_0000_0000_0000,
{
    assert(-0x4_0000_0000_0000_0000_0000_0000 <= a * b <= 0x4_0000_0000_0000_0000_0000_0000) by (nonlinear_arith)
        requires
            0 <= a <= 0x1_0000_0000,
            -0x4_0000_0000_0000_0000 <= b <= 0x4_0000_0000_0000_0000;
}

/// The measured inner duration of `count` copies of duration `d`.
pub fn repeat_inner(count: u32, d: Time, spacing: Time) -> (r: Time)
    ensures
        r == repeat_total(count, d, spacing),
{
    if count == 0 {
        return 0;
    }
    proof {
        lemma_small_product(count as int, d as int);
        lemma_small_product((count - 1) as int, spacing as int);
    }
    let total: i128 = count as i128 * d as i128 + (count - 1) as i128 * spacing as i128;
    saturate(total)
}

/// The spacing of the copies within an inner block of length `inner`.
pub fn stretched_spacing(count: u32, d: Time, spacing: Time, inner: Time) -> (r: Time)
    ensures
        r == repeat_spacing(count, d, spacing, inner),
{
    let total = repeat_inner(count, d, spacing);
    let excess: i128 = inner as i128 - total as i128;
    if count >= 2 && excess > 0 {
        let share = (excess as u128 / (count - 1) as u128) as i128;
        saturate(spacing as i128 + share)
    } else {
        spacing
    }
}

/// The start of copy `i` within an inner block of length `inner`.
pub fn copy_place(count: u32, d: Time, spacing: Time, inner: Time, i: u32) -> (r: Time)
    ensures
        r == repeat_place(count, d, spacing, inner, i as int),
{
    let step: i128 = d as i128 + stretched_spacing(count, d, spacing, inner) as i128;
    proof {
        lemma_small_product(i as int, step as int);
    }
    saturate(i as i128 * step)
}

} // verus!
