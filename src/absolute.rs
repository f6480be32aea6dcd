//! Children placed at explicit offsets.
use vstd::prelude::*;

use crate::quant::{add_time, is_finite, sat, time_is_finite, Time, TIME_ZERO};
use crate::schedule::{ChannelId, ElementRef, MeasuredElement, ScheduleError};
use crate::stack::{merge_channel_ids, union_channels};

verus! {

/// A child of an [`Absolute`] container and its offset.
#[derive(Debug, Clone)]
pub struct AbsoluteEntry {
    pub time: Time,
    pub element: ElementRef,
}

/// A container that places each child at the offset of its entry.
#[derive(Debug, Clone)]
pub struct Absolute {
    pub children: Vec<AbsoluteEntry>,
    pub channel_ids: Vec<ChannelId>,
}

impl AbsoluteEntry {
    /// `element` at offset zero.
    pub fn new(element: ElementRef) -> (r: AbsoluteEntry)
        ensures
            r.time == 0,
            r.element == element,
    {
        AbsoluteEntry { time: TIME_ZERO, element }
    }

    /// The entry at offset `time`; fails with `InvalidAbsoluteTime` when
    /// `time` is not finite.
    pub fn with_time(self, time: Time) -> (r: Result<AbsoluteEntry, ScheduleError>)
        ensures
            r is Ok <==> is_finite(time as int),
            r matches Ok(e) ==> e.time == time && e.element == self.element,
            r matches Err(e) ==> e == ScheduleError::InvalidAbsoluteTime,
    {
        if !time_is_finite(time) {
            return Err(ScheduleError::InvalidAbsoluteTime);
        }
        Ok(AbsoluteEntry { time, element: self.element })
    }
}

/// The elements of `entries`.
pub open spec fn entry_elements(entries: Seq<AbsoluteEntry>) -> Seq<ElementRef> {
    entries.map_values(|e: AbsoluteEntry| e.element)
}

impl Absolute {
    /// A container without children.
    pub fn new() -> (r: Absolute)
        ensures
            r.children@.len() == 0,
            r.channel_ids@.len() == 0,
    {
        Absolute { children: Vec::new(), channel_ids: Vec::new() }
    }

    /// The container with `children`; its channels become every channel they use.
    pub fn with_children(self, children: Vec<AbsoluteEntry>) -> (r: Absolute)
        ensures
            r.children@ == children@,
            r.channel_ids@.to_set() == union_channels(entry_elements(children@)),
            r.channel_ids@.no_duplicates(),
    {
        let mut elements: Vec<ElementRef> = Vec::new();
        let mut i: usize = 0;
        while i < children.len()
            invariant
                i <= children@.len(),
                elements@ == entry_elements(children@.subrange(0, i as int)),
            decreases children@.len() - i,
        {
            elements.push(children[i].element.clone());
            proof {
                assert(entry_elements(children@.subrange(0, i + 1)) =~= entry_elements(children@.subrange(0, i as int)).push(children@[i as int].element));
            }
            i += 1;
        }
        proof {
            assert(children@.subrange(0, children@.len() as int) == children@);
        }
        let channel_ids = merge_channel_ids(&elements);
        Absolute { children, channel_ids }
    }
}

/// The latest end `offset + duration` among the first `n` children, if any.
pub open spec fn end_max(kids: Seq<MeasuredElement>, offsets: Seq<Time>, n: int) -> Option<Time>
    decreases n,
{
    if n <= 0 {
        None
    } else {
        let end = sat(offsets[n - 1] + kids[n - 1].duration) as Time;
        match end_max(kids, offsets, n - 1) {
            Some(m) => Some(if m >= end { m } else { end }),
            None => Some(end),
        }
    }
}

/// The measured duration of an absolute container: the latest end of a
/// child, or zero without children.
pub open spec fn absolute_total(kids: Seq<MeasuredElement>, offsets: Seq<Time>) -> Time {
    match end_max(kids, offsets, kids.len() as int) {
        Some(m) => m,
        None => 0,
    }
}

/// The latest end `offset + duration` of the measured children, or zero
/// without children.
pub fn measure_absolute(children: &Vec<MeasuredElement>, offsets: &Vec<Time>) -> (r: Time)
    requires
        offsets@.len() == children@.len(),
    ensures
        r == absolute_total(children@, offsets@),
{
    let mut best: Option<Time> = None;
    let mut i: usize = 0;
    while i < children.len()
        invariant
            offsets@.len() == children@.len(),
            i <= children@.len(),
            best == end_max(children@, offsets@, i as int),
        decreases children@.len() - i,
    {
        let end = add_time(offsets[i], children[i].duration);
        best = match best {
            Some(m) => Some(if m >= end { m } else { end }),
            None => Some(end),
        };
        i += 1;
    }
    match best {
        Some(m) => m,
        None => TIME_ZERO,
    }
}

} // verus!
