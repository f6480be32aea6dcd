//! Element trees and the two scheduling passes over them.
use std::sync::Arc;

use vstd::prelude::*;

use crate::absolute::{absolute_total, measure_absolute, Absolute, AbsoluteEntry};
use crate::repeat::{copy_place, repeat_inner, repeat_place, repeat_total, Repeat};
use crate::stack::{arrange_stack, measure_stack, stack_items, stack_offset, stack_place, stack_total, Stack};

use crate::quant::{
    add_time, clamp_duration, clamp_spec, is_finite, max_of, max_time, sat, sub_time,
    time_is_finite, Time, TIME_INFINITY, TIME_ZERO,
};

verus! {

/// Identifier of a physical output channel.
pub type ChannelId = u64;

/// What went wrong while building or scheduling an element tree.
#[derive(Debug, Clone, Copy, PartialEq, Eq, Structural)]
pub enum ScheduleError {
    /// A time that must be finite is not, or a duration is negative.
    InvalidQuantity,
    /// The common settings of an element are inconsistent.
    InvalidCommon,
    /// An entry of an absolute container has a non-finite offset.
    InvalidAbsoluteTime,
    /// Arranging would clip a measured duration while oversizing is disallowed.
    OversizeDisallowed,
}

/// Where a child sits within a slot larger than it needs.
#[derive(Debug, Clone, Copy, PartialEq, Eq, Structural)]
pub enum Alignment {
    Start,
    Center,
    End,
    Stretch,
}

/// The result of measuring an element: its desired duration, and what its
/// kind needs to arrange its children.
#[derive(Debug)]
pub struct MeasuredElement {
    pub element: ElementRef,
    /// Desired duration with margins, before the min/max clamp.
    pub unclipped_duration: Time,
    /// Desired duration with margins, after the min/max clamp.
    pub duration: Time,
    pub data: MeasureResultVariant,
}

/// Measured children of a container and their measured offsets.
#[derive(Debug)]
pub enum MeasureResultVariant {
    Simple,
    Multiple(Vec<MeasuredElement>, Vec<Time>),
}

/// The result of arranging an element: where its inner block starts relative
/// to its parent, and how long it is.
#[derive(Debug)]
pub struct ArrangedElement {
    pub element: ElementRef,
    /// Start of the inner block, without margin, relative to the parent.
    pub inner_time: Time,
    /// Length of the inner block, without margin.
    pub inner_duration: Time,
    pub data: ArrangeResultVariant,
}

/// Arranged children of a container.
#[derive(Debug)]
pub enum ArrangeResultVariant {
    Simple,
    Multiple(Vec<ArrangedElement>),
}

/// Options of the arrange pass.
#[derive(Debug, Clone, Copy)]
pub struct ScheduleOptions {
    pub time_tolerance: Time,
    pub allow_oversize: bool,
}

/// Settings shared by every element.
#[derive(Debug, Clone, Copy)]
pub struct ElementCommon {
    pub margin: (Time, Time),
    pub alignment: Alignment,
    pub phantom: bool,
    pub duration: Option<Time>,
    pub max_duration: Time,
    pub min_duration: Time,
}

/// Builds an [`ElementCommon`], checking its settings at the end.
#[derive(Debug, Clone, Copy)]
pub struct ElementCommonBuilder(pub ElementCommon);

/// Shared handle to an element: one element may appear in several places.
pub type ElementRef = Arc<Element>;

/// A node of a schedule: the settings every element has, and what it is.
#[derive(Debug, Clone)]
pub struct Element {
    pub common: ElementCommon,
    pub variant: ElementVariant,
}

/// The kinds of element.
#[derive(Debug, Clone)]
pub enum ElementVariant {
    Play(Play),
    Barrier(Barrier),
    Stack(Stack),
    Absolute(Absolute),
    Repeat(Repeat),
}

/// A pulse on one channel. Its inner duration is `width + plateau`, or only
/// `plateau` when it is flexible, in which case the width is slack.
#[derive(Debug, Clone)]
pub struct Play {
    pub channel_ids: Vec<ChannelId>,
    pub width: Time,
    pub plateau: Time,
    pub flexible: bool,
}

/// A zero-length element that lines up the clocks of its channels.
#[derive(Debug, Clone)]
pub struct Barrier {
    pub channel_ids: Vec<ChannelId>,
}

/// Channels an element uses; empty means all of its parent's channels.
pub open spec fn channel_seq(e: Element) -> Seq<ChannelId> {
    match e.variant {
        ElementVariant::Play(p) => p.channel_ids@,
        ElementVariant::Barrier(b) => b.channel_ids@,
        ElementVariant::Stack(s) => s.channel_ids@,
        ElementVariant::Absolute(a) => a.channel_ids@,
        ElementVariant::Repeat(r) => r.channel_ids@,
    }
}

impl Play {
    pub open spec fn valid(&self) -> bool {
        &&& self.channel_ids@.len() == 1
        &&& is_finite(self.width as int) && self.width >= 0
        &&& is_finite(self.plateau as int) && self.plateau >= 0
    }

    /// A pulse on `channel_id`; fails with `InvalidQuantity` when the width
    /// or the plateau is negative or not finite.
    pub fn new(channel_id: ChannelId, width: Time, plateau: Time, flexible: bool) -> (r: Result<Play, ScheduleError>)
        ensures
            r is Ok <==> (is_finite(width as int) && width >= 0 && is_finite(plateau as int) && plateau >= 0),
            r matches Ok(p) ==> p.valid() && p.channel_ids@ == seq![channel_id] && p.width == width
                && p.plateau == plateau && p.flexible == flexible,
            r matches Err(e) ==> e == ScheduleError::InvalidQuantity,
    {
        if !time_is_finite(width) || width < 0 || !time_is_finite(plateau) || plateau < 0 {
            return Err(ScheduleError::InvalidQuantity);
        }
        let channel_ids = vec![channel_id];
        Ok(Play { channel_ids, width, plateau, flexible })
    }
}

impl Barrier {
    pub fn new(channel_ids: Vec<ChannelId>) -> (r: Barrier)
        ensures
            r.channel_ids@ == channel_ids@,
    {
        Barrier { channel_ids }
    }
}

impl Element {
    pub fn new(common: ElementCommon, variant: ElementVariant) -> (r: Element)
        ensures
            r.common == common,
            r.variant == variant,
    {
        Element { common, variant }
    }

    /// Channels the element uses; empty means all of its parent's channels.
    pub fn channels(&self) -> (r: &[ChannelId])
        ensures
            r@ == channel_seq(*self),
    {
        match &self.variant {
            ElementVariant::Play(p) => p.channel_ids.as_slice(),
            ElementVariant::Barrier(b) => b.channel_ids.as_slice(),
            ElementVariant::Stack(s) => s.channel_ids.as_slice(),
            ElementVariant::Absolute(a) => a.channel_ids.as_slice(),
            ElementVariant::Repeat(r) => r.channel_ids.as_slice(),
        }
    }
}

impl MeasuredElement {
    /// Desired duration with margins, after the min/max clamp.
    pub fn duration(&self) -> (r: Time)
        ensures
            r == self.duration,
    {
        self.duration
    }
}

impl ArrangedElement {
    pub fn inner_time(&self) -> (r: Time)
        ensures
            r == self.inner_time,
    {
        self.inner_time
    }

    pub fn inner_duration(&self) -> (r: Time)
        ensures
            r == self.inner_duration,
    {
        self.inner_duration
    }

    pub fn element(&self) -> (r: &ElementRef)
        ensures
            *r == self.element,
    {
        &self.element
    }

    /// The arranged children of a container; `None` for a leaf.
    pub fn try_get_children(&self) -> (r: Option<&[ArrangedElement]>)
        ensures
            match self.data {
                ArrangeResultVariant::Multiple(v) => r matches Some(c) && c@ == v@,
                ArrangeResultVariant::Simple => r is None,
            },
    {
        match &self.data {
            ArrangeResultVariant::Multiple(v) => Some(v.as_slice()),
            ArrangeResultVariant::Simple => None,
        }
    }
}

impl ElementCommon {
    /// The settings that a builder accepts: finite margins, a finite
    /// non-negative fixed duration and minimum, a non-negative maximum.
    pub open spec fn valid(&self) -> bool {
        &&& is_finite(self.margin.0 as int)
        &&& is_finite(self.margin.1 as int)
        &&& (self.duration matches Some(d) ==> is_finite(d as int) && d >= 0)
        &&& is_finite(self.min_duration as int) && self.min_duration >= 0
        &&& self.max_duration >= 0
    }

    pub open spec fn total_margin_spec(&self) -> int {
        sat(self.margin.0 + self.margin.1)
    }

    /// The lower bound on the inner duration.
    pub open spec fn min_spec(&self) -> int {
        let d = match self.duration { Some(d) => d as int, None => 0 };
        clamp_spec(d, self.min_duration as int, self.max_duration as int)
    }

    /// The upper bound on the inner duration.
    pub open spec fn max_spec(&self) -> int {
        let d = match self.duration { Some(d) => d as int, None => TIME_INFINITY as int };
        clamp_spec(d, self.min_duration as int, self.max_duration as int)
    }

    pub fn margin(&self) -> (r: (Time, Time))
        ensures
            r == self.margin,
    {
        self.margin
    }

    pub fn alignment(&self) -> (r: Alignment)
        ensures
            r == self.alignment,
    {
        self.alignment
    }

    pub fn phantom(&self) -> (r: bool)
        ensures
            r == self.phantom,
    {
        self.phantom
    }

    pub fn duration(&self) -> (r: Option<Time>)
        ensures
            r == self.duration,
    {
        self.duration
    }

    pub fn max_duration(&self) -> (r: Time)
        ensures
            r == self.max_duration,
    {
        self.max_duration
    }

    pub fn min_duration(&self) -> (r: Time)
        ensures
            r == self.min_duration,
    {
        self.min_duration
    }

    /// The bounds `(min, max)` on the inner duration: a fixed duration, when
    /// set, collapses both to it, within `[min_duration, max_duration]`.
    pub fn clamp_min_max_duration(&self) -> (r: (Time, Time))
        ensures
            r.0 == self.min_spec(),
            r.1 == self.max_spec(),
    {
        let max_duration = clamp_duration(
            match self.duration { Some(d) => d, None => TIME_INFINITY },
            self.min_duration,
            self.max_duration,
        );
        let min_duration = clamp_duration(
            match self.duration { Some(d) => d, None => TIME_ZERO },
            self.min_duration,
            self.max_duration,
        );
        (min_duration, max_duration)
    }

    /// The sum of the left and right margins.
    pub fn total_margin(&self) -> (r: Time)
        ensures
            r == self.total_margin_spec(),
    {
        add_time(self.margin.0, self.margin.1)
    }
}

impl ElementCommonBuilder {
    /// The settings a new builder starts from.
    pub open spec fn default_common() -> ElementCommon {
        ElementCommon {
            margin: (0, 0),
            alignment: Alignment::End,
            phantom: false,
            duration: None,
            max_duration: TIME_INFINITY,
            min_duration: 0,
        }
    }

    pub open spec fn settings(&self) -> ElementCommon {
        self.0
    }

    /// A builder with no margins, end alignment, no fixed duration and
    /// unbounded maximum.
    pub fn new() -> (r: Self)
        ensures
            r.settings() == Self::default_common(),
    {
        ElementCommonBuilder(ElementCommon {
            margin: (TIME_ZERO, TIME_ZERO),
            alignment: Alignment::End,
            phantom: false,
            duration: None,
            max_duration: TIME_INFINITY,
            min_duration: TIME_ZERO,
        })
    }

    pub fn margin(&mut self, margin: (Time, Time)) -> (r: &mut Self)
        ensures
            r.settings() == (ElementCommon { margin, ..old(self).settings() }),
            *final(r) == *final(self),
    {
        self.0.margin = margin;
        self
    }

    pub fn alignment(&mut self, alignment: Alignment) -> (r: &mut Self)
        ensures
            r.settings() == (ElementCommon { alignment, ..old(self).settings() }),
            *final(r) == *final(self),
    {
        self.0.alignment = alignment;
        self
    }

    pub fn phantom(&mut self, phantom: bool) -> (r: &mut Self)
        ensures
            r.settings() == (ElementCommon { phantom, ..old(self).settings() }),
            *final(r) == *final(self),
    {
        self.0.phantom = phantom;
        self
    }

    pub fn duration(&mut self, duration: Option<Time>) -> (r: &mut Self)
        ensures
            r.settings() == (ElementCommon { duration, ..old(self).settings() }),
            *final(r) == *final(self),
    {
        self.0.duration = duration;
        self
    }

    pub fn max_duration(&mut self, max_duration: Time) -> (r: &mut Self)
        ensures
            r.settings() == (ElementCommon { max_duration, ..old(self).settings() }),
            *final(r) == *final(self),
    {
        self.0.max_duration = max_duration;
        self
    }

    pub fn min_duration(&mut self, min_duration: Time) -> (r: &mut Self)
        ensures
            r.settings() == (ElementCommon { min_duration, ..old(self).settings() }),
            *final(r) == *final(self),
    {
        self.0.min_duration = min_duration;
        self
    }

    /// Checks the settings: `Ok` exactly when they are valid.
    pub fn validate(&self) -> (r: Result<(), ScheduleError>)
        ensures
            r is Ok <==> self.settings().valid(),
            r matches Err(e) ==> e == ScheduleError::InvalidCommon,
    {
        let v = &self.0;
        if !time_is_finite(v.margin.0) || !time_is_finite(v.margin.1) {
            return Err(ScheduleError::InvalidCommon);
        }
        if let Some(d) = v.duration {
            if !time_is_finite(d) || d < 0 {
                return Err(ScheduleError::InvalidCommon);
            }
        }
        if !time_is_finite(v.min_duration) || v.min_duration < 0 {
            return Err(ScheduleError::InvalidCommon);
        }
        if v.max_duration < 0 {
            return Err(ScheduleError::InvalidCommon);
        }
        Ok(())
    }

    /// The settings, once they pass [`Self::validate`].
    pub fn build(&self) -> (r: Result<ElementCommon, ScheduleError>)
        ensures
            r is Ok <==> self.settings().valid(),
            r matches Ok(c) ==> c == self.settings(),
            r matches Err(e) ==> e == ScheduleError::InvalidCommon,
    {
        self.validate()?;
        Ok(self.0)
    }
}

impl Default for ElementCommonBuilder {
    fn default() -> (r: Self)
        ensures
            r.settings() == Self::default_common(),
    {
        Self::new()
    }
}

/// The inner duration an element asks for, given what was measured of its
/// children.
pub open spec fn measure_inner(e: Element, data: MeasureResultVariant) -> Time {
    match e.variant {
        ElementVariant::Play(p) => if p.flexible { p.plateau } else { sat(p.width + p.plateau) as Time },
        ElementVariant::Barrier(_) => 0,
        ElementVariant::Stack(s) => match data {
            MeasureResultVariant::Multiple(kids, _) => stack_total(s.channel_ids@, stack_items(kids@), s.direction),
            MeasureResultVariant::Simple => 0,
        },
        ElementVariant::Absolute(a) => match data {
            MeasureResultVariant::Multiple(kids, offsets) => absolute_total(kids@, offsets@),
            MeasureResultVariant::Simple => 0,
        },
        ElementVariant::Repeat(r) => match data {
            MeasureResultVariant::Multiple(kids, _) => if kids@.len() > 0 { repeat_total(r.count, kids@[0].duration, r.spacing) } else { 0 },
            MeasureResultVariant::Simple => 0,
        },
    }
}

/// Inner duration plus margins, at least zero.
pub open spec fn unclipped_of(c: ElementCommon, inner: Time) -> Time {
    max_time(sat(inner + c.total_margin_spec()), 0) as Time
}

/// The unclipped duration without margins, clamped to the element's bounds,
/// with the margins added back; at least zero.
pub open spec fn duration_of(c: ElementCommon, unclipped: Time) -> Time {
    let tm = c.total_margin_spec();
    max_time(sat(clamp_spec(sat(unclipped - tm), c.min_spec(), c.max_spec()) + tm), 0) as Time
}

/// `m` is the measurement of `e`: of `e` itself, and of each of its
/// children, recursively.
pub open spec fn is_measure_of(m: MeasuredElement, e: Element) -> bool
    decreases e,
{
    &&& *m.element == e
    &&& m.unclipped_duration == unclipped_of(e.common, measure_inner(e, m.data))
    &&& m.duration == duration_of(e.common, m.unclipped_duration)
    &&& match e.variant {
        ElementVariant::Play(_) => m.data is Simple,
        ElementVariant::Barrier(_) => m.data is Simple,
        ElementVariant::Stack(s) => match m.data {
            MeasureResultVariant::Multiple(kids, offsets) => {
                &&& kids@.len() == s.children@.len()
                &&& offsets@.len() == kids@.len()
                &&& forall|i: int| 0 <= i < kids@.len() ==> is_measure_of(#[trigger] kids@[i], *s.children@[i])
                &&& forall|j: int| 0 <= j < kids@.len() ==> #[trigger] offsets@[j] == stack_offset(s.channel_ids@, stack_items(kids@), s.direction, j)
            },
            MeasureResultVariant::Simple => false,
        },
        ElementVariant::Absolute(a) => match m.data {
            MeasureResultVariant::Multiple(kids, offsets) => {
                &&& kids@.len() == a.children@.len()
                &&& offsets@.len() == kids@.len()
                &&& forall|i: int| 0 <= i < kids@.len() ==> is_measure_of(#[trigger] kids@[i], *a.children@[i].element)
                &&& forall|j: int| 0 <= j < kids@.len() ==> #[trigger] offsets@[j] == a.children@[j].time
            },
            MeasureResultVariant::Simple => false,
        },
        ElementVariant::Repeat(r) => match m.data {
            MeasureResultVariant::Multiple(kids, offsets) => {
                &&& kids@.len() == 1
                &&& offsets@ == seq![0i64]
                &&& is_measure_of(kids@[0], *r.child)
            },
            MeasureResultVariant::Simple => false,
        },
    }
}

/// Measures `element` and, first, each of its children: the desired duration
/// with margins, clamped to the element's bounds.
pub fn measure(element: ElementRef) -> (r: MeasuredElement)
    ensures
        is_measure_of(r, *element),
    decreases *element,
{
    let total_margin = element.common.total_margin();
    let (min_duration, max_duration) = element.common.clamp_min_max_duration();
    let (inner, data) = match &element.variant {
        ElementVariant::Play(p) => {
            let inner = if p.flexible { p.plateau } else { add_time(p.width, p.plateau) };
            (inner, MeasureResultVariant::Simple)
        },
        ElementVariant::Barrier(_) => (TIME_ZERO, MeasureResultVariant::Simple),
        ElementVariant::Stack(s) => {
            let mut kids: Vec<MeasuredElement> = Vec::new();
            let mut i: usize = 0;
            while i < s.children.len()
                invariant
                    element.variant == ElementVariant::Stack(*s),
                    i <= s.children@.len(),
                    kids@.len() == i,
                    forall|k: int| 0 <= k < i ==> is_measure_of(#[trigger] kids@[k], *s.children@[k]),
                decreases s.children@.len() - i,
            {
                proof {
                    assert(decreases_to!(*element => element.variant));
                    assert(decreases_to!(element.variant => element.variant->Stack_0));
                    assert(decreases_to!(element.variant->Stack_0 => s.children));
                    assert(decreases_to!(s.children => s.children@));
                    assert(decreases_to!(s.children@ => s.children@[i as int]));
                    assert(decreases_to!(*element => *s.children@[i as int]));
                }
                let kid = measure(s.children[i].clone());
                kids.push(kid);
                i += 1;
            }
            let (total, offsets) = measure_stack(&kids, s.channel_ids.as_slice(), s.direction);
            (total, MeasureResultVariant::Multiple(kids, offsets))
        },
        ElementVariant::Absolute(a) => {
            let mut kids: Vec<MeasuredElement> = Vec::new();
            let mut offsets: Vec<Time> = Vec::new();
            let mut i: usize = 0;
            while i < a.children.len()
                invariant
                    element.variant == ElementVariant::Absolute(*a),
                    i <= a.children@.len(),
                    kids@.len() == i,
                    offsets@.len() == i,
                    forall|k: int| 0 <= k < i ==> is_measure_of(#[trigger] kids@[k], *a.children@[k].element),
                    forall|k: int| 0 <= k < i ==> #[trigger] offsets@[k] == a.children@[k].time,
                decreases a.children@.len() - i,
            {
                proof {
                    assert(decreases_to!(*element => element.variant));
                    assert(decreases_to!(element.variant => element.variant->Absolute_0));
                    assert(decreases_to!(element.variant->Absolute_0 => a.children));
                    assert(decreases_to!(a.children => a.children@));
                    assert(decreases_to!(a.children@ => a.children@[i as int]));
                    assert(decreases_to!(a.children@[i as int] => a.children@[i as int].element));
                    assert(decreases_to!(*element => *a.children@[i as int].element));
                }
                let kid = measure(a.children[i].element.clone());
                kids.push(kid);
                offsets.push(a.children[i].time);
                i += 1;
            }
            let total = measure_absolute(&kids, &offsets);
            (total, MeasureResultVariant::Multiple(kids, offsets))
        },
        ElementVariant::Repeat(r) => {
            proof {
                assert(decreases_to!(*element => element.variant));
                assert(decreases_to!(element.variant => element.variant->Repeat_0));
                assert(decreases_to!(element.variant->Repeat_0 => r.child));
            }
            let kid = measure(r.child.clone());
            let inner = repeat_inner(r.count, kid.duration, r.spacing);
            let kids = vec![kid];
            let offsets = vec![TIME_ZERO];
            proof {
                assert(offsets@ =~= seq![0i64]);
            }
            (inner, MeasureResultVariant::Multiple(kids, offsets))
        },
    };
    let unclipped_duration = max_of(add_time(inner, total_margin), TIME_ZERO);
    let duration = max_of(
        add_time(clamp_duration(sub_time(unclipped_duration, total_margin), min_duration, max_duration), total_margin),
        TIME_ZERO,
    );
    MeasuredElement { element, unclipped_duration, duration, data }
}

/// The inner duration granted to an element of `c` given `duration` with
/// margins: without margins, at least zero, within the element's bounds.
pub open spec fn inner_duration_for(c: ElementCommon, duration: Time) -> Time {
    clamp_spec(max_time(sat(duration - c.total_margin_spec()), 0), c.min_spec(), c.max_spec()) as Time
}

/// Whether `duration` is enough for `m` itself: with oversizing disallowed,
/// neither `duration` nor the granted inner duration plus margins falls
/// short of the unclipped duration by more than the tolerance.
pub open spec fn fits(m: MeasuredElement, duration: Time, options: ScheduleOptions) -> bool {
    let c = m.element.common;
    let limit = sat(m.unclipped_duration - options.time_tolerance);
    options.allow_oversize || (duration >= limit && sat(inner_duration_for(c, duration) + c.total_margin_spec()) >= limit)
}

/// Whether `m` arranged with `duration` fits, and so does each child,
/// recursively, arranged with its measured duration.
pub open spec fn arrange_ok(m: MeasuredElement, duration: Time, options: ScheduleOptions) -> bool
    decreases m,
{
    &&& fits(m, duration, options)
    &&& match m.data {
        MeasureResultVariant::Simple => true,
        MeasureResultVariant::Multiple(kids, _) => match m.element.variant {
            ElementVariant::Repeat(r) => r.count == 0 || (kids@.len() > 0 && arrange_ok(kids@[0], kids@[0].duration, options)),
            _ => forall|i: int| 0 <= i < kids@.len() ==> arrange_ok(#[trigger] kids@[i], kids@[i].duration, options),
        },
    }
}

/// The repeat that `e` is, if it is one.
pub open spec fn repeat_of(e: Element) -> Repeat {
    e.variant->Repeat_0
}

/// The final inner duration of `e` given `inner`: a pulse is never shorter
/// than its width.
pub open spec fn arranged_inner(e: Element, inner: Time) -> Time {
    match e.variant {
        ElementVariant::Play(p) => max_time(inner as int, p.width as int) as Time,
        _ => inner,
    }
}

/// Where a child of `e` with measured `offset` and `duration` starts in an
/// inner block of length `inner`.
pub open spec fn child_place(e: Element, offset: Time, duration: Time, inner: Time) -> Time {
    match e.variant {
        ElementVariant::Stack(s) => stack_place(inner, offset, duration, s.direction),
        _ => offset,
    }
}

/// `a` is the arrangement of `m` at `time` with `duration`: of the element
/// itself, and of each child at its place with its measured duration.
pub open spec fn is_arrangement(a: ArrangedElement, m: MeasuredElement, time: Time, duration: Time, options: ScheduleOptions) -> bool
    decreases m,
{
    let c = m.element.common;
    let inner = inner_duration_for(c, duration);
    &&& a.element == m.element
    &&& a.inner_time == sat(time + c.margin.0)
    &&& a.inner_duration == arranged_inner(*m.element, inner)
    &&& match m.data {
        MeasureResultVariant::Simple => a.data is Simple,
        MeasureResultVariant::Multiple(kids, offsets) => match a.data {
            ArrangeResultVariant::Multiple(arranged) => match m.element.variant {
                ElementVariant::Repeat(r) => {
                &&& arranged@.len() == r.count
                &&& (r.count > 0 ==> kids@.len() > 0)
                &&& forall|i: int| 0 <= i < r.count && kids@.len() > 0 ==> is_arrangement(
                    #[trigger] arranged@[i],
                    kids@[0],
                    repeat_place(r.count, kids@[0].duration, r.spacing, inner, i),
                    kids@[0].duration,
                    options,
                )
                },
                _ => {
                &&& arranged@.len() == kids@.len()
                &&& forall|i: int| 0 <= i < kids@.len() ==> is_arrangement(
                    #[trigger] arranged@[i],
                    kids@[i],
                    child_place(*m.element, offsets@[i], kids@[i].duration, inner),
                    kids@[i].duration,
                    options,
                )
                },
            },
            ArrangeResultVariant::Simple => false,
        },
    }
}

/// Arranges a measured element at `time` with `duration` (both with
/// margins), and each of its children within it. Fails with
/// `OversizeDisallowed` exactly when some element would be clipped while
/// oversizing is disallowed.
pub fn arrange(measured: &MeasuredElement, time: Time, duration: Time, options: &ScheduleOptions) -> (r: Result<ArrangedElement, ScheduleError>)
    requires
        is_measure_of(*measured, *measured.element),
    ensures
        r is Ok <==> arrange_ok(*measured, duration, *options),
        r matches Ok(a) ==> is_arrangement(a, *measured, time, duration, *options),
        r matches Err(e) ==> e == ScheduleError::OversizeDisallowed,
    decreases measured,
{
    let element = &measured.element;
    let common = &element.common;
    let limit = sub_time(measured.unclipped_duration, options.time_tolerance);
    if duration < limit && !options.allow_oversize {
        return Err(ScheduleError::OversizeDisallowed);
    }
    let inner_time = add_time(time, common.margin.0);
    let (min_duration, max_duration) = common.clamp_min_max_duration();
    let total_margin = common.total_margin();
    let inner_duration = clamp_duration(max_of(sub_time(duration, total_margin), TIME_ZERO), min_duration, max_duration);
    if add_time(inner_duration, total_margin) < limit && !options.allow_oversize {
        return Err(ScheduleError::OversizeDisallowed);
    }
    let is_repeat = match &element.variant {
        ElementVariant::Repeat(_) => true,
        _ => false,
    };
    let (final_duration, data) = match &measured.data {
        MeasureResultVariant::Simple => {
            let final_duration = match &element.variant {
                ElementVariant::Play(p) => max_of(inner_duration, p.width),
                _ => inner_duration,
            };
            (final_duration, ArrangeResultVariant::Simple)
        },
        MeasureResultVariant::Multiple(kids, offsets) if is_repeat => {
            let (count, spacing) = match &element.variant {
                ElementVariant::Repeat(r) => (r.count, r.spacing),
                _ => (0, TIME_ZERO),
            };
            let mut arranged: Vec<ArrangedElement> = Vec::new();
            if count > 0 {
                let kid = &kids[0];
                proof {
                    assert(is_measure_of(*kid, *repeat_of(**element).child));
                }
                let mut i: u32 = 0;
                while i < count
                    invariant
                        measured.data == MeasureResultVariant::Multiple(*kids, *offsets),
                        *element == measured.element,
                        element.variant is Repeat,
                        count == repeat_of(**element).count,
                        spacing == repeat_of(**element).spacing,
                        kids@.len() == 1,
                        *kid == kids@[0],
                        is_measure_of(*kid, *kid.element),
                        i <= count,
                        arranged@.len() == i,
                        i > 0 ==> arrange_ok(*kid, kid.duration, *options),
                        forall|k: int| 0 <= k < i ==> is_arrangement(
                            #[trigger] arranged@[k],
                            kids@[0],
                            repeat_place(repeat_of(**element).count, kids@[0].duration, repeat_of(**element).spacing, inner_duration, k),
                            kids@[0].duration,
                            *options,
                        ),
                    decreases count - i,
                {
                    proof {
                        assert(decreases_to!(measured.data => measured.data->Multiple_0));
                        assert(decreases_to!(measured.data->Multiple_0 => kids@));
                        assert(decreases_to!(kids@ => kids@[0]));
                    }
                    let place = copy_place(count, kid.duration, spacing, inner_duration, i);
                    let child = arrange(kid, place, kid.duration, options);
                    match child {
                        Ok(a) => arranged.push(a),
                        Err(e) => {
                            proof {
                                assert(!arrange_ok(kids@[0], kids@[0].duration, *options));
                                assert(measured.element.variant->Repeat_0.count > 0);
                            }
                            return Err(e);
                        },
                    }
                    i += 1;
                }
            }
            (inner_duration, ArrangeResultVariant::Multiple(arranged))
        },
        MeasureResultVariant::Multiple(kids, offsets) => {
            let places: Vec<(Time, Time)> = match &element.variant {
                ElementVariant::Stack(s) => arrange_stack(kids, offsets, inner_duration, s.direction),
                _ => {
                    let mut places: Vec<(Time, Time)> = Vec::new();
                    let mut i: usize = 0;
                    while i < kids.len()
                        invariant
                            offsets@.len() == kids@.len(),
                            i <= kids@.len(),
                            places@.len() == i,
                            forall|k: int| 0 <= k < i ==> #[trigger] places@[k] == (offsets@[k], kids@[k].duration),
                        decreases kids@.len() - i,
                    {
                        places.push((offsets[i], kids[i].duration));
                        i += 1;
                    }
                    places
                },
            };
            proof {
                assert forall|k: int| 0 <= k < kids@.len() implies is_measure_of(#[trigger] kids@[k], *kids@[k].element) by {
                    match measured.element.variant {
                        ElementVariant::Stack(s) => assert(is_measure_of(kids@[k], *s.children@[k])),
                        ElementVariant::Absolute(a) => assert(is_measure_of(kids@[k], *a.children@[k].element)),
                        _ => {},
                    }
                }
            }
            let mut arranged: Vec<ArrangedElement> = Vec::new();
            let mut i: usize = 0;
            while i < kids.len()
                invariant
                    measured.data == MeasureResultVariant::Multiple(*kids, *offsets),
                    !(measured.element.variant is Repeat),
                    is_measure_of(*measured, *measured.element),
                    places@.len() == kids@.len(),
                    offsets@.len() == kids@.len(),
                    forall|k: int| 0 <= k < kids@.len() ==> #[trigger] places@[k] == (
                        child_place(*measured.element, offsets@[k], kids@[k].duration, inner_duration),
                        kids@[k].duration,
                    ),
                    forall|k: int| 0 <= k < kids@.len() ==> is_measure_of(#[trigger] kids@[k], *kids@[k].element),
                    i <= kids@.len(),
                    arranged@.len() == i,
                    forall|k: int| 0 <= k < i ==> arrange_ok(#[trigger] kids@[k], kids@[k].duration, *options),
                    forall|k: int| 0 <= k < i ==> is_arrangement(
                        #[trigger] arranged@[k],
                        kids@[k],
                        child_place(*measured.element, offsets@[k], kids@[k].duration, inner_duration),
                        kids@[k].duration,
                        *options,
                    ),
                decreases kids@.len() - i,
            {
                proof {
                    assert(decreases_to!(measured.data => measured.data->Multiple_0));
                    assert(decreases_to!(measured.data->Multiple_0 => kids@));
                    assert(decreases_to!(kids@ => kids@[i as int]));
                }
                let (place, child_duration) = places[i];
                let child = arrange(&kids[i], place, child_duration, options);
                match child {
                    Ok(a) => arranged.push(a),
                    Err(e) => {
                        return Err(e);
                    },
                }
                i += 1;
            }
            (inner_duration, ArrangeResultVariant::Multiple(arranged))
        },
    };
    Ok(ArrangedElement { element: element.clone(), inner_time, inner_duration: final_duration, data })
}

/// Every element of the arrangement `a` of `m`, recursively, keeps its inner
/// duration plus margins within the tolerance of its unclipped duration.
pub open spec fn not_clipped(a: ArrangedElement, m: MeasuredElement, options: ScheduleOptions) -> bool
    decreases m,
{
    &&& sat(a.inner_duration + m.element.common.total_margin_spec()) >= sat(m.unclipped_duration - options.time_tolerance)
    &&& match m.data {
        MeasureResultVariant::Multiple(kids, _) => match a.data {
            ArrangeResultVariant::Multiple(arranged) => match m.element.variant {
                ElementVariant::Repeat(_) => forall|i: int|
                    0 <= i < arranged@.len() && kids@.len() > 0 ==> not_clipped(#[trigger] arranged@[i], kids@[0], options),
                _ => forall|i: int|
                    0 <= i < kids@.len() && i < arranged@.len() ==> not_clipped(#[trigger] arranged@[i], kids@[i], options),
            },
            ArrangeResultVariant::Simple => true,
        },
        MeasureResultVariant::Simple => true,
    }
}

/// With oversizing disallowed, a successful arrangement clips no element:
/// each inner duration plus its margins is at least the measured unclipped
/// duration less the tolerance.
pub proof fn lemma_arrange_not_clipped(a: ArrangedElement, m: MeasuredElement, time: Time, duration: Time, options: ScheduleOptions)
    requires
        !options.allow_oversize,
        arrange_ok(m, duration, options),
        is_arrangement(a, m, time, duration, options),
    ensures
        not_clipped(a, m, options),
    decreases m,
{
    match m.data {
        MeasureResultVariant::Multiple(kids, offsets) => match a.data {
            ArrangeResultVariant::Multiple(arranged) => {
                if let ElementVariant::Repeat(r) = m.element.variant {
                    assert forall|i: int| 0 <= i < arranged@.len() && kids@.len() > 0 implies not_clipped(#[trigger] arranged@[i], kids@[0], options) by {
                        assert(decreases_to!(m.data => m.data->Multiple_0));
                        assert(decreases_to!(m.data->Multiple_0 => kids@));
                        assert(decreases_to!(kids@ => kids@[0]));
                        let inner = inner_duration_for(m.element.common, duration);
                        lemma_arrange_not_clipped(arranged@[i], kids@[0], repeat_place(r.count, kids@[0].duration, r.spacing, inner, i), kids@[0].duration, options);
                    }
                } else {
                assert forall|i: int| 0 <= i < kids@.len() && i < arranged@.len() implies not_clipped(#[trigger] arranged@[i], kids@[i], options) by {
                    assert(decreases_to!(m.data => m.data->Multiple_0));
                    assert(decreases_to!(m.data->Multiple_0 => kids@));
                    assert(decreases_to!(kids@ => kids@[i]));
                    assert(arrange_ok(kids@[i], kids@[i].duration, options));
                    let inner = inner_duration_for(m.element.common, duration);
                    lemma_arrange_not_clipped(arranged@[i], kids@[i], child_place(*m.element, offsets@[i], kids@[i].duration, inner), kids@[i].duration, options);
                }
                }
            },
            ArrangeResultVariant::Simple => {},
        },
        MeasureResultVariant::Simple => {},
    }
}

/// The entries of an absolute container; empty for any other element.
pub open spec fn absolute_entries(e: Element) -> Seq<AbsoluteEntry> {
    match e.variant {
        ElementVariant::Absolute(a) => a.children@,
        _ => Seq::empty(),
    }
}

/// An absolute container keeps the inner duration it is granted, and places
/// the inner block of each child at the child's entry offset plus the
/// child's left margin.
pub proof fn lemma_absolute_placement(a: ArrangedElement, m: MeasuredElement, time: Time, duration: Time, options: ScheduleOptions)
    requires
        is_measure_of(m, *m.element),
        m.element.variant is Absolute,
        is_arrangement(a, m, time, duration, options),
    ensures
        a.inner_duration == inner_duration_for(m.element.common, duration),
        match a.data {
            ArrangeResultVariant::Multiple(arranged) => {
                &&& arranged@.len() == absolute_entries(*m.element).len()
                &&& forall|i: int| 0 <= i < arranged@.len() ==> #[trigger] arranged@[i].inner_time
                    == sat(absolute_entries(*m.element)[i].time + absolute_entries(*m.element)[i].element.common.margin.0)
            },
            ArrangeResultVariant::Simple => false,
        },
{
    match m.data {
        MeasureResultVariant::Multiple(kids, offsets) => match a.data {
            ArrangeResultVariant::Multiple(arranged) => {
                assert forall|i: int| 0 <= i < arranged@.len() implies #[trigger] arranged@[i].inner_time
                    == sat(absolute_entries(*m.element)[i].time + absolute_entries(*m.element)[i].element.common.margin.0) by {
                    assert(is_measure_of(kids@[i], *absolute_entries(*m.element)[i].element));
                    assert(offsets@[i] == absolute_entries(*m.element)[i].time);
                    let inner = inner_duration_for(m.element.common, duration);
                    assert(child_place(*m.element, offsets@[i], kids@[i].duration, inner) == offsets@[i]);
                    assert(is_arrangement(arranged@[i], kids@[i], offsets@[i], kids@[i].duration, options));
                    assert(arranged@[i].inner_time == sat(offsets@[i] + kids@[i].element.common.margin.0));
                }
            },
            ArrangeResultVariant::Simple => {},
        },
        MeasureResultVariant::Simple => {},
    }
}

} // verus!
