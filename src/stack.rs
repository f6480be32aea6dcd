//! Sequential placement of children along per-channel clocks.
use vstd::prelude::*;

use crate::quant::{add_time, max_time, sat, sub_time, Time, TIME_INFINITY, TIME_ZERO};
use crate::schedule::{channel_seq, ChannelId, ElementRef, MeasuredElement, ScheduleError};

verus! {

/// Order in which the children of a stack claim time.
#[derive(Debug, Clone, Copy, PartialEq, Eq, Structural)]
pub enum Direction {
    Forward,
    Backward,
}

/// A container that places its children one after another on each channel.
#[derive(Debug, Clone)]
pub struct Stack {
    pub children: Vec<ElementRef>,
    pub direction: Direction,
    pub channel_ids: Vec<ChannelId>,
}

impl Stack {
    /// An empty backward stack.
    pub fn new() -> (r: Stack)
        ensures
            r.children@.len() == 0,
            r.channel_ids@.len() == 0,
            r.direction == Direction::Backward,
    {
        Stack { children: Vec::new(), direction: Direction::Backward, channel_ids: Vec::new() }
    }

    pub fn with_direction(self, direction: Direction) -> (r: Stack)
        ensures
            r.children@ == self.children@,
            r.channel_ids@ == self.channel_ids@,
            r.direction == direction,
    {
        Stack { direction, ..self }
    }

    /// The stack with `children`; its channels become every channel they use.
    pub fn with_children(self, children: Vec<ElementRef>) -> (r: Stack)
        ensures
            r.children@ == children@,
            r.channel_ids@.to_set() == union_channels(children@),
            r.channel_ids@.no_duplicates(),
            r.direction == self.direction,
    {
        let channel_ids = merge_channel_ids(&children);
        Stack { children, direction: self.direction, channel_ids }
    }

    pub fn direction(&self) -> (r: Direction)
        ensures
            r == self.direction,
    {
        self.direction
    }
}

/// A set of channels, kept in a hash set.
#[verifier::external_body]
pub struct ChannelSet {
    set: hashbrown::HashSet<ChannelId>,
}

/// The channels a [`ChannelSet`] holds.
pub uninterp spec fn channel_set_items(s: ChannelSet) -> Set<ChannelId>;

impl ChannelSet {
    /// Relies on hashbrown::HashSet::new: the set starts empty.
    #[verifier::external_body]
    fn new() -> (r: ChannelSet)
        ensures
            channel_set_items(r) == Set::<ChannelId>::empty(),
    {
        ChannelSet { set: hashbrown::HashSet::new() }
    }

    /// Relies on hashbrown::HashSet::insert: the id is in the set afterwards,
    /// and nothing else changes.
    #[verifier::external_body]
    fn insert(&mut self, id: ChannelId)
        ensures
            channel_set_items(*final(self)) == channel_set_items(*old(self)).insert(id),
    {
        self.set.insert(id);
    }

    /// Relies on hashbrown::HashSet::into_iter: every element of the set comes
    /// out once, in an order of the hasher's choosing.
    #[verifier::external_body]
    fn into_vec(self) -> (r: Vec<ChannelId>)
        ensures
            r@.to_set() == channel_set_items(self),
            r@.no_duplicates(),
    {
        self.set.into_iter().collect()
    }
}

/// Every channel used by one of `children`.
pub open spec fn union_channels(children: Seq<ElementRef>) -> Set<ChannelId> {
    Set::new(|c: ChannelId| exists|i: int| 0 <= i < children.len() && #[trigger] channel_seq(*children[i]).contains(c))
}

/// The channels that `children` use, each once, in no particular order.
pub fn merge_channel_ids(children: &Vec<ElementRef>) -> (r: Vec<ChannelId>)
    ensures
        r@.to_set() == union_channels(children@),
        r@.no_duplicates(),
{
    let mut set = ChannelSet::new();
    let mut i: usize = 0;
    while i < children.len()
        invariant
            i <= children@.len(),
            channel_set_items(set) == Set::new(|c: ChannelId| exists|k: int| 0 <= k < i && #[trigger] channel_seq(*children@[k]).contains(c)),
        decreases children@.len() - i,
    {
        let ids = children[i].channels();
        let ghost before = channel_set_items(set);
        let mut j: usize = 0;
        while j < ids.len()
            invariant
                i < children@.len(),
                ids@ == channel_seq(*children@[i as int]),
                j <= ids@.len(),
                channel_set_items(set) == before.union(ids@.subrange(0, j as int).to_set()),
            decreases ids@.len() - j,
        {
            set.insert(ids[j]);
            proof {
                assert(ids@.subrange(0, j + 1) == ids@.subrange(0, j as int).push(ids@[j as int]));
                assert(ids@.subrange(0, j as int).push(ids@[j as int]).to_set() =~= ids@.subrange(0, j as int).to_set().insert(ids@[j as int])) by {
                    ids@.subrange(0, j as int).lemma_push_to_set_commute(ids@[j as int]);
                }
                assert(channel_set_items(set) =~= before.union(ids@.subrange(0, j + 1).to_set()));
            }
            j += 1;
        }
        proof {
            assert(ids@.subrange(0, ids@.len() as int) == ids@);
            assert forall|c: ChannelId| channel_set_items(set).contains(c) <==> (exists|k: int| 0 <= k < i + 1 && #[trigger] channel_seq(*children@[k]).contains(c)) by {
                if channel_set_items(set).contains(c) && !before.contains(c) {
                    assert(ids@.to_set().contains(c));
                    assert(channel_seq(*children@[i as int]).contains(c));
                }
                if exists|k: int| 0 <= k < i + 1 && #[trigger] channel_seq(*children@[k]).contains(c) {
                    let k = choose|k: int| 0 <= k < i + 1 && #[trigger] channel_seq(*children@[k]).contains(c);
                    if k == i {
                        assert(ids@.to_set().contains(c));
                    }
                }
            }
            assert(channel_set_items(set) =~= Set::new(|c: ChannelId| exists|k: int| 0 <= k < i + 1 && #[trigger] channel_seq(*children@[k]).contains(c)));
        }
        i += 1;
    }
    proof {
        assert(channel_set_items(set) =~= union_channels(children@));
    }
    set.into_vec()
}

/// The time up to which each channel is occupied, kept in a hash map.
#[verifier::external_body]
pub struct UsageMap {
    map: hashbrown::HashMap<ChannelId, Time>,
}

/// The entries of a [`UsageMap`].
pub uninterp spec fn usage_entries(m: UsageMap) -> Map<ChannelId, Time>;

impl UsageMap {
    /// Relies on hashbrown::HashMap::with_capacity: the map starts empty.
    #[verifier::external_body]
    fn with_capacity(capacity: usize) -> (r: UsageMap)
        ensures
            usage_entries(r) == no_usage(),
    {
        UsageMap { map: hashbrown::HashMap::with_capacity(capacity) }
    }

    /// Relies on hashbrown::HashMap::get: the value stored under the key, if any.
    #[verifier::external_body]
    fn get(&self, id: ChannelId) -> (r: Option<Time>)
        ensures
            r == lookup(usage_entries(*self), id),
    {
        self.map.get(&id).copied()
    }

    /// Relies on hashbrown::HashMap::insert: the key maps to the value
    /// afterwards, and the other entries stay.
    #[verifier::external_body]
    fn insert(&mut self, id: ChannelId, t: Time)
        ensures
            usage_entries(*final(self)) == usage_entries(*old(self)).insert(id, t),
    {
        self.map.insert(id, t);
    }
}

/// A map with no entries.
pub open spec fn no_usage() -> Map<ChannelId, Time> {
    Map::empty()
}

/// The value under `id`, if any.
pub open spec fn lookup(m: Map<ChannelId, Time>, id: ChannelId) -> Option<Time> {
    if m.contains_key(id) { Some(m[id]) } else { None }
}

/// The largest value that `m` holds for one of `ids`, if it holds any.
pub open spec fn present_max(m: Map<ChannelId, Time>, ids: Seq<ChannelId>) -> Option<Time>
    decreases ids.len(),
{
    if ids.len() == 0 {
        None
    } else {
        let rest = present_max(m, ids.subrange(0, ids.len() - 1));
        let c = ids.last();
        if m.contains_key(c) {
            match rest {
                Some(v) => Some(if v >= m[c] { v } else { m[c] }),
                None => Some(m[c]),
            }
        } else {
            rest
        }
    }
}

/// `m` with each of `ids` mapped to `t`.
pub open spec fn set_all(m: Map<ChannelId, Time>, ids: Seq<ChannelId>, t: Time) -> Map<ChannelId, Time>
    decreases ids.len(),
{
    if ids.len() == 0 {
        m
    } else {
        set_all(m, ids.subrange(0, ids.len() - 1), t).insert(ids.last(), t)
    }
}

/// The state of a usage tracker: one clock for all channels (used when the
/// stack names no channel), and a clock per channel.
pub type UsageState = (Time, Map<ChannelId, Time>);

/// The channels that an element with channels `ids` occupies.
pub open spec fn occupied(all: Seq<ChannelId>, ids: Seq<ChannelId>) -> Seq<ChannelId> {
    if ids.len() == 0 { all } else { ids }
}

/// The time from which `ids` are all free: the latest clock among them, or
/// zero when none has been used.
pub open spec fn usage_get(all: Seq<ChannelId>, st: UsageState, ids: Seq<ChannelId>) -> Time {
    if all.len() == 0 {
        st.0
    } else {
        match present_max(st.1, occupied(all, ids)) {
            Some(v) => v,
            None => 0,
        }
    }
}

/// The state once `ids` are occupied up to `t`.
pub open spec fn usage_update(all: Seq<ChannelId>, st: UsageState, t: Time, ids: Seq<ChannelId>) -> UsageState {
    if all.len() == 0 {
        (t, st.1)
    } else {
        (st.0, set_all(st.1, occupied(all, ids), t))
    }
}

/// The latest clock of all channels.
pub open spec fn usage_max(all: Seq<ChannelId>, st: UsageState) -> Time {
    usage_get(all, st, Seq::empty())
}

/// Tracks how far each channel of a stack is occupied.
pub struct Helper<'a> {
    all_channels: &'a [ChannelId],
    single: Time,
    per_channel: UsageMap,
}

impl<'a> Helper<'a> {
    pub closed spec fn channels(&self) -> Seq<ChannelId> {
        self.all_channels@
    }

    pub closed spec fn state(&self) -> UsageState {
        (self.single, usage_entries(self.per_channel))
    }

    /// A tracker over `all_channels` with every clock at zero.
    pub fn new(all_channels: &'a [ChannelId]) -> (r: Self)
        ensures
            r.channels() == all_channels@,
            r.state() == (0i64, no_usage()),
    {
        Helper { all_channels, single: TIME_ZERO, per_channel: UsageMap::with_capacity(all_channels.len()) }
    }

    /// The time from which all of `channels` are free (all channels, when
    /// `channels` is empty).
    pub fn get_usage(&self, channels: &[ChannelId]) -> (r: Time)
        ensures
            r == usage_get(self.channels(), self.state(), channels@),
    {
        if self.all_channels.len() == 0 {
            return self.single;
        }
        let ids = if channels.len() == 0 { self.all_channels } else { channels };
        let mut best: Option<Time> = None;
        let mut i: usize = 0;
        while i < ids.len()
            invariant
                i <= ids@.len(),
                ids@ == occupied(self.channels(), channels@),
                best == present_max(self.state().1, ids@.subrange(0, i as int)),
            decreases ids@.len() - i,
        {
            let v = self.per_channel.get(ids[i]);
            proof {
                assert(ids@.subrange(0, i + 1).subrange(0, i as int) == ids@.subrange(0, i as int));
            }
            if let Some(v) = v {
                best = match best {
                    Some(b) => Some(if b >= v { b } else { v }),
                    None => Some(v),
                };
            }
            i += 1;
        }
        proof {
            assert(ids@.subrange(0, ids@.len() as int) == ids@);
        }
        match best {
            Some(v) => v,
            None => TIME_ZERO,
        }
    }

    /// Marks all of `channels` (all channels, when `channels` is empty) as
    /// occupied up to `new_duration`.
    pub fn update_usage(&mut self, new_duration: Time, channels: &[ChannelId])
        ensures
            final(self).channels() == old(self).channels(),
            final(self).state() == usage_update(old(self).channels(), old(self).state(), new_duration, channels@),
    {
        if self.all_channels.len() == 0 {
            self.single = new_duration;
            return;
        }
        let ids = if channels.len() == 0 { self.all_channels } else { channels };
        let ghost m0 = usage_entries(self.per_channel);
        let mut i: usize = 0;
        while i < ids.len()
            invariant
                i <= ids@.len(),
                ids@ == occupied(self.channels(), channels@),
                self.channels() == old(self).channels(),
                self.single == old(self).single,
                old(self).channels().len() > 0,
                m0 == old(self).state().1,
                usage_entries(self.per_channel) == set_all(m0, ids@.subrange(0, i as int), new_duration),
            decreases ids@.len() - i,
        {
            self.per_channel.insert(ids[i], new_duration);
            proof {
                assert(ids@.subrange(0, i + 1).subrange(0, i as int) == ids@.subrange(0, i as int));
            }
            i += 1;
        }
        proof {
            assert(ids@.subrange(0, ids@.len() as int) == ids@);
        }
    }

    /// The latest clock of all channels.
    pub fn into_max_usage(self) -> (r: Time)
        ensures
            r == usage_max(self.channels(), self.state()),
    {
        self.get_usage(&[])
    }
}

/// What a stack reads of each measured child: its channels and its duration.
pub open spec fn stack_items(children: Seq<MeasuredElement>) -> Seq<(Seq<ChannelId>, Time)> {
    children.map_values(|m: MeasuredElement| (channel_seq(*m.element), m.duration))
}

/// The position of the `k`-th visited child, visiting in `direction`'s order.
pub open spec fn visit_index(n: int, direction: Direction, k: int) -> int {
    match direction {
        Direction::Forward => k,
        Direction::Backward => n - 1 - k,
    }
}

/// The channel clocks after the first `k` visited children have been placed.
pub open spec fn stack_state(all: Seq<ChannelId>, items: Seq<(Seq<ChannelId>, Time)>, direction: Direction, k: int) -> UsageState
    decreases k,
{
    if k <= 0 {
        (0i64, no_usage())
    } else {
        let prev = stack_state(all, items, direction, k - 1);
        let item = items[visit_index(items.len() as int, direction, k - 1)];
        let offset = usage_get(all, prev, item.0);
        usage_update(all, prev, sat(offset + item.1) as Time, item.0)
    }
}

/// The measured offset of child `j`: the time from which its channels are
/// free once the children visited before it have been placed.
pub open spec fn stack_offset(all: Seq<ChannelId>, items: Seq<(Seq<ChannelId>, Time)>, direction: Direction, j: int) -> Time {
    usage_get(all, stack_state(all, items, direction, visit_index(items.len() as int, direction, j)), items[j].0)
}

/// The measured duration of a stack: the latest channel clock once every
/// child has been placed.
pub open spec fn stack_total(all: Seq<ChannelId>, items: Seq<(Seq<ChannelId>, Time)>, direction: Direction) -> Time {
    usage_max(all, stack_state(all, items, direction, items.len() as int))
}

/// Where a child with measured `offset` and `duration` starts within a stack
/// of final length `final_duration`: mirrored for a backward stack.
pub open spec fn stack_place(final_duration: Time, offset: Time, duration: Time, direction: Direction) -> Time {
    match direction {
        Direction::Forward => offset,
        Direction::Backward => sat(sat(final_duration - offset) - duration) as Time,
    }
}

/// Places the children one after another on each of their channels, visiting
/// them in `direction`'s order. Returns the total duration and the offset of
/// each child, in the children's order.
pub fn measure_stack(children: &Vec<MeasuredElement>, channels: &[ChannelId], direction: Direction) -> (r: (Time, Vec<Time>))
    ensures
        r.0 == stack_total(channels@, stack_items(children@), direction),
        r.1@.len() == children@.len(),
        forall|j: int| 0 <= j < children@.len() ==> #[trigger] r.1@[j] == stack_offset(channels@, stack_items(children@), direction, j),
{
    let ghost items = stack_items(children@);
    let n = children.len();
    let mut offsets: Vec<Time> = Vec::new();
    let mut k: usize = 0;
    while k < n
        invariant
            k <= n,
            offsets@.len() == k,
        decreases n - k,
    {
        offsets.push(TIME_ZERO);
        k += 1;
    }
    let mut helper = Helper::new(channels);
    let mut k: usize = 0;
    while k < n
        invariant
            n == children@.len(),
            items == stack_items(children@),
            k <= n,
            offsets@.len() == n,
            helper.channels() == channels@,
            helper.state() == stack_state(channels@, items, direction, k as int),
            forall|k2: int| 0 <= k2 < k ==> #[trigger] offsets@[visit_index(n as int, direction, k2)] == stack_offset(channels@, items, direction, visit_index(n as int, direction, k2)),
        decreases n - k,
    {
        let idx = match direction {
            Direction::Forward => k,
            Direction::Backward => n - 1 - k,
        };
        let child = &children[idx];
        let child_channels = child.element.channels();
        let child_offset = helper.get_usage(child_channels);
        helper.update_usage(add_time(child_offset, child.duration), child_channels);
        offsets.set(idx, child_offset);
        proof {
            assert(visit_index(n as int, direction, visit_index(n as int, direction, k as int)) == k);
            assert forall|k2: int| 0 <= k2 < k + 1 implies #[trigger] offsets@[visit_index(n as int, direction, k2)] == stack_offset(channels@, items, direction, visit_index(n as int, direction, k2)) by {
                if k2 < k {
                    assert(visit_index(n as int, direction, k2) != idx);
                }
            }
        }
        k += 1;
    }
    proof {
        assert forall|j: int| 0 <= j < n implies #[trigger] offsets@[j] == stack_offset(channels@, items, direction, j) by {
            let k2 = visit_index(n as int, direction, j);
            assert(visit_index(n as int, direction, k2) == j);
            assert(0 <= k2 < n);
        }
    }
    (helper.into_max_usage(), offsets)
}

/// The final offset of each child of a stack of length `final_duration`,
/// given the measured offsets, and the duration each child is arranged with.
pub fn arrange_stack(children: &Vec<MeasuredElement>, offsets: &Vec<Time>, final_duration: Time, direction: Direction) -> (r: Vec<(Time, Time)>)
    requires
        offsets@.len() == children@.len(),
    ensures
        r@.len() == children@.len(),
        forall|j: int| 0 <= j < children@.len() ==> #[trigger] r@[j] == (
            stack_place(final_duration, offsets@[j], children@[j].duration, direction),
            children@[j].duration,
        ),
{
    let mut r: Vec<(Time, Time)> = Vec::new();
    let mut j: usize = 0;
    while j < children.len()
        invariant
            offsets@.len() == children@.len(),
            j <= children@.len(),
            r@.len() == j,
            forall|i: int| 0 <= i < j ==> #[trigger] r@[i] == (
                stack_place(final_duration, offsets@[i], children@[i].duration, direction),
                children@[i].duration,
            ),
        decreases children@.len() - j,
    {
        let child_duration = children[j].duration;
        let final_offset = match direction {
            Direction::Forward => offsets[j],
            Direction::Backward => sub_time(sub_time(final_duration, offsets[j]), child_duration),
        };
        r.push((final_offset, child_duration));
        j += 1;
    }
    r
}

proof fn lemma_set_all(m: Map<ChannelId, Time>, ids: Seq<ChannelId>, t: Time, k: ChannelId)
    ensures
        set_all(m, ids, t).contains_key(k) == (m.contains_key(k) || ids.contains(k)),
        ids.contains(k) ==> set_all(m, ids, t)[k] == t,
        !ids.contains(k) && m.contains_key(k) ==> set_all(m, ids, t)[k] == m[k],
    decreases ids.len(),
{
    if ids.len() > 0 {
        let init = ids.subrange(0, ids.len() - 1);
        lemma_set_all(m, init, t, k);
        assert(ids == init.push(ids.last()));
        assert(ids.contains(k) == (init.contains(k) || ids.last() == k)) by {
            if ids.contains(k) && ids.last() != k {
                let i = choose|i: int| 0 <= i < ids.len() && ids[i] == k;
                assert(init[i] == k);
            }
            if init.contains(k) {
                let i = choose|i: int| 0 <= i < init.len() && init[i] == k;
                assert(ids[i] == k);
            }
        }
    }
}

proof fn lemma_present_max(m: Map<ChannelId, Time>, ids: Seq<ChannelId>)
    ensures
        present_max(m, ids) is None <==> forall|i: int| 0 <= i < ids.len() ==> !m.contains_key(#[trigger] ids[i]),
        present_max(m, ids) matches Some(v) ==> (exists|i: int| 0 <= i < ids.len() && m.contains_key(#[trigger] ids[i]) && m[ids[i]] == v)
            && forall|i: int| 0 <= i < ids.len() && m.contains_key(#[trigger] ids[i]) ==> m[ids[i]] <= v,
    decreases ids.len(),
{
    if ids.len() > 0 {
        let init = ids.subrange(0, ids.len() - 1);
        lemma_present_max(m, init);
        assert forall|i: int| 0 <= i < init.len() implies #[trigger] init[i] == ids[i] by {}
        if let Some(v) = present_max(m, ids) {
            if let Some(w) = present_max(m, init) {
                let j = choose|i: int| 0 <= i < init.len() && m.contains_key(#[trigger] init[i]) && m[init[i]] == w;
                assert(m.contains_key(ids[j]) && m[ids[j]] == w);
            }
            assert forall|i: int| 0 <= i < ids.len() && m.contains_key(#[trigger] ids[i]) implies m[ids[i]] <= v by {
                if i < ids.len() - 1 {
                    assert(m.contains_key(init[i]));
                }
            }
        } else {
            assert forall|i: int| 0 <= i < ids.len() implies !m.contains_key(#[trigger] ids[i]) by {
                if i < ids.len() - 1 {
                    assert(init[i] == ids[i]);
                }
            }
        }
    }
}

/// Whether two children with channel lists `a` and `b` (empty meaning all of
/// `all`) compete for a clock: they share a channel, or the stack tracks a
/// single clock because it names no channel.
pub open spec fn share_clock(all: Seq<ChannelId>, a: Seq<ChannelId>, b: Seq<ChannelId>) -> bool {
    all.len() == 0 || exists|c: ChannelId| occupied(all, a).contains(c) && occupied(all, b).contains(c)
}

/// The total and offsets of a stack whose first visited child uses `ca` for
/// `da` and whose second uses `cb` for `db`, when the stack names channels.
proof fn lemma_two_children(all: Seq<ChannelId>, ca: Seq<ChannelId>, da: Time, cb: Seq<ChannelId>, db: Time, items: Seq<(Seq<ChannelId>, Time)>, direction: Direction)
    requires
        items.len() == 2,
        items[visit_index(2, direction, 0)] == (ca, da),
        items[visit_index(2, direction, 1)] == (cb, db),
        all.len() > 0,
        forall|c: ChannelId| ca.contains(c) || cb.contains(c) ==> all.contains(c),
        0 <= da < TIME_INFINITY,
        0 <= db < TIME_INFINITY,
    ensures
        stack_offset(all, items, direction, visit_index(2, direction, 0)) == 0,
        stack_offset(all, items, direction, visit_index(2, direction, 1)) == if share_clock(all, ca, cb) { da } else { 0 },
        share_clock(all, ca, cb) ==> stack_total(all, items, direction) == sat(da + db),
        !share_clock(all, ca, cb) ==> stack_total(all, items, direction) == max_time(da as int, db as int),
{
    let ea = occupied(all, ca);
    let eb = occupied(all, cb);
    assert(forall|c: ChannelId| ea.contains(c) || eb.contains(c) ==> all.contains(c));
    assert(ea.len() > 0 && eb.len() > 0);
    let first = visit_index(2, direction, 0);
    let second = visit_index(2, direction, 1);
    assert(visit_index(2, direction, first) == 0);
    assert(visit_index(2, direction, second) == 1);
    let st0 = stack_state(all, items, direction, 0);
    assert(st0 == (0i64, no_usage()));
    lemma_present_max(no_usage(), ea);
    assert(usage_get(all, st0, ca) == 0);
    let st1 = stack_state(all, items, direction, 1);
    assert(st1.1 == set_all(no_usage(), ea, da));
    let m1 = st1.1;
    lemma_present_max(m1, eb);
    let off = usage_get(all, st1, cb);
    let shared = share_clock(all, ca, cb);
    if shared {
        let c = choose|c: ChannelId| ea.contains(c) && eb.contains(c);
        let i = choose|i: int| 0 <= i < eb.len() && eb[i] == c;
        lemma_set_all(no_usage(), ea, da, eb[i]);
        assert(m1.contains_key(eb[i]));
        let v = present_max(m1, eb)->Some_0;
        let j = choose|j: int| 0 <= j < eb.len() && m1.contains_key(#[trigger] eb[j]) && m1[eb[j]] == v;
        lemma_set_all(no_usage(), ea, da, eb[j]);
        assert(off == da);
    } else {
        assert forall|i: int| 0 <= i < eb.len() implies !m1.contains_key(#[trigger] eb[i]) by {
            lemma_set_all(no_usage(), ea, da, eb[i]);
        }
        assert(off == 0);
    }
    let st2 = stack_state(all, items, direction, 2);
    let end = sat(off + db) as Time;
    assert(st2.1 == set_all(m1, eb, end));
    let m2 = st2.1;
    lemma_present_max(m2, all);
    let expected = if shared { sat(da + db) } else { max_time(da as int, db as int) };
    // A channel of `eb` carries `end`; one of `ea` carries `da` or `end`.
    let kb = eb[0];
    assert(eb.contains(kb));
    let ib = choose|i: int| 0 <= i < all.len() && all[i] == kb;
    lemma_set_all(m1, eb, end, kb);
    assert(m2.contains_key(all[ib]) && m2[all[ib]] == end);
    let ka = ea[0];
    assert(ea.contains(ka));
    let ia = choose|i: int| 0 <= i < all.len() && all[i] == ka;
    lemma_set_all(no_usage(), ea, da, ka);
    lemma_set_all(m1, eb, end, ka);
    assert(m2.contains_key(all[ia]) && (m2[all[ia]] == da || m2[all[ia]] == end));
    let v = present_max(m2, all)->Some_0;
    let k = choose|i: int| 0 <= i < all.len() && m2.contains_key(#[trigger] all[i]) && m2[all[i]] == v;
    lemma_set_all(m1, eb, end, all[k]);
    lemma_set_all(no_usage(), ea, da, all[k]);
    if !eb.contains(all[k]) {
        assert(ea.contains(all[k]));
        assert(v == da);
        if !shared {
            assert(!eb.contains(ka) ==> m2[all[ia]] == da);
        }
    }
    assert(stack_total(all, items, direction) == v);
    assert(v >= end);
    assert(v == expected);
}

/// A stack of two children, whose channels the stack names, lasts the sum
/// of their durations when they compete for a clock (they share a channel,
/// an empty channel list meaning all of them), and the longer of the two
/// when they do not. Either way it lasts at least as long as each child,
/// and each child ends within it.
pub proof fn lemma_two_children_stack(all: Seq<ChannelId>, items: Seq<(Seq<ChannelId>, Time)>, direction: Direction)
    requires
        items.len() == 2,
        forall|c: ChannelId| items[0].0.contains(c) || items[1].0.contains(c) ==> all.contains(c),
        0 <= items[0].1 < TIME_INFINITY,
        0 <= items[1].1 < TIME_INFINITY,
    ensures
        stack_total(all, items, direction) >= max_time(items[0].1 as int, items[1].1 as int),
        share_clock(all, items[0].0, items[1].0) ==> stack_total(all, items, direction) == sat(items[0].1 + items[1].1),
        !share_clock(all, items[0].0, items[1].0) ==> stack_total(all, items, direction) == max_time(items[0].1 as int, items[1].1 as int),
        forall|j: int| 0 <= j < 2 ==> sat(stack_offset(all, items, direction, j) + #[trigger] items[j].1) <= stack_total(all, items, direction),
{
    let (c0, d0, c1, d1) = (items[0].0, items[0].1, items[1].0, items[1].1);
    if all.len() == 0 {
        let first = visit_index(2, direction, 0);
        let second = visit_index(2, direction, 1);
        assert(visit_index(2, direction, first) == 0);
        assert(visit_index(2, direction, second) == 1);
        assert(stack_state(all, items, direction, 0) == (0i64, no_usage()));
        assert(usage_get(all, stack_state(all, items, direction, 0), items[first].0) == 0);
        assert(stack_state(all, items, direction, 1).0 == items[first].1);
        assert(stack_state(all, items, direction, 2).0 == sat(items[first].1 + items[second].1));
        assert(stack_offset(all, items, direction, first) == 0);
        assert(stack_offset(all, items, direction, second) == items[first].1);
    } else {
        match direction {
            Direction::Forward => lemma_two_children(all, c0, d0, c1, d1, items, direction),
            Direction::Backward => {
                lemma_two_children(all, c1, d1, c0, d0, items, direction);
                assert(share_clock(all, c0, c1) == share_clock(all, c1, c0));
            },
        }
    }
}

/// `items` in reverse order.
pub open spec fn reversed(items: Seq<(Seq<ChannelId>, Time)>) -> Seq<(Seq<ChannelId>, Time)> {
    Seq::new(items.len(), |i: int| items[items.len() - 1 - i])
}

proof fn lemma_backward_state(all: Seq<ChannelId>, items: Seq<(Seq<ChannelId>, Time)>, k: int)
    requires
        0 <= k <= items.len(),
    ensures
        stack_state(all, items, Direction::Backward, k) == stack_state(all, reversed(items), Direction::Forward, k),
    decreases k,
{
    if k > 0 {
        lemma_backward_state(all, items, k - 1);
        assert(reversed(items)[k - 1] == items[items.len() - 1 - (k - 1)]);
    }
}

/// A backward stack is the mirror of the forward stack of the reversed
/// children: it has the same total, and each child's interval within a
/// final length `final_duration` is the image under `t -> final_duration - t`
/// of the interval that the forward stack of the reversed children gives it.
pub proof fn lemma_backward_mirrors_forward(all: Seq<ChannelId>, items: Seq<(Seq<ChannelId>, Time)>, final_duration: Time)
    ensures
        stack_total(all, items, Direction::Backward) == stack_total(all, reversed(items), Direction::Forward),
        forall|j: int| 0 <= j < items.len() ==> #[trigger] stack_place(final_duration, stack_offset(all, items, Direction::Backward, j), items[j].1, Direction::Backward)
            == sat(sat(final_duration - stack_offset(all, reversed(items), Direction::Forward, items.len() - 1 - j)) - items[j].1),
{
    let n = items.len() as int;
    lemma_backward_state(all, items, n);
    assert forall|j: int| 0 <= j < n implies #[trigger] stack_place(final_duration, stack_offset(all, items, Direction::Backward, j), items[j].1, Direction::Backward)
        == sat(sat(final_duration - stack_offset(all, reversed(items), Direction::Forward, n - 1 - j)) - items[j].1) by {
        lemma_backward_state(all, items, n - 1 - j);
        assert(reversed(items)[n - 1 - j] == items[j]);
    }
}

/// Maps `f` over `source`, calling it on each item in `direction`'s order,
/// and collects the results in `source`'s order. Stops at the first error
/// and returns it.
pub fn map_and_collect_by_direction<T, U, F>(source: &Vec<T>, direction: Direction, mut f: F) -> (r: Result<Vec<U>, ScheduleError>)
    where
        F: FnMut(&T) -> Result<U, ScheduleError>,
    requires
        forall|x: &T| #[trigger] f.requires((x,)),
    ensures
        source@.len() == 0 ==> r is Ok,
        r matches Ok(v) ==> v@.len() == source@.len(),
        r matches Ok(v) ==> forall|j: int| 0 <= j < source@.len() ==> f.ensures((&source@[j],), Ok::<U, ScheduleError>(#[trigger] v@[j])),
        r matches Err(e) ==> exists|j: int| 0 <= j < source@.len() && #[trigger] f.ensures((&source@[j],), Err::<U, ScheduleError>(e)),
{
    let ghost f0 = f;
    let n = source.len();
    let mut done: Vec<U> = Vec::new();
    let mut failure: Option<ScheduleError> = None;
    let mut k: usize = 0;
    while k < n && failure.is_none()
        invariant
            n == source@.len(),
            done@.len() == k,
            k <= n,
            f == f0,
            forall|x: &T| #[trigger] f.requires((x,)),
            forall|k2: int| 0 <= k2 < k ==> f0.ensures(
                (&source@[visit_index(n as int, direction, k2)],),
                Ok::<U, ScheduleError>(#[trigger] done@[k2]),
            ),
            failure matches Some(e) ==> exists|j: int| 0 <= j < n && #[trigger] f0.ensures((&source@[j],), Err::<U, ScheduleError>(e)),
        decreases n - k + if failure is None { 1int } else { 0int },
    {
        let idx = match direction {
            Direction::Forward => k,
            Direction::Backward => n - 1 - k,
        };
        let v = f(&source[idx]);
        match v {
            Ok(x) => {
                done.push(x);
                k += 1;
            },
            Err(e) => {
                proof {
                    assert(f0.ensures((&source@[idx as int],), Err::<U, ScheduleError>(e)));
                }
                failure = Some(e);
            },
        }
    }
    if let Some(e) = failure {
        return Err(e);
    }
    if direction == Direction::Forward {
        proof {
            assert forall|j: int| 0 <= j < n implies f0.ensures((&source@[j],), Ok::<U, ScheduleError>(#[trigger] done@[j])) by {
                assert(visit_index(n as int, direction, j) == j);
            }
        }
        return Ok(done);
    }
    let mut ret: Vec<U> = Vec::new();
    while done.len() > 0
        invariant
            n == source@.len(),
            direction == Direction::Backward,
            ret@.len() + done@.len() == n,
            forall|k2: int| 0 <= k2 < done@.len() ==> f0.ensures((&source@[n - 1 - k2],), Ok::<U, ScheduleError>(#[trigger] done@[k2])),
            forall|j: int| 0 <= j < ret@.len() ==> f0.ensures((&source@[j],), Ok::<U, ScheduleError>(#[trigger] ret@[j])),
        decreases done@.len(),
    {
        let ghost before = done@;
        let x = done.pop().unwrap();
        proof {
            assert(x == before[before.len() - 1]);
            assert(f0.ensures((&source@[n - 1 - (before.len() - 1)],), Ok::<U, ScheduleError>(before[before.len() - 1])));
            assert forall|k2: int| 0 <= k2 < done@.len() implies f0.ensures((&source@[n - 1 - k2],), Ok::<U, ScheduleError>(#[trigger] done@[k2])) by {
                assert(done@[k2] == before[k2]);
            }
        }
        ret.push(x);
    }
    Ok(ret)
}

} // verus!
