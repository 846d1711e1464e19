use vstd::prelude::*;
use crate::ids::{IntersectionID, Tick, TurnID};

verus! {

/// Precedence class of a turn at a stop-sign intersection, lowest first.
/// [`TurnPriority::Stop`] is the distinguished "must fully stop" class.
#[derive(Clone, Copy, PartialEq, Eq, Structural, Debug)]
pub enum TurnPriority {
    Stop,
    Yield,
    Priority,
}

impl TurnPriority {
    /// Numeric rank; a strictly greater rank takes precedence.
    pub open spec fn rank(self) -> int {
        match self {
            TurnPriority::Stop => 0,
            TurnPriority::Yield => 1,
            TurnPriority::Priority => 2,
        }
    }

    /// Numeric rank, executable form.
    pub fn rank_value(self) -> (r: u8)
        ensures
            r as int == self.rank(),
    {
        match self {
            TurnPriority::Stop => 0,
            TurnPriority::Yield => 1,
            TurnPriority::Priority => 2,
        }
    }

    /// Whether `self` ranks strictly above `other`.
    pub fn is_higher_than(self, other: TurnPriority) -> (r: bool)
        ensures
            r == (self.rank() > other.rank()),
    {
        self.rank_value() > other.rank_value()
    }
}

/// Static stop-sign configuration for one intersection: a priority class per
/// turn, indexed by [`TurnID`].
pub struct ControlStopSign {
    priorities: Vec<TurnPriority>,
}

impl ControlStopSign {
    /// How many turns have a configured priority.
    pub closed spec fn turn_count(self) -> int {
        self.priorities@.len() as int
    }

    /// The configured priority of `t`.
    pub closed spec fn priority(self, t: TurnID) -> TurnPriority {
        self.priorities@[t.0 as int]
    }

    /// Configuration with the given priority per turn, indexed by turn.
    pub fn new(priorities: Vec<TurnPriority>) -> (r: ControlStopSign)
        ensures
            r.turn_count() == priorities@.len(),
            forall|t: TurnID| t.0 < priorities@.len() ==> #[trigger] r.priority(t) == priorities@[t.0 as int],
    {
        ControlStopSign { priorities }
    }

    /// How many turns have a configured priority.
    pub fn covered_turns(&self) -> (r: usize)
        ensures
            r as int == self.turn_count(),
    {
        self.priorities.len()
    }

    /// The configured priority of `t`.
    pub fn get_priority(&self, t: TurnID) -> (r: TurnPriority)
        requires
            t.0 < self.turn_count(),
        ensures
            r == self.priority(t),
    {
        self.priorities[t.0]
    }
}

/// One phase of a traffic signal: the set of turns it makes legal and its
/// duration in ticks.
pub struct Cycle {
    turns: Vec<TurnID>,
    duration: u64,
}

impl Cycle {
    /// The turns legal during this cycle.
    pub closed spec fn spec_turns(self) -> Seq<TurnID> {
        self.turns@
    }

    /// Duration of this cycle, in ticks.
    pub closed spec fn spec_duration(self) -> u64 {
        self.duration
    }

    /// `t` is legal during this cycle.
    pub open spec fn spec_contains(self, t: TurnID) -> bool {
        self.spec_turns().contains(t)
    }

    /// A cycle making `turns` legal for `duration` ticks.
    pub fn new(turns: Vec<TurnID>, duration: u64) -> (r: Cycle)
        ensures
            r.spec_turns() == turns@,
            r.spec_duration() == duration,
    {
        Cycle { turns, duration }
    }

    /// Whether `t` is legal during this cycle.
    pub fn contains(&self, t: TurnID) -> (r: bool)
        ensures
            r == self.spec_contains(t),
    {
        let n = self.turns.len();
        let mut i: usize = 0;
        while i < n
            invariant
                i <= n,
                n == self.spec_turns().len(),
                forall|j: int| 0 <= j < i ==> self.spec_turns()[j] != t,
            decreases n - i,
        {
            if self.turns[i] == t {
                return true;
            }
            i += 1;
        }
        false
    }

    /// Duration of this cycle, in ticks.
    pub fn duration(&self) -> (r: u64)
        ensures
            r == self.spec_duration(),
    {
        self.duration
    }
}

/// Total duration, in ticks, of a sequence of cycles.
pub open spec fn sum_durations(s: Seq<Cycle>) -> int
    decreases s.len(),
{
    if s.len() == 0 {
        0
    } else {
        sum_durations(s.drop_last()) + s.last().spec_duration()
    }
}

proof fn lemma_sum_nonneg(s: Seq<Cycle>)
    ensures
        sum_durations(s) >= 0,
    decreases s.len(),
{
    if s.len() > 0 {
        lemma_sum_nonneg(s.drop_last());
    }
}

proof fn lemma_sum_prefix_le(s: Seq<Cycle>, k: int)
    requires
        0 <= k <= s.len(),
    ensures
        sum_durations(s.subrange(0, k)) <= sum_durations(s),
    decreases s.len() - k,
{
    if k == s.len() {
        assert(s.subrange(0, k) =~= s);
    } else {
        assert(s.subrange(0, k + 1).drop_last() =~= s.subrange(0, k));
        assert(s.subrange(0, k + 1).last() == s[k]);
        lemma_sum_prefix_le(s, k + 1);
    }
}

/// Index of the active cycle at offset `m` into the schedule, counting from
/// the front of `s`.
pub open spec fn cycle_index_at(s: Seq<Cycle>, m: int) -> int
    decreases s.len(),
{
    if s.len() <= 0 {
        0
    } else if m < s[0].spec_duration() {
        0
    } else {
        1 + cycle_index_at(s.subrange(1, s.len() as int), m - s[0].spec_duration())
    }
}

/// Ticks left in the active cycle at offset `m` into the schedule.
pub open spec fn remaining_at(s: Seq<Cycle>, m: int) -> int
    decreases s.len(),
{
    if s.len() <= 0 {
        0
    } else if m < s[0].spec_duration() {
        s[0].spec_duration() - m
    } else {
        remaining_at(s.subrange(1, s.len() as int), m - s[0].spec_duration())
    }
}

/// `s` is a usable signal schedule: at least one cycle, no zero-length cycle,
/// and a total duration that fits a tick counter.
pub open spec fn signal_config_ok(s: Seq<Cycle>) -> bool {
    &&& s.len() >= 1
    &&& forall|i: int| 0 <= i < s.len() ==> (#[trigger] s[i]).spec_duration() >= 1
    &&& sum_durations(s) <= u64::MAX
}

/// Static traffic-signal configuration for one intersection: a repeating
/// schedule of cycles.
pub struct ControlTrafficSignal {
    cycles: Vec<Cycle>,
    total: u64,
}

impl ControlTrafficSignal {
    /// The schedule.
    pub closed spec fn cycles_seq(self) -> Seq<Cycle> {
        self.cycles@
    }

    /// The cached total equals the schedule's summed duration and the
    /// schedule is usable.
    pub open spec fn wf(self) -> bool {
        &&& signal_config_ok(self.cycles_seq())
        &&& self.spec_total() == sum_durations(self.cycles_seq())
    }

    /// Total duration of one trip through the schedule, in ticks.
    pub closed spec fn spec_total(self) -> int {
        self.total as int
    }

    /// Offset into the repeating schedule at `time`.
    pub open spec fn offset_at(self, time: Tick) -> int {
        (time.0 as int) % self.spec_total()
    }

    /// Index of the cycle active at `time`.
    pub open spec fn active_cycle_index(self, time: Tick) -> int {
        cycle_index_at(self.cycles_seq(), self.offset_at(time))
    }

    /// The cycle active at `time`.
    pub open spec fn active_cycle(self, time: Tick) -> Cycle {
        self.cycles_seq()[self.active_cycle_index(time)]
    }

    /// Ticks remaining in the cycle active at `time`.
    pub open spec fn remaining_time(self, time: Tick) -> int {
        remaining_at(self.cycles_seq(), self.offset_at(time))
    }

    /// A signal configuration over `cycles`, or `None` exactly when the
    /// schedule is unusable (empty, a zero-length cycle, or a total duration
    /// overflowing a tick counter).
    pub fn new(cycles: Vec<Cycle>) -> (r: Option<ControlTrafficSignal>)
        ensures
            r is Some <==> signal_config_ok(cycles@),
            r is Some ==> r->0.wf() && r->0.cycles_seq() == cycles@,
    {
        let n = cycles.len();
        if n == 0 {
            return None;
        }
        let mut partial: u64 = 0;
        let mut i: usize = 0;
        while i < n
            invariant
                i <= n,
                n == cycles@.len(),
                partial as int == sum_durations(cycles@.subrange(0, i as int)),
                forall|j: int| 0 <= j < i ==> (#[trigger] cycles@[j]).spec_duration() >= 1,
            decreases n - i,
        {
            let d = cycles[i].duration();
            if d == 0 {
                return None;
            }
            proof {
                assert(cycles@.subrange(0, i + 1 as int).drop_last() =~= cycles@.subrange(
                    0,
                    i as int,
                ));
                assert(cycles@.subrange(0, i + 1 as int).last() == cycles@[i as int]);
            }
            if partial > u64::MAX - d {
                proof {
                    lemma_sum_prefix_le(cycles@, i + 1 as int);
                }
                return None;
            }
            partial = partial + d;
            i += 1;
        }
        proof {
            assert(cycles@.subrange(0, n as int) =~= cycles@);
        }
        Some(ControlTrafficSignal { cycles, total: partial })
    }

    /// The `i`th cycle of the schedule.
    pub fn get_cycle(&self, i: usize) -> (r: &Cycle)
        requires
            i < self.cycles_seq().len(),
        ensures
            *r == self.cycles_seq()[i as int],
    {
        &self.cycles[i]
    }

    /// The cycle active at `time` and the ticks remaining in it before the
    /// signal moves on to the next cycle.
    pub fn current_cycle_and_remaining_time(&self, time: Tick) -> (r: (usize, u64))
        requires
            self.wf(),
        ensures
            r.0 as int == self.active_cycle_index(time),
            0 <= r.0 < self.cycles_seq().len(),
            r.1 as int == self.remaining_time(time),
            1 <= r.1 <= self.cycles_seq()[r.0 as int].spec_duration(),
    {
        let total = self.total;
        proof {
            lemma_sum_nonneg(self.cycles_seq().drop_last());
            assert(self.cycles_seq()[self.cycles_seq().len() - 1].spec_duration() >= 1);
            assert(total >= 1);
        }
        let mut t: u64 = time.0 % total;
        let ghost m = self.offset_at(time);
        proof {
            assert(0 <= m < total as int) by (nonlinear_arith)
                requires
                    m == (time.0 as int) % (total as int),
                    total as int >= 1,
            ;
        }
        let n = self.cycles.len();
        let mut i: usize = 0;
        proof {
            assert(self.cycles_seq().subrange(0, 0) =~= Seq::<Cycle>::empty());
            assert(self.cycles_seq().subrange(0, n as int) =~= self.cycles_seq());
        }
        while i < n
            invariant
                self.wf(),
                m == self.offset_at(time),
                i <= n,
                n == self.cycles_seq().len(),
                t as int == m - sum_durations(self.cycles_seq().subrange(0, i as int)),
                0 <= m < sum_durations(self.cycles_seq()),
                cycle_index_at(self.cycles_seq(), m) == i + cycle_index_at(
                    self.cycles_seq().subrange(i as int, n as int),
                    t as int,
                ),
                remaining_at(self.cycles_seq(), m) == remaining_at(
                    self.cycles_seq().subrange(i as int, n as int),
                    t as int,
                ),
            decreases n - i,
        {
            let ghost suffix = self.cycles_seq().subrange(i as int, n as int);
            let d = self.cycles[i].duration();
            proof {
                assert(suffix[0] == self.cycles_seq()[i as int]);
            }
            if t < d {
                proof {
                    assert(suffix.len() > 0);
                    assert(cycle_index_at(suffix, t as int) == 0);
                    assert(remaining_at(suffix, t as int) == d - t);
                }
                return (i, d - t);
            }
            proof {
                assert(suffix.subrange(1, suffix.len() as int) =~= self.cycles_seq().subrange(
                    i + 1 as int,
                    n as int,
                ));
                assert(self.cycles_seq().subrange(0, i + 1 as int).drop_last()
                    =~= self.cycles_seq().subrange(0, i as int));
                assert(self.cycles_seq().subrange(0, i + 1 as int).last()
                    == self.cycles_seq()[i as int]);
            }
            t = t - d;
            i += 1;
        }
        proof {
            assert(self.cycles_seq().subrange(0, n as int) =~= self.cycles_seq());
            assert(false);
        }
        vstd::pervasive::unreached()
    }
}

/// Static traffic-control configuration for every intersection: at most one
/// stop-sign or traffic-signal configuration per [`IntersectionID`].
pub struct ControlMap {
    stop_signs: Vec<Option<ControlStopSign>>,
    traffic_signals: Vec<Option<ControlTrafficSignal>>,
}

impl ControlMap {
    /// How many intersections this map covers.
    pub closed spec fn intersection_count(self) -> int {
        self.stop_signs@.len() as int
    }

    /// Both tables cover the same intersections.
    pub closed spec fn wf(self) -> bool {
        self.traffic_signals@.len() == self.stop_signs@.len()
    }

    /// A stop-sign configuration is present for `id`.
    pub closed spec fn has_stop_sign(self, id: IntersectionID) -> bool {
        id.0 < self.stop_signs@.len() && self.stop_signs@[id.0 as int] is Some
    }

    /// The stop-sign configuration for `id`.
    pub closed spec fn stop_sign(self, id: IntersectionID) -> ControlStopSign {
        self.stop_signs@[id.0 as int]->0
    }

    /// A traffic-signal configuration is present for `id`.
    pub closed spec fn has_traffic_signal(self, id: IntersectionID) -> bool {
        id.0 < self.traffic_signals@.len() && self.traffic_signals@[id.0 as int] is Some
    }

    /// The traffic-signal configuration for `id`.
    pub closed spec fn traffic_signal(self, id: IntersectionID) -> ControlTrafficSignal {
        self.traffic_signals@[id.0 as int]->0
    }

    /// A map over `num_intersections` intersections with no configuration yet.
    pub fn new(num_intersections: usize) -> (r: ControlMap)
        ensures
            r.wf(),
            r.intersection_count() == num_intersections,
            forall|id: IntersectionID| !(#[trigger] r.has_stop_sign(id)),
            forall|id: IntersectionID| !(#[trigger] r.has_traffic_signal(id)),
    {
        let mut stop_signs: Vec<Option<ControlStopSign>> = Vec::new();
        let mut traffic_signals: Vec<Option<ControlTrafficSignal>> = Vec::new();
        let mut i: usize = 0;
        while i < num_intersections
            invariant
                i <= num_intersections,
                stop_signs@.len() == i as int,
                traffic_signals@.len() == i as int,
                forall|j: int| 0 <= j < i ==> (#[trigger] stop_signs@[j]) is None,
                forall|j: int| 0 <= j < i ==> (#[trigger] traffic_signals@[j]) is None,
            decreases num_intersections - i,
        {
            stop_signs.push(None);
            traffic_signals.push(None);
            i += 1;
        }
        ControlMap { stop_signs, traffic_signals }
    }

    /// Configure a stop sign at `id`.
    pub fn set_stop_sign(&mut self, id: IntersectionID, ss: ControlStopSign)
        requires
            old(self).wf(),
            id.0 < old(self).intersection_count(),
        ensures
            final(self).wf(),
            final(self).intersection_count() == old(self).intersection_count(),
            final(self).has_stop_sign(id),
            final(self).stop_sign(id) == ss,
            forall|x: IntersectionID|
                x != id ==> #[trigger] final(self).has_stop_sign(x) == old(self).has_stop_sign(x),
            forall|x: IntersectionID|
                x != id && old(self).has_stop_sign(x) ==> #[trigger] final(self).stop_sign(x)
                    == old(self).stop_sign(x),
            forall|x: IntersectionID| #[trigger]
                final(self).has_traffic_signal(x) == old(self).has_traffic_signal(x),
            forall|x: IntersectionID|
                old(self).has_traffic_signal(x) ==> #[trigger] final(self).traffic_signal(x)
                    == old(self).traffic_signal(x),
    {
        self.stop_signs[id.0] = Some(ss);
    }

    /// Configure a traffic signal at `id`.
    pub fn set_traffic_signal(&mut self, id: IntersectionID, ts: ControlTrafficSignal)
        requires
            old(self).wf(),
            id.0 < old(self).intersection_count(),
        ensures
            final(self).wf(),
            final(self).intersection_count() == old(self).intersection_count(),
            final(self).has_traffic_signal(id),
            final(self).traffic_signal(id) == ts,
            forall|x: IntersectionID|
                x != id ==> #[trigger] final(self).has_traffic_signal(x) == old(self).has_traffic_signal(x),
            forall|x: IntersectionID|
                x != id && old(self).has_traffic_signal(x) ==> #[trigger] final(self).traffic_signal(x) == old(self).traffic_signal(x),
            forall|x: IntersectionID| #[trigger]
                final(self).has_stop_sign(x) == old(self).has_stop_sign(x),
            forall|x: IntersectionID|
                old(self).has_stop_sign(x) ==> #[trigger] final(self).stop_sign(x) == old(self).stop_sign(x),
    {
        self.traffic_signals[id.0] = Some(ts);
    }

    /// Whether a stop sign is configured at `id`.
    pub fn contains_stop_sign(&self, id: IntersectionID) -> (r: bool)
        ensures
            r == self.has_stop_sign(id),
    {
        id.0 < self.stop_signs.len() && self.stop_signs[id.0].is_some()
    }

    /// Whether a traffic signal is configured at `id`.
    pub fn contains_traffic_signal(&self, id: IntersectionID) -> (r: bool)
        ensures
            r == self.has_traffic_signal(id),
    {
        id.0 < self.traffic_signals.len() && self.traffic_signals[id.0].is_some()
    }

    /// The stop-sign configuration for `id`.
    pub fn get_stop_sign(&self, id: IntersectionID) -> (r: &ControlStopSign)
        requires
            self.has_stop_sign(id),
        ensures
            *r == self.stop_sign(id),
    {
        match &self.stop_signs[id.0] {
            Some(ss) => ss,
            None => vstd::pervasive::unreached(),
        }
    }

    /// The traffic-signal configuration for `id`.
    pub fn get_traffic_signal(&self, id: IntersectionID) -> (r: &ControlTrafficSignal)
        requires
            self.has_traffic_signal(id),
        ensures
            *r == self.traffic_signal(id),
    {
        match &self.traffic_signals[id.0] {
            Some(ts) => ts,
            None => vstd::pervasive::unreached(),
        }
    }
}

} // verus!
