use vstd::prelude::*;
use crate::carmap::{disjoint_key_sets, distinct_keys, entries_map, keys_distinct, lemma_entries_map_at, lemma_entries_map_dom, same_key_sets, seq_has_key, CarMap};
use crate::control::{ControlMap, ControlStopSign, ControlTrafficSignal, TurnPriority};
use crate::geom::GeomMap;
use crate::ids::{CarID, IntersectionID, Tick, TurnID, SPEED_LIMIT, STOP_DWELL_TICKS, TICKS_PER_SECOND};

verus! {

/// Every turn recorded in `m` names a turn of `gm`.
pub open spec fn valid_turns(m: Map<CarID, TurnID>, gm: GeomMap) -> bool {
    forall|c: CarID| #[trigger] m.dom().contains(c) ==> gm.valid_turn(m[c])
}

/// No two distinct occupants of `acc` hold conflicting turns: the mutual
/// exclusion guarantee for an intersection's accepted set.
pub open spec fn accepted_conflict_free(acc: Map<CarID, TurnID>, gm: GeomMap) -> bool {
    forall|c1: CarID, c2: CarID|
        #![trigger acc[c1], acc[c2]]
        acc.dom().contains(c1) && acc.dom().contains(c2) && c1 != c2 ==> !gm.conflict(
            acc[c1],
            acc[c2],
        )
}

/// `turn` conflicts with the turn of some currently accepted car.
pub open spec fn conflicts_with_any_accepted(
    acc: Map<CarID, TurnID>,
    gm: GeomMap,
    turn: TurnID,
) -> bool {
    exists|c: CarID| #[trigger] acc.dom().contains(c) && gm.conflict(turn, acc[c])
}

/// `turn` conflicts with the turn of some waiting car whose configured
/// priority is strictly higher than `turn`'s own.
pub open spec fn conflicts_with_higher_priority_waiting(
    wait: Map<CarID, TurnID>,
    gm: GeomMap,
    ss: ControlStopSign,
    turn: TurnID,
) -> bool {
    exists|c: CarID|
        #[trigger] wait.dom().contains(c) && gm.conflict(turn, wait[c]) && ss.priority(
            wait[c],
        ).rank() > ss.priority(turn).rank()
}

/// The legal full-stop dwell is satisfied: either `turn` need not fully stop,
/// or the dwell has elapsed since the car first waited at `start`.
pub open spec fn stop_dwell_satisfied(
    ss: ControlStopSign,
    turn: TurnID,
    start: Tick,
    time: Tick,
) -> bool {
    ss.priority(turn) != TurnPriority::Stop || time.dwell_elapsed_spec(start)
}

/// The stop-sign admission rule: a car whose first wait tick is `start` may
/// take `turn` at `time` when nothing accepted conflicts, no strictly
/// higher-priority waiter conflicts, and the full-stop dwell is satisfied.
pub open spec fn stop_sign_admits(
    acc: Map<CarID, TurnID>,
    wait: Map<CarID, TurnID>,
    gm: GeomMap,
    ss: ControlStopSign,
    turn: TurnID,
    start: Tick,
    time: Tick,
) -> bool {
    &&& !conflicts_with_any_accepted(acc, gm, turn)
    &&& !conflicts_with_higher_priority_waiting(wait, gm, ss, turn)
    &&& stop_dwell_satisfied(ss, turn, start, time)
}

/// Admission state of one stop-sign intersection.
pub struct StopSign {
    id: IntersectionID,
    started_waiting_at: CarMap<Tick>,
    accepted: CarMap<TurnID>,
    waiting: CarMap<TurnID>,
}

impl StopSign {
    /// The intersection this policy arbitrates.
    pub closed spec fn spec_id(self) -> IntersectionID {
        self.id
    }

    /// Cars currently occupying the intersection, with their turns.
    pub closed spec fn accepted_map(self) -> Map<CarID, TurnID> {
        self.accepted.as_map()
    }

    /// Cars that requested a turn and were deferred, with their turns.
    pub closed spec fn waiting_map(self) -> Map<CarID, TurnID> {
        self.waiting.as_map()
    }

    /// First tick at which each still-waiting car began waiting.
    pub closed spec fn waiting_since(self) -> Map<CarID, Tick> {
        self.started_waiting_at.as_map()
    }

    /// Bookkeeping invariant: the tables are well formed, the wait-start
    /// table tracks exactly the waiting cars, and no car is both accepted
    /// and waiting.
    pub closed spec fn maps_wf(self) -> bool {
        &&& self.accepted.wf()
        &&& self.waiting.wf()
        &&& self.started_waiting_at.wf()
        &&& self.waiting_since().dom() == self.waiting_map().dom()
        &&& forall|c: CarID|
            !(#[trigger] self.accepted_map().dom().contains(c)
                && self.waiting_map().dom().contains(c))
    }

    /// Full invariant against the geometry `gm`: bookkeeping plus recorded
    /// turns naming turns of `gm`, and mutual exclusion of the accepted set.
    pub open spec fn inv(self, gm: GeomMap) -> bool {
        &&& self.maps_wf()
        &&& valid_turns(self.accepted_map(), gm)
        &&& valid_turns(self.waiting_map(), gm)
        &&& accepted_conflict_free(self.accepted_map(), gm)
    }

    /// A fresh stop-sign policy with no occupants and no waiters.
    pub fn new(id: IntersectionID) -> (r: StopSign)
        ensures
            r.spec_id() == id,
            r.accepted_map() == Map::<CarID, TurnID>::empty(),
            r.waiting_map() == Map::<CarID, TurnID>::empty(),
            r.waiting_since() == Map::<CarID, Tick>::empty(),
            forall|gm: GeomMap| #[trigger] r.inv(gm),
    {
        let r = StopSign {
            id,
            started_waiting_at: CarMap::new(),
            accepted: CarMap::new(),
            waiting: CarMap::new(),
        };
        proof {
            assert(r.waiting_since().dom() =~= r.waiting_map().dom());
            assert forall|gm: GeomMap| #[trigger] r.inv(gm) by {
                assert(r.maps_wf());
            }
        }
        r
    }

    /// `turn` conflicts with the turn of some currently accepted car.
    fn conflicts_with_accepted(&self, turn: TurnID, geom_map: &GeomMap) -> (r: bool)
        requires
            self.accepted.wf(),
            geom_map.wf(),
            geom_map.valid_turn(turn),
            valid_turns(self.accepted_map(), *geom_map),
        ensures
            r == conflicts_with_any_accepted(self.accepted_map(), *geom_map, turn),
    {
        let n = self.accepted.len();
        let mut i: usize = 0;
        while i < n
            invariant
                i <= n,
                n == self.accepted.seq().len(),
                self.accepted.wf(),
                geom_map.wf(),
                geom_map.valid_turn(turn),
                valid_turns(self.accepted_map(), *geom_map),
                forall|j: int|
                    0 <= j < i ==> !geom_map.conflict(turn, (#[trigger] self.accepted.seq()[j]).1),
            decreases n - i,
        {
            let (c, t) = self.accepted.entry_at(i);
            proof {
                lemma_entries_map_at(self.accepted.seq(), i as int);
            }
            if geom_map.conflicts_between(turn, t) {
                proof {
                    assert(self.accepted_map().dom().contains(c) && geom_map.conflict(
                        turn,
                        self.accepted_map()[c],
                    ));
                }
                return true;
            }
            i += 1;
        }
        proof {
            if conflicts_with_any_accepted(self.accepted_map(), *geom_map, turn) {
                let c = choose|c: CarID|
                    #[trigger] self.accepted_map().dom().contains(c) && geom_map.conflict(
                        turn,
                        self.accepted_map()[c],
                    );
                lemma_entries_map_dom(self.accepted.seq(), c);
                let j = choose|j: int|
                    0 <= j < self.accepted.seq().len() && (#[trigger] self.accepted.seq()[j]).0
                        == c;
                lemma_entries_map_at(self.accepted.seq(), j);
                assert(false);
            }
        }
        false
    }

    /// `turn` conflicts with the turn of some waiting car of strictly higher
    /// priority.
    fn conflicts_with_waiting_with_higher_priority(
        &self,
        turn: TurnID,
        geom_map: &GeomMap,
        ss: &ControlStopSign,
    ) -> (r: bool)
        requires
            self.waiting.wf(),
            geom_map.wf(),
            geom_map.valid_turn(turn),
            valid_turns(self.waiting_map(), *geom_map),
            ss.turn_count() >= geom_map.num_turns(),
        ensures
            r == conflicts_with_higher_priority_waiting(
                self.waiting_map(),
                *geom_map,
                *ss,
                turn,
            ),
    {
        let base_priority = ss.get_priority(turn);
        let n = self.waiting.len();
        let mut i: usize = 0;
        while i < n
            invariant
                i <= n,
                n == self.waiting.seq().len(),
                self.waiting.wf(),
                geom_map.wf(),
                geom_map.valid_turn(turn),
                valid_turns(self.waiting_map(), *geom_map),
                ss.turn_count() >= geom_map.num_turns(),
                base_priority == ss.priority(turn),
                forall|j: int|
                    0 <= j < i ==> !(geom_map.conflict(turn, (#[trigger] self.waiting.seq()[j]).1)
                        && ss.priority((self.waiting.seq()[j]).1).rank() > ss.priority(
                        turn,
                    ).rank()),
            decreases n - i,
        {
            let (c, t) = self.waiting.entry_at(i);
            proof {
                lemma_entries_map_at(self.waiting.seq(), i as int);
            }
            if geom_map.conflicts_between(turn, t) && ss.get_priority(t).is_higher_than(
                base_priority,
            ) {
                proof {
                    assert(self.waiting_map().dom().contains(c) && geom_map.conflict(
                        turn,
                        self.waiting_map()[c],
                    ) && ss.priority(self.waiting_map()[c]).rank() > ss.priority(turn).rank());
                }
                return true;
            }
            i += 1;
        }
        proof {
            if conflicts_with_higher_priority_waiting(self.waiting_map(), *geom_map, *ss, turn) {
                let c = choose|c: CarID|
                    #[trigger] self.waiting_map().dom().contains(c) && geom_map.conflict(
                        turn,
                        self.waiting_map()[c],
                    ) && ss.priority(self.waiting_map()[c]).rank() > ss.priority(turn).rank();
                lemma_entries_map_dom(self.waiting.seq(), c);
                let j = choose|j: int|
                    0 <= j < self.waiting.seq().len() && (#[trigger] self.waiting.seq()[j]).0 == c;
                lemma_entries_map_at(self.waiting.seq(), j);
                assert(false);
            }
        }
        false
    }

    /// Decide whether `car` may take `turn` at `time`, updating the wait and
    /// occupancy bookkeeping exactly as [`stop_sign_step`] describes.
    pub fn can_do_turn(
        &mut self,
        car: CarID,
        turn: TurnID,
        time: Tick,
        geom_map: &GeomMap,
        control_map: &ControlMap,
    ) -> (r: bool)
        requires
            old(self).inv(*geom_map),
            geom_map.wf(),
            geom_map.valid_turn(turn),
            control_map.has_stop_sign(old(self).spec_id()),
            control_map.stop_sign(old(self).spec_id()).turn_count() >= geom_map.num_turns(),
        ensures
            final(self).inv(*geom_map),
            final(self).spec_id() == old(self).spec_id(),
            accepted_conflict_free(final(self).accepted_map(), *geom_map),
            stop_sign_step(
                *old(self),
                *final(self),
                r,
                car,
                turn,
                time,
                *geom_map,
                control_map.stop_sign(old(self).spec_id()),
            ),
    {
        if self.accepted.contains_key(car) {
            return true;
        }
        if !self.started_waiting_at.contains_key(car) {
            self.started_waiting_at.insert(car, time);
        }
        if self.conflicts_with_accepted(turn, geom_map) {
            self.waiting.insert(car, turn);
            proof {
                assert(self.waiting_since().dom() =~= self.waiting_map().dom());
            }
            return false;
        }
        let ss = control_map.get_stop_sign(self.id);
        if self.conflicts_with_waiting_with_higher_priority(turn, geom_map, ss) {
            self.waiting.insert(car, turn);
            proof {
                assert(self.waiting_since().dom() =~= self.waiting_map().dom());
            }
            return false;
        }
        let priority = ss.get_priority(turn);
        proof {
            assert(self.waiting_since().dom().contains(car));
        }
        let started = match self.started_waiting_at.get(car) {
            Some(t) => t,
            None => vstd::pervasive::unreached(),
        };
        if priority == TurnPriority::Stop && !time.dwell_elapsed(started) {
            self.waiting.insert(car, turn);
            proof {
                assert(self.waiting_since().dom() =~= self.waiting_map().dom());
            }
            return false;
        }
        self.accepted.insert(car, turn);
        self.waiting.remove(car);
        self.started_waiting_at.remove(car);
        proof {
            assert(self.waiting_since().dom() =~= self.waiting_map().dom());
            let acc0 = old(self).accepted_map();
            assert forall|c1: CarID, c2: CarID|
                #![trigger self.accepted_map()[c1], self.accepted_map()[c2]]
                self.accepted_map().dom().contains(c1) && self.accepted_map().dom().contains(c2)
                    && c1 != c2 implies !geom_map.conflict(
                self.accepted_map()[c1],
                self.accepted_map()[c2],
            ) by {
                if c1 == car {
                    geom_map.lemma_conflict_symmetric(turn, acc0[c2]);
                } else if c2 == car {
                    geom_map.lemma_conflict_symmetric(turn, acc0[c1]);
                }
            }
        }
        true
    }

    /// Whether `car` currently occupies the intersection.
    pub fn is_accepted(&self, car: CarID) -> (r: bool)
        ensures
            r == self.accepted_map().dom().contains(car),
    {
        self.accepted.contains_key(car)
    }

    /// The driver reports that `car` physically entered the intersection;
    /// legal only for an accepted car.
    pub fn on_enter(&self, car: CarID)
        requires
            self.accepted_map().dom().contains(car),
    {
    }

    /// The driver reports that `car` left the intersection; its occupancy is
    /// released.
    pub fn on_exit(&mut self, car: CarID)
        requires
            old(self).maps_wf(),
            old(self).accepted_map().dom().contains(car),
        ensures
            final(self).maps_wf(),
            final(self).spec_id() == old(self).spec_id(),
            final(self).accepted_map() == old(self).accepted_map().remove(car),
            final(self).waiting_map() == old(self).waiting_map(),
            final(self).waiting_since() == old(self).waiting_since(),
            forall|gm: GeomMap| old(self).inv(gm) ==> #[trigger] final(self).inv(gm),
    {
        self.accepted.remove(car);
        proof {
            assert forall|gm: GeomMap| old(self).inv(gm) implies #[trigger] self.inv(gm) by {
                assert(valid_turns(self.accepted_map(), gm));
                assert(accepted_conflict_free(self.accepted_map(), gm));
            }
        }
    }

    /// The intersection this policy arbitrates.
    pub fn id(&self) -> (r: IntersectionID)
        ensures
            r == self.spec_id(),
    {
        self.id
    }

    /// Snapshot of the accepted cars, in deterministic insertion order.
    pub fn accepted_entries(&self) -> (r: Vec<(CarID, TurnID)>)
        requires
            self.maps_wf(),
        ensures
            entries_map(r@) == self.accepted_map(),
            distinct_keys(r@),
    {
        self.accepted.to_entries()
    }

    /// Snapshot of the waiting cars, in deterministic insertion order.
    pub fn waiting_entries(&self) -> (r: Vec<(CarID, TurnID)>)
        requires
            self.maps_wf(),
        ensures
            entries_map(r@) == self.waiting_map(),
            distinct_keys(r@),
    {
        self.waiting.to_entries()
    }

    /// Snapshot of the first-wait ticks, in deterministic insertion order.
    pub fn waiting_since_entries(&self) -> (r: Vec<(CarID, Tick)>)
        requires
            self.maps_wf(),
        ensures
            entries_map(r@) == self.waiting_since(),
            distinct_keys(r@),
    {
        self.started_waiting_at.to_entries()
    }
}

/// How one stop-sign admission request transforms the state `pre` into
/// `post` and decides `r`: an already-accepted car is re-admitted with no
/// change; otherwise the car's first-wait tick is recorded, the request is
/// granted exactly when [`stop_sign_admits`] holds, and the car moves
/// between the waiting and accepted tables accordingly.
pub open spec fn stop_sign_step(
    pre: StopSign,
    post: StopSign,
    r: bool,
    car: CarID,
    turn: TurnID,
    time: Tick,
    gm: GeomMap,
    ss: ControlStopSign,
) -> bool {
    if pre.accepted_map().dom().contains(car) {
        &&& r == true
        &&& post.accepted_map() == pre.accepted_map()
        &&& post.waiting_map() == pre.waiting_map()
        &&& post.waiting_since() == pre.waiting_since()
    } else {
        let start = if pre.waiting_since().dom().contains(car) {
            pre.waiting_since()[car]
        } else {
            time
        };
        let since1 = if pre.waiting_since().dom().contains(car) {
            pre.waiting_since()
        } else {
            pre.waiting_since().insert(car, time)
        };
        &&& r == stop_sign_admits(
            pre.accepted_map(),
            pre.waiting_map(),
            gm,
            ss,
            turn,
            start,
            time,
        )
        &&& if r {
            &&& post.accepted_map() == pre.accepted_map().insert(car, turn)
            &&& post.waiting_map() == pre.waiting_map().remove(car)
            &&& post.waiting_since() == since1.remove(car)
        } else {
            &&& post.accepted_map() == pre.accepted_map()
            &&& post.waiting_map() == pre.waiting_map().insert(car, turn)
            &&& post.waiting_since() == since1
        }
    }
}

/// Whether a turn of length `length` can be fully crossed, at the uniform
/// speed limit, strictly within `remaining_ticks`: the crossing time
/// `length / SPEED_LIMIT` seconds is strictly below
/// `remaining_ticks / TICKS_PER_SECOND` seconds, compared exactly by
/// cross-multiplication.
pub open spec fn crossing_admissible(length: int, remaining_ticks: int) -> bool {
    length * TICKS_PER_SECOND < remaining_ticks * SPEED_LIMIT
}

/// The traffic-signal admission rule at `time`: the active cycle makes
/// `turn` legal and the car is guaranteed to clear the turn before the
/// cycle ends.
pub open spec fn signal_admits(
    sig: ControlTrafficSignal,
    gm: GeomMap,
    turn: TurnID,
    time: Tick,
) -> bool {
    &&& sig.active_cycle(time).spec_contains(turn)
    &&& crossing_admissible(gm.turn_length(turn), sig.remaining_time(time))
}

/// Admission state of one traffic-signal intersection. Unlike the stop-sign
/// variant it keeps no wait bookkeeping: a rejected car simply retries.
pub struct TrafficSignal {
    id: IntersectionID,
    accepted: CarMap<TurnID>,
}

impl TrafficSignal {
    /// The intersection this policy arbitrates.
    pub closed spec fn spec_id(self) -> IntersectionID {
        self.id
    }

    /// Cars currently occupying the intersection, with their turns.
    pub closed spec fn accepted_map(self) -> Map<CarID, TurnID> {
        self.accepted.as_map()
    }

    /// The occupancy table is well formed.
    pub closed spec fn maps_wf(self) -> bool {
        self.accepted.wf()
    }

    /// Full invariant against the geometry `gm`.
    pub open spec fn inv(self, gm: GeomMap) -> bool {
        &&& self.maps_wf()
        &&& valid_turns(self.accepted_map(), gm)
    }

    /// A fresh traffic-signal policy with no occupants.
    pub fn new(id: IntersectionID) -> (r: TrafficSignal)
        ensures
            r.spec_id() == id,
            r.accepted_map() == Map::<CarID, TurnID>::empty(),
            forall|gm: GeomMap| #[trigger] r.inv(gm),
    {
        let r = TrafficSignal { id, accepted: CarMap::new() };
        r
    }

    /// Decide whether `car` may take `turn` at `time`, as
    /// [`signal_step`] describes.
    pub fn can_do_turn(
        &mut self,
        car: CarID,
        turn: TurnID,
        time: Tick,
        geom_map: &GeomMap,
        control_map: &ControlMap,
    ) -> (r: bool)
        requires
            old(self).inv(*geom_map),
            geom_map.wf(),
            geom_map.valid_turn(turn),
            control_map.has_traffic_signal(old(self).spec_id()),
            control_map.traffic_signal(old(self).spec_id()).wf(),
        ensures
            final(self).inv(*geom_map),
            final(self).spec_id() == old(self).spec_id(),
            signal_step(
                *old(self),
                *final(self),
                r,
                car,
                turn,
                time,
                *geom_map,
                control_map.traffic_signal(old(self).spec_id()),
            ),
    {
        if self.accepted.contains_key(car) {
            return true;
        }
        let signal = control_map.get_traffic_signal(self.id);
        let (cycle_index, remaining) = signal.current_cycle_and_remaining_time(time);
        let cycle = signal.get_cycle(cycle_index);
        if !cycle.contains(turn) {
            return false;
        }
        let length = geom_map.get_length(turn);
        let crossing_scaled: u128 = (length as u128) * (TICKS_PER_SECOND as u128);
        let remaining_scaled: u128 = (remaining as u128) * (SPEED_LIMIT as u128);
        if crossing_scaled < remaining_scaled {
            self.accepted.insert(car, turn);
            true
        } else {
            false
        }
    }

    /// Whether `car` currently occupies the intersection.
    pub fn is_accepted(&self, car: CarID) -> (r: bool)
        ensures
            r == self.accepted_map().dom().contains(car),
    {
        self.accepted.contains_key(car)
    }

    /// The driver reports that `car` physically entered the intersection;
    /// legal only for an accepted car.
    pub fn on_enter(&self, car: CarID)
        requires
            self.accepted_map().dom().contains(car),
    {
    }

    /// The driver reports that `car` left the intersection; its occupancy is
    /// released.
    pub fn on_exit(&mut self, car: CarID)
        requires
            old(self).maps_wf(),
            old(self).accepted_map().dom().contains(car),
        ensures
            final(self).maps_wf(),
            final(self).spec_id() == old(self).spec_id(),
            final(self).accepted_map() == old(self).accepted_map().remove(car),
            forall|gm: GeomMap| old(self).inv(gm) ==> #[trigger] final(self).inv(gm),
    {
        self.accepted.remove(car);
        proof {
            assert forall|gm: GeomMap| old(self).inv(gm) implies #[trigger] self.inv(gm) by {
                assert(valid_turns(self.accepted_map(), gm));
            }
        }
    }

    /// The intersection this policy arbitrates.
    pub fn id(&self) -> (r: IntersectionID)
        ensures
            r == self.spec_id(),
    {
        self.id
    }

    /// Snapshot of the accepted cars, in deterministic insertion order.
    pub fn accepted_entries(&self) -> (r: Vec<(CarID, TurnID)>)
        requires
            self.maps_wf(),
        ensures
            entries_map(r@) == self.accepted_map(),
            distinct_keys(r@),
    {
        self.accepted.to_entries()
    }
}

/// How one traffic-signal admission request transforms `pre` into `post`
/// and decides `r`: an already-accepted car is re-admitted with no change;
/// otherwise the request is granted exactly when [`signal_admits`] holds and
/// only then is the car recorded as accepted.
pub open spec fn signal_step(
    pre: TrafficSignal,
    post: TrafficSignal,
    r: bool,
    car: CarID,
    turn: TurnID,
    time: Tick,
    gm: GeomMap,
    sig: ControlTrafficSignal,
) -> bool {
    if pre.accepted_map().dom().contains(car) {
        &&& r == true
        &&& post.accepted_map() == pre.accepted_map()
    } else {
        &&& r == signal_admits(sig, gm, turn, time)
        &&& if r {
            post.accepted_map() == pre.accepted_map().insert(car, turn)
        } else {
            post.accepted_map() == pre.accepted_map()
        }
    }
}

/// One intersection's arbitration policy: a closed choice between the
/// stop-sign and traffic-signal variants, so that whichever is active can be
/// snapshotted structurally for checkpointing.
pub enum IntersectionPolicy {
    StopSignPolicy(StopSign),
    TrafficSignalPolicy(TrafficSignal),
}

impl IntersectionPolicy {
    /// The intersection this policy arbitrates.
    pub open spec fn spec_id(self) -> IntersectionID {
        match self {
            IntersectionPolicy::StopSignPolicy(p) => p.spec_id(),
            IntersectionPolicy::TrafficSignalPolicy(p) => p.spec_id(),
        }
    }

    /// Cars currently occupying the intersection, with their turns.
    pub open spec fn accepted_map(self) -> Map<CarID, TurnID> {
        match self {
            IntersectionPolicy::StopSignPolicy(p) => p.accepted_map(),
            IntersectionPolicy::TrafficSignalPolicy(p) => p.accepted_map(),
        }
    }

    /// The active variant's bookkeeping tables are well formed.
    pub open spec fn maps_wf(self) -> bool {
        match self {
            IntersectionPolicy::StopSignPolicy(p) => p.maps_wf(),
            IntersectionPolicy::TrafficSignalPolicy(p) => p.maps_wf(),
        }
    }

    /// The active variant's invariant against the geometry `gm`.
    pub open spec fn inv(self, gm: GeomMap) -> bool {
        match self {
            IntersectionPolicy::StopSignPolicy(p) => p.inv(gm),
            IntersectionPolicy::TrafficSignalPolicy(p) => p.inv(gm),
        }
    }

    /// The control map holds a usable configuration of the matching kind for
    /// this intersection.
    pub open spec fn configured(self, cm: ControlMap, gm: GeomMap) -> bool {
        match self {
            IntersectionPolicy::StopSignPolicy(p) => cm.has_stop_sign(p.spec_id())
                && cm.stop_sign(p.spec_id()).turn_count() >= gm.num_turns(),
            IntersectionPolicy::TrafficSignalPolicy(p) => cm.has_traffic_signal(p.spec_id())
                && cm.traffic_signal(p.spec_id()).wf(),
        }
    }

    /// Decide whether `car` may take `turn` at `time`, dispatching to the
    /// active variant; the variant never changes.
    pub fn can_do_turn(
        &mut self,
        car: CarID,
        turn: TurnID,
        time: Tick,
        geom_map: &GeomMap,
        control_map: &ControlMap,
    ) -> (r: bool)
        requires
            old(self).inv(*geom_map),
            geom_map.wf(),
            geom_map.valid_turn(turn),
            old(self).configured(*control_map, *geom_map),
        ensures
            final(self).inv(*geom_map),
            final(self).spec_id() == old(self).spec_id(),
            (*old(self)) matches IntersectionPolicy::StopSignPolicy(pre) ==> ((*final(self))
                matches IntersectionPolicy::StopSignPolicy(post) && stop_sign_step(
                pre,
                post,
                r,
                car,
                turn,
                time,
                *geom_map,
                control_map.stop_sign(pre.spec_id()),
            )),
            (*old(self)) matches IntersectionPolicy::TrafficSignalPolicy(pre) ==> ((*final(self))
                matches IntersectionPolicy::TrafficSignalPolicy(post) && signal_step(
                pre,
                post,
                r,
                car,
                turn,
                time,
                *geom_map,
                control_map.traffic_signal(pre.spec_id()),
            )),
    {
        match self {
            IntersectionPolicy::StopSignPolicy(p) => p.can_do_turn(
                car,
                turn,
                time,
                geom_map,
                control_map,
            ),
            IntersectionPolicy::TrafficSignalPolicy(p) => p.can_do_turn(
                car,
                turn,
                time,
                geom_map,
                control_map,
            ),
        }
    }

    /// The driver reports that `car` physically entered the intersection;
    /// legal only for an accepted car.
    pub fn on_enter(&self, car: CarID)
        requires
            self.accepted_map().dom().contains(car),
    {
        match self {
            IntersectionPolicy::StopSignPolicy(p) => p.on_enter(car),
            IntersectionPolicy::TrafficSignalPolicy(p) => p.on_enter(car),
        }
    }

    /// The driver reports that `car` left the intersection; its occupancy is
    /// released. The variant and all wait bookkeeping are unchanged.
    pub fn on_exit(&mut self, car: CarID)
        requires
            old(self).maps_wf(),
            old(self).accepted_map().dom().contains(car),
        ensures
            final(self).maps_wf(),
            final(self).spec_id() == old(self).spec_id(),
            final(self).accepted_map() == old(self).accepted_map().remove(car),
            forall|gm: GeomMap| old(self).inv(gm) ==> #[trigger] final(self).inv(gm),
            (*old(self)) matches IntersectionPolicy::StopSignPolicy(pre) ==> ((*final(self))
                matches IntersectionPolicy::StopSignPolicy(post) && post.waiting_map()
                == pre.waiting_map() && post.waiting_since() == pre.waiting_since()),
            (*old(self)) matches IntersectionPolicy::TrafficSignalPolicy(pre) ==> (*final(self))
                matches IntersectionPolicy::TrafficSignalPolicy(post),
    {
        match self {
            IntersectionPolicy::StopSignPolicy(p) => p.on_exit(car),
            IntersectionPolicy::TrafficSignalPolicy(p) => p.on_exit(car),
        }
    }

    /// Whether `car` currently occupies the intersection.
    pub fn is_accepted(&self, car: CarID) -> (r: bool)
        ensures
            r == self.accepted_map().dom().contains(car),
    {
        match self {
            IntersectionPolicy::StopSignPolicy(p) => p.is_accepted(car),
            IntersectionPolicy::TrafficSignalPolicy(p) => p.is_accepted(car),
        }
    }

    /// The intersection this policy arbitrates.
    pub fn id(&self) -> (r: IntersectionID)
        ensures
            r == self.spec_id(),
    {
        match self {
            IntersectionPolicy::StopSignPolicy(p) => p.id(),
            IntersectionPolicy::TrafficSignalPolicy(p) => p.id(),
        }
    }
}

/// Mutual exclusion: any two distinct cars simultaneously accepted at a
/// stop sign hold non-conflicting turns.
pub proof fn lemma_mutual_exclusion(s: StopSign, gm: GeomMap, c1: CarID, c2: CarID)
    requires
        s.inv(gm),
        s.accepted_map().dom().contains(c1),
        s.accepted_map().dom().contains(c2),
        c1 != c2,
    ensures
        !gm.conflict(s.accepted_map()[c1], s.accepted_map()[c2]),
{
}

/// Idempotence of admission at a stop sign: once a car is accepted, its own
/// requests keep answering `true`, and no admission request by any car
/// removes it from the accepted set; only `on_exit` does.
pub proof fn lemma_admission_idempotent(
    pre: StopSign,
    post: StopSign,
    r: bool,
    admitted: CarID,
    car: CarID,
    turn: TurnID,
    time: Tick,
    gm: GeomMap,
    ss: ControlStopSign,
)
    requires
        pre.accepted_map().dom().contains(admitted),
        stop_sign_step(pre, post, r, car, turn, time, gm, ss),
    ensures
        car == admitted ==> r == true,
        post.accepted_map().dom().contains(admitted),
{
}

/// A car's exit releases only its own admission: every other accepted car
/// stays accepted.
pub proof fn lemma_exit_preserves_other_admissions(
    pre: Map<CarID, TurnID>,
    post: Map<CarID, TurnID>,
    exited: CarID,
    admitted: CarID,
)
    requires
        post == pre.remove(exited),
        pre.dom().contains(admitted),
        admitted != exited,
    ensures
        post.dom().contains(admitted),
        post[admitted] == pre[admitted],
{
}

/// Idempotence of admission at a traffic signal, in the same sense.
pub proof fn lemma_signal_admission_idempotent(
    pre: TrafficSignal,
    post: TrafficSignal,
    r: bool,
    admitted: CarID,
    car: CarID,
    turn: TurnID,
    time: Tick,
    gm: GeomMap,
    sig: ControlTrafficSignal,
)
    requires
        pre.accepted_map().dom().contains(admitted),
        signal_step(pre, post, r, car, turn, time, gm, sig),
    ensures
        car == admitted ==> r == true,
        post.accepted_map().dom().contains(admitted),
{
}

/// Exit frees capacity: once the only accepted car whose turn conflicted
/// with `turn` has exited, a request for `turn` is admitted, provided no
/// higher-priority conflicting waiter exists and its dwell is satisfied.
pub proof fn lemma_exit_frees_capacity(
    pre: StopSign,
    post: StopSign,
    exited: CarID,
    turn: TurnID,
    start: Tick,
    time: Tick,
    gm: GeomMap,
    ss: ControlStopSign,
)
    requires
        post.accepted_map() == pre.accepted_map().remove(exited),
        post.waiting_map() == pre.waiting_map(),
        forall|c: CarID|
            #[trigger] pre.accepted_map().dom().contains(c) && c != exited ==> !gm.conflict(
                turn,
                pre.accepted_map()[c],
            ),
        !conflicts_with_higher_priority_waiting(pre.waiting_map(), gm, ss, turn),
        stop_dwell_satisfied(ss, turn, start, time),
    ensures
        stop_sign_admits(post.accepted_map(), post.waiting_map(), gm, ss, turn, start, time),
{
    if conflicts_with_any_accepted(post.accepted_map(), gm, turn) {
        let c = choose|c: CarID|
            #[trigger] post.accepted_map().dom().contains(c) && gm.conflict(
                turn,
                post.accepted_map()[c],
            );
        assert(pre.accepted_map().dom().contains(c) && c != exited);
        assert(false);
    }
}

/// Stop-dwell enforcement: a "must fully stop" turn facing no conflicting
/// occupant and no higher-priority conflicting waiter is admitted exactly
/// when the dwell has elapsed since the car first waited, and is rejected
/// at every earlier tick.
pub proof fn lemma_stop_dwell_enforced(
    acc: Map<CarID, TurnID>,
    wait: Map<CarID, TurnID>,
    gm: GeomMap,
    ss: ControlStopSign,
    turn: TurnID,
    start: Tick,
    time: Tick,
)
    requires
        !conflicts_with_any_accepted(acc, gm, turn),
        !conflicts_with_higher_priority_waiting(wait, gm, ss, turn),
        ss.priority(turn) == TurnPriority::Stop,
    ensures
        stop_sign_admits(acc, wait, gm, ss, turn, start, time) <==> time.0 >= start.0
            + STOP_DWELL_TICKS,
{
}

/// Priority yield: with an empty accepted set and two waiting cars on
/// conflicting turns of different priorities, the lower-priority car's
/// request is refused while the higher-priority car's request (with its
/// dwell satisfied) is granted.
pub proof fn lemma_priority_yield(
    s: StopSign,
    low_car: CarID,
    high_car: CarID,
    low_turn: TurnID,
    high_turn: TurnID,
    start_low: Tick,
    start_high: Tick,
    time_low: Tick,
    time_high: Tick,
    gm: GeomMap,
    ss: ControlStopSign,
)
    requires
        gm.wf(),
        gm.valid_turn(low_turn),
        gm.valid_turn(high_turn),
        s.accepted_map().dom() == Set::<CarID>::empty(),
        s.waiting_map().dom() == set![low_car, high_car],
        s.waiting_map()[low_car] == low_turn,
        s.waiting_map()[high_car] == high_turn,
        low_car != high_car,
        gm.conflict(high_turn, low_turn),
        ss.priority(high_turn).rank() > ss.priority(low_turn).rank(),
        stop_dwell_satisfied(ss, high_turn, start_high, time_high),
    ensures
        !stop_sign_admits(
            s.accepted_map(),
            s.waiting_map(),
            gm,
            ss,
            low_turn,
            start_low,
            time_low,
        ),
        stop_sign_admits(
            s.accepted_map(),
            s.waiting_map(),
            gm,
            ss,
            high_turn,
            start_high,
            time_high,
        ),
{
    gm.lemma_conflict_symmetric(high_turn, low_turn);
    assert(s.waiting_map().dom().contains(high_car));
    assert(conflicts_with_higher_priority_waiting(s.waiting_map(), gm, ss, low_turn));
    if conflicts_with_any_accepted(s.accepted_map(), gm, high_turn) {
        let c = choose|c: CarID|
            #[trigger] s.accepted_map().dom().contains(c) && gm.conflict(
                high_turn,
                s.accepted_map()[c],
            );
        assert(false);
    }
    if conflicts_with_higher_priority_waiting(s.waiting_map(), gm, ss, high_turn) {
        let c = choose|c: CarID|
            #[trigger] s.waiting_map().dom().contains(c) && gm.conflict(
                high_turn,
                s.waiting_map()[c],
            ) && ss.priority(s.waiting_map()[c]).rank() > ss.priority(high_turn).rank();
        assert(c == low_car || c == high_car);
        assert(false);
    }
}

/// Signal clearance boundary: measured in whole seconds, a crossing time
/// exactly equal to the remaining cycle time is rejected, and one strictly
/// smaller is admitted; the comparison is strict.
pub proof fn lemma_clearance_boundary(
    crossing_seconds: int,
    remaining_seconds: int,
    length: int,
    remaining_ticks: int,
)
    requires
        length == crossing_seconds * SPEED_LIMIT,
        remaining_ticks == remaining_seconds * TICKS_PER_SECOND,
    ensures
        crossing_admissible(length, remaining_ticks) <==> crossing_seconds < remaining_seconds,
{
    assert((crossing_seconds * SPEED_LIMIT) * TICKS_PER_SECOND < (remaining_seconds
        * TICKS_PER_SECOND) * SPEED_LIMIT <==> crossing_seconds < remaining_seconds)
        by (nonlinear_arith)
        requires
            SPEED_LIMIT == 5u64,
            TICKS_PER_SECOND == 10u64,
    ;
}


/// Checkpoint rows for a stop sign are consistent with the geometry `gm`:
/// distinct cars per table, wait-start rows for exactly the waiting cars, no
/// car both accepted and waiting, every turn named by the map, and the
/// accepted turns mutually conflict-free.
pub open spec fn stop_sign_parts_ok(
    started: Seq<(CarID, Tick)>,
    accepted: Seq<(CarID, TurnID)>,
    waiting: Seq<(CarID, TurnID)>,
    gm: GeomMap,
) -> bool {
    &&& distinct_keys(started)
    &&& distinct_keys(accepted)
    &&& distinct_keys(waiting)
    &&& (forall|c: CarID| #[trigger] seq_has_key(started, c) <==> #[trigger] seq_has_key(
        waiting,
        c,
    ))
    &&& (forall|c: CarID| !(#[trigger] seq_has_key(accepted, c) && seq_has_key(waiting, c)))
    &&& (forall|i: int| 0 <= i < accepted.len() ==> gm.valid_turn((#[trigger] accepted[i]).1))
    &&& (forall|i: int| 0 <= i < waiting.len() ==> gm.valid_turn((#[trigger] waiting[i]).1))
    &&& (forall|i: int, j: int|
        0 <= i < accepted.len() && 0 <= j < accepted.len() && i != j ==> !gm.conflict(
            (#[trigger] accepted[i]).1,
            (#[trigger] accepted[j]).1,
        ))
}

/// Checkpoint rows for a traffic signal are consistent with the geometry
/// `gm`: distinct cars, every turn named by the map.
pub open spec fn signal_parts_ok(accepted: Seq<(CarID, TurnID)>, gm: GeomMap) -> bool {
    &&& distinct_keys(accepted)
    &&& (forall|i: int| 0 <= i < accepted.len() ==> gm.valid_turn((#[trigger] accepted[i]).1))
}

/// Every recorded turn names a turn of `geom_map`.
fn entries_turns_valid(entries: &Vec<(CarID, TurnID)>, geom_map: &GeomMap) -> (r: bool)
    ensures
        r == (forall|i: int|
            0 <= i < entries@.len() ==> geom_map.valid_turn((#[trigger] entries@[i]).1)),
{
    let n = entries.len();
    let count = geom_map.turn_count();
    let mut i: usize = 0;
    while i < n
        invariant
            i <= n,
            n == entries@.len(),
            count as int == geom_map.num_turns(),
            forall|j: int| 0 <= j < i ==> geom_map.valid_turn((#[trigger] entries@[j]).1),
        decreases n - i,
    {
        let t = entries[i].1;
        if t.0 >= count {
            return false;
        }
        i += 1;
    }
    true
}

/// No two rows of `entries` record conflicting turns.
fn entries_conflict_free(entries: &Vec<(CarID, TurnID)>, geom_map: &GeomMap) -> (r: bool)
    requires
        geom_map.wf(),
        forall|i: int| 0 <= i < entries@.len() ==> geom_map.valid_turn((#[trigger] entries@[i]).1),
    ensures
        r == (forall|i: int, j: int|
            0 <= i < entries@.len() && 0 <= j < entries@.len() && i != j ==> !geom_map.conflict(
                (#[trigger] entries@[i]).1,
                (#[trigger] entries@[j]).1,
            )),
{
    let n = entries.len();
    let mut i: usize = 0;
    while i < n
        invariant
            i <= n,
            n == entries@.len(),
            geom_map.wf(),
            forall|x: int|
                0 <= x < n ==> geom_map.valid_turn((#[trigger] entries@[x]).1),
            forall|x: int, y: int|
                0 <= x < y < n && x < i ==> !geom_map.conflict(
                    (#[trigger] entries@[x]).1,
                    (#[trigger] entries@[y]).1,
                ) && !geom_map.conflict(entries@[y].1, entries@[x].1),
        decreases n - i,
    {
        let ti = entries[i].1;
        let mut j: usize = i + 1;
        while j < n
            invariant
                i < j <= n,
                i < n,
                n == entries@.len(),
                geom_map.wf(),
                ti == entries@[i as int].1,
                forall|x: int|
                    0 <= x < n ==> geom_map.valid_turn((#[trigger] entries@[x]).1),
                forall|y: int|
                    i < y < j ==> !geom_map.conflict(ti, (#[trigger] entries@[y]).1)
                        && !geom_map.conflict(entries@[y].1, ti),
            decreases n - j,
        {
            let tj = entries[j].1;
            if geom_map.conflicts_between(ti, tj) {
                return false;
            }
            proof {
                geom_map.lemma_conflict_symmetric(ti, tj);
            }
            j += 1;
        }
        i += 1;
    }
    proof {
        assert forall|x: int, y: int|
            0 <= x < n as int && 0 <= y < n as int && x != y implies !geom_map.conflict(
            (#[trigger] entries@[x]).1,
            (#[trigger] entries@[y]).1,
        ) by {
            if x < y {
            } else {
            }
        }
    }
    true
}

impl StopSign {
    /// Restore a stop-sign policy from checkpoint rows, validating
    /// everything its invariant needs; `None` exactly when the rows are not
    /// a consistent stop-sign state for the geometry `geom_map`.
    pub fn from_parts(
        id: IntersectionID,
        started_waiting_at: Vec<(CarID, Tick)>,
        accepted: Vec<(CarID, TurnID)>,
        waiting: Vec<(CarID, TurnID)>,
        geom_map: &GeomMap,
    ) -> (r: Option<StopSign>)
        requires
            geom_map.wf(),
        ensures
            r is Some <==> stop_sign_parts_ok(
                started_waiting_at@,
                accepted@,
                waiting@,
                *geom_map,
            ),
            r is Some ==> {
                &&& r->0.spec_id() == id
                &&& r->0.inv(*geom_map)
                &&& r->0.waiting_since() == entries_map(started_waiting_at@)
                &&& r->0.accepted_map() == entries_map(accepted@)
                &&& r->0.waiting_map() == entries_map(waiting@)
            },
    {
        if !keys_distinct(&started_waiting_at) {
            return None;
        }
        if !keys_distinct(&accepted) {
            return None;
        }
        if !keys_distinct(&waiting) {
            return None;
        }
        if !same_key_sets(&started_waiting_at, &waiting) {
            return None;
        }
        if !disjoint_key_sets(&accepted, &waiting) {
            return None;
        }
        if !entries_turns_valid(&accepted, geom_map) {
            return None;
        }
        if !entries_turns_valid(&waiting, geom_map) {
            return None;
        }
        if !entries_conflict_free(&accepted, geom_map) {
            return None;
        }
        let ghost started_rows = started_waiting_at@;
        let ghost accepted_rows = accepted@;
        let ghost waiting_rows = waiting@;
        let r = StopSign {
            id,
            started_waiting_at: CarMap::from_entries(started_waiting_at),
            accepted: CarMap::from_entries(accepted),
            waiting: CarMap::from_entries(waiting),
        };
        proof {
            assert forall|c: CarID| r.waiting_since().dom().contains(c)
                <==> r.waiting_map().dom().contains(c) by {
                lemma_entries_map_dom(started_rows, c);
                lemma_entries_map_dom(waiting_rows, c);
                assert(entries_map(started_rows).dom().contains(c) <==> seq_has_key(
                    started_rows,
                    c,
                ));
                assert(entries_map(waiting_rows).dom().contains(c) <==> seq_has_key(
                    waiting_rows,
                    c,
                ));
            }
            assert(r.waiting_since().dom() =~= r.waiting_map().dom());
            assert forall|c: CarID|
                !(#[trigger] r.accepted_map().dom().contains(c) && r.waiting_map().dom().contains(
                    c,
                )) by {
                lemma_entries_map_dom(accepted_rows, c);
                lemma_entries_map_dom(waiting_rows, c);
                assert(entries_map(accepted_rows).dom().contains(c) <==> seq_has_key(
                    accepted_rows,
                    c,
                ));
                assert(entries_map(waiting_rows).dom().contains(c) <==> seq_has_key(
                    waiting_rows,
                    c,
                ));
            }
            assert forall|c: CarID| #[trigger]
                r.accepted_map().dom().contains(c) implies geom_map.valid_turn(
                r.accepted_map()[c],
            ) by {
                lemma_entries_map_dom(accepted_rows, c);
                let i = choose|i: int|
                    0 <= i < accepted_rows.len() && (#[trigger] accepted_rows[i]).0 == c;
                lemma_entries_map_at(accepted_rows, i);
            }
            assert forall|c: CarID| #[trigger]
                r.waiting_map().dom().contains(c) implies geom_map.valid_turn(
                r.waiting_map()[c],
            ) by {
                lemma_entries_map_dom(waiting_rows, c);
                let i = choose|i: int|
                    0 <= i < waiting_rows.len() && (#[trigger] waiting_rows[i]).0 == c;
                lemma_entries_map_at(waiting_rows, i);
            }
            assert forall|c1: CarID, c2: CarID|
                #![trigger r.accepted_map()[c1], r.accepted_map()[c2]]
                r.accepted_map().dom().contains(c1) && r.accepted_map().dom().contains(c2) && c1
                    != c2 implies !geom_map.conflict(
                r.accepted_map()[c1],
                r.accepted_map()[c2],
            ) by {
                lemma_entries_map_dom(accepted_rows, c1);
                lemma_entries_map_dom(accepted_rows, c2);
                let i = choose|i: int|
                    0 <= i < accepted_rows.len() && (#[trigger] accepted_rows[i]).0 == c1;
                let j = choose|j: int|
                    0 <= j < accepted_rows.len() && (#[trigger] accepted_rows[j]).0 == c2;
                lemma_entries_map_at(accepted_rows, i);
                lemma_entries_map_at(accepted_rows, j);
            }
        }
        Some(r)
    }
}

impl TrafficSignal {
    /// Restore a traffic-signal policy from checkpoint rows, validating
    /// everything its invariant needs; `None` exactly when the rows are not
    /// a consistent traffic-signal state for the geometry `geom_map`.
    pub fn from_parts(
        id: IntersectionID,
        accepted: Vec<(CarID, TurnID)>,
        geom_map: &GeomMap,
    ) -> (r: Option<TrafficSignal>)
        requires
            geom_map.wf(),
        ensures
            r is Some <==> signal_parts_ok(accepted@, *geom_map),
            r is Some ==> {
                &&& r->0.spec_id() == id
                &&& r->0.inv(*geom_map)
                &&& r->0.accepted_map() == entries_map(accepted@)
            },
    {
        if !keys_distinct(&accepted) {
            return None;
        }
        if !entries_turns_valid(&accepted, geom_map) {
            return None;
        }
        let ghost accepted_rows = accepted@;
        let r = TrafficSignal { id, accepted: CarMap::from_entries(accepted) };
        proof {
            assert forall|c: CarID| #[trigger]
                r.accepted_map().dom().contains(c) implies geom_map.valid_turn(
                r.accepted_map()[c],
            ) by {
                lemma_entries_map_dom(accepted_rows, c);
                let i = choose|i: int|
                    0 <= i < accepted_rows.len() && (#[trigger] accepted_rows[i]).0 == c;
                lemma_entries_map_at(accepted_rows, i);
            }
        }
        Some(r)
    }
}

} // verus!
