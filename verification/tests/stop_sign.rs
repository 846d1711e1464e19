use intersections::control::{ControlMap, ControlStopSign, TurnPriority};
use intersections::geom::GeomMap;
use intersections::ids::{CarID, IntersectionID, Tick, TurnID};
use intersections::policy::{IntersectionPolicy, StopSign};

fn two_conflicting_turns() -> GeomMap {
    // turns 0, 1, 2; turns 1 and 2 conflict; turn 0 conflicts with nothing
    let mut gm = GeomMap::new(vec![10, 20, 30]);
    gm.add_conflict(TurnID(1), TurnID(2));
    gm
}

fn stop_sign_controls(priorities: Vec<TurnPriority>) -> ControlMap {
    let mut cm = ControlMap::new(1);
    cm.set_stop_sign(IntersectionID(0), ControlStopSign::new(priorities));
    cm
}

#[test]
fn non_stop_turn_with_no_conflicts_is_admitted_at_once() {
    let gm = two_conflicting_turns();
    let cm = stop_sign_controls(vec![
        TurnPriority::Yield,
        TurnPriority::Yield,
        TurnPriority::Yield,
    ]);
    let mut ss = StopSign::new(IntersectionID(0));
    assert!(ss.can_do_turn(CarID(1), TurnID(0), Tick(0), &gm, &cm));
}

#[test]
fn conflicting_turn_is_rejected_while_occupied() {
    let gm = two_conflicting_turns();
    let cm = stop_sign_controls(vec![
        TurnPriority::Yield,
        TurnPriority::Yield,
        TurnPriority::Yield,
    ]);
    let mut ss = StopSign::new(IntersectionID(0));
    assert!(ss.can_do_turn(CarID(1), TurnID(1), Tick(0), &gm, &cm));
    // car 2 wants the conflicting turn 2: rejected every tick while car 1 occupies
    assert!(!ss.can_do_turn(CarID(2), TurnID(2), Tick(0), &gm, &cm));
    assert!(!ss.can_do_turn(CarID(2), TurnID(2), Tick(3), &gm, &cm));
    // the non-conflicting turn 0 is not blocked
    assert!(ss.can_do_turn(CarID(3), TurnID(0), Tick(3), &gm, &cm));
}

#[test]
fn admission_is_idempotent_until_exit() {
    let gm = two_conflicting_turns();
    let cm = stop_sign_controls(vec![
        TurnPriority::Yield,
        TurnPriority::Yield,
        TurnPriority::Yield,
    ]);
    let mut ss = StopSign::new(IntersectionID(0));
    assert!(ss.can_do_turn(CarID(1), TurnID(1), Tick(0), &gm, &cm));
    assert!(ss.can_do_turn(CarID(1), TurnID(1), Tick(1), &gm, &cm));
    assert!(ss.can_do_turn(CarID(1), TurnID(1), Tick(7), &gm, &cm));
    ss.on_enter(CarID(1));
    ss.on_exit(CarID(1));
    assert_eq!(ss.accepted_entries(), vec![]);
}

#[test]
fn exit_frees_capacity_for_conflicting_waiter() {
    let gm = two_conflicting_turns();
    let cm = stop_sign_controls(vec![
        TurnPriority::Yield,
        TurnPriority::Yield,
        TurnPriority::Yield,
    ]);
    let mut ss = StopSign::new(IntersectionID(0));
    assert!(ss.can_do_turn(CarID(1), TurnID(1), Tick(0), &gm, &cm));
    assert!(!ss.can_do_turn(CarID(2), TurnID(2), Tick(0), &gm, &cm));
    ss.on_enter(CarID(1));
    ss.on_exit(CarID(1));
    // next request by the blocked conflicting waiter succeeds
    assert!(ss.can_do_turn(CarID(2), TurnID(2), Tick(1), &gm, &cm));
}

#[test]
fn stop_turn_waits_out_the_dwell_even_with_no_conflicts() {
    let gm = two_conflicting_turns();
    let cm = stop_sign_controls(vec![
        TurnPriority::Stop,
        TurnPriority::Stop,
        TurnPriority::Stop,
    ]);
    let mut ss = StopSign::new(IntersectionID(0));
    // 1.5 simulated seconds is 15 ticks: rejected through tick 14, admitted at 15
    assert!(!ss.can_do_turn(CarID(1), TurnID(0), Tick(0), &gm, &cm));
    assert!(!ss.can_do_turn(CarID(1), TurnID(0), Tick(7), &gm, &cm));
    assert!(!ss.can_do_turn(CarID(1), TurnID(0), Tick(14), &gm, &cm));
    assert!(ss.can_do_turn(CarID(1), TurnID(0), Tick(15), &gm, &cm));
}

#[test]
fn dwell_counts_from_first_wait_not_from_conflict_clearing() {
    let gm = two_conflicting_turns();
    let cm = stop_sign_controls(vec![
        TurnPriority::Yield,
        TurnPriority::Yield,
        TurnPriority::Stop,
    ]);
    let mut ss = StopSign::new(IntersectionID(0));
    assert!(ss.can_do_turn(CarID(1), TurnID(1), Tick(0), &gm, &cm));
    // car 2's stop turn conflicts while car 1 occupies; it starts waiting at 0
    assert!(!ss.can_do_turn(CarID(2), TurnID(2), Tick(0), &gm, &cm));
    ss.on_exit(CarID(1));
    // conflict cleared at tick 16; the dwell since tick 0 is already served
    assert!(ss.can_do_turn(CarID(2), TurnID(2), Tick(16), &gm, &cm));
}

#[test]
fn lower_priority_conflicting_waiter_yields() {
    // turn 2 conflicts with both turn 0 and turn 1
    let mut gm = GeomMap::new(vec![10, 20, 30]);
    gm.add_conflict(TurnID(1), TurnID(2));
    gm.add_conflict(TurnID(0), TurnID(2));
    let cm = stop_sign_controls(vec![
        TurnPriority::Priority,
        TurnPriority::Stop,
        TurnPriority::Yield,
    ]);
    let mut ss = StopSign::new(IntersectionID(0));
    // car 9 occupies turn 0; car 2 (turn 2, Yield) waits behind it
    assert!(ss.can_do_turn(CarID(9), TurnID(0), Tick(0), &gm, &cm));
    assert!(!ss.can_do_turn(CarID(2), TurnID(2), Tick(0), &gm, &cm));
    // car 1 (turn 1, Stop) conflicts with nothing accepted, yet yields to the
    // higher-priority waiting car 2
    assert!(!ss.can_do_turn(CarID(1), TurnID(1), Tick(20), &gm, &cm));
    ss.on_exit(CarID(9));
    // car 2 goes first; car 1 is then blocked by the occupant, and proceeds
    // once car 2 leaves and its own dwell (since tick 20) is served
    assert!(ss.can_do_turn(CarID(2), TurnID(2), Tick(21), &gm, &cm));
    assert!(!ss.can_do_turn(CarID(1), TurnID(1), Tick(21), &gm, &cm));
    ss.on_exit(CarID(2));
    assert!(!ss.can_do_turn(CarID(1), TurnID(1), Tick(22), &gm, &cm));
    assert!(ss.can_do_turn(CarID(1), TurnID(1), Tick(35), &gm, &cm));
}

#[test]
fn priority_never_blocks_a_non_conflicting_turn() {
    let gm = two_conflicting_turns();
    let cm = stop_sign_controls(vec![
        TurnPriority::Yield,
        TurnPriority::Yield,
        TurnPriority::Priority,
    ]);
    let mut ss = StopSign::new(IntersectionID(0));
    // car 2 waits on turn 2 behind an occupant of the conflicting turn 1
    assert!(ss.can_do_turn(CarID(1), TurnID(1), Tick(0), &gm, &cm));
    assert!(!ss.can_do_turn(CarID(2), TurnID(2), Tick(0), &gm, &cm));
    // turn 0 conflicts with nobody: admitted despite the higher-priority waiter
    assert!(ss.can_do_turn(CarID(3), TurnID(0), Tick(1), &gm, &cm));
}

#[test]
fn stop_and_yield_scenario_runs_to_completion() {
    // turns 1 and 2 conflict; car A takes turn 1 (Stop), car B turn 2 (Yield)
    let gm = two_conflicting_turns();
    let cm = stop_sign_controls(vec![
        TurnPriority::Yield,
        TurnPriority::Stop,
        TurnPriority::Yield,
    ]);
    let a = CarID(10);
    let b = CarID(20);
    let mut ss = StopSign::new(IntersectionID(0));
    // both request at tick 0: B is admitted at once, A conflicts with B
    assert!(ss.can_do_turn(b, TurnID(2), Tick(0), &gm, &cm));
    assert!(!ss.can_do_turn(a, TurnID(1), Tick(0), &gm, &cm));
    ss.on_enter(b);
    // B leaves at tick 5; A's dwell since tick 0 ends at tick 15
    ss.on_exit(b);
    assert!(!ss.can_do_turn(a, TurnID(1), Tick(5), &gm, &cm));
    assert!(ss.can_do_turn(a, TurnID(1), Tick(15), &gm, &cm));
}

#[test]
fn state_snapshots_follow_the_lifecycle() {
    let gm = two_conflicting_turns();
    let cm = stop_sign_controls(vec![
        TurnPriority::Yield,
        TurnPriority::Yield,
        TurnPriority::Yield,
    ]);
    let mut ss = StopSign::new(IntersectionID(0));
    assert_eq!(ss.id(), IntersectionID(0));
    assert!(ss.can_do_turn(CarID(1), TurnID(1), Tick(0), &gm, &cm));
    assert!(!ss.can_do_turn(CarID(2), TurnID(2), Tick(3), &gm, &cm));
    assert_eq!(ss.accepted_entries(), vec![(CarID(1), TurnID(1))]);
    assert_eq!(ss.waiting_entries(), vec![(CarID(2), TurnID(2))]);
    assert_eq!(ss.waiting_since_entries(), vec![(CarID(2), Tick(3))]);
    // the waiter's first-wait tick is kept across repeated rejections
    assert!(!ss.can_do_turn(CarID(2), TurnID(2), Tick(4), &gm, &cm));
    assert_eq!(ss.waiting_since_entries(), vec![(CarID(2), Tick(3))]);
    ss.on_exit(CarID(1));
    assert_eq!(ss.accepted_entries(), vec![]);
    // with the occupant gone, the waiter is admitted and fully forgotten
    assert!(ss.can_do_turn(CarID(2), TurnID(2), Tick(5), &gm, &cm));
    assert_eq!(ss.waiting_entries(), vec![]);
    assert_eq!(ss.waiting_since_entries(), vec![]);
    assert_eq!(ss.accepted_entries(), vec![(CarID(2), TurnID(2))]);
}

#[test]
fn dispatcher_routes_to_the_stop_sign_variant() {
    let gm = two_conflicting_turns();
    let cm = stop_sign_controls(vec![
        TurnPriority::Yield,
        TurnPriority::Yield,
        TurnPriority::Yield,
    ]);
    let mut policy = IntersectionPolicy::StopSignPolicy(StopSign::new(IntersectionID(0)));
    assert_eq!(policy.id(), IntersectionID(0));
    assert!(policy.can_do_turn(CarID(1), TurnID(1), Tick(0), &gm, &cm));
    assert!(!policy.can_do_turn(CarID(2), TurnID(2), Tick(0), &gm, &cm));
    policy.on_enter(CarID(1));
    policy.on_exit(CarID(1));
    assert!(policy.can_do_turn(CarID(2), TurnID(2), Tick(1), &gm, &cm));
}
