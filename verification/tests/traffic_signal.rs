use intersections::control::{ControlMap, ControlTrafficSignal, Cycle};
use intersections::geom::GeomMap;
use intersections::ids::{CarID, IntersectionID, Tick, TurnID};
use intersections::policy::{IntersectionPolicy, TrafficSignal};

// Eight turns; turn 7 is 20 distance units long. At the speed limit of
// 5 units per second its crossing time is 4 simulated seconds (40 ticks).
fn signal_world() -> (GeomMap, ControlMap) {
    let gm = GeomMap::new(vec![5, 5, 5, 5, 5, 5, 5, 20]);
    // turn 7 is legal for 10 simulated seconds (100 ticks), then turn 0
    // for 5 seconds (50 ticks)
    let cycles = vec![
        Cycle::new(vec![TurnID(7)], 100),
        Cycle::new(vec![TurnID(0)], 50),
    ];
    let signal = ControlTrafficSignal::new(cycles).unwrap();
    let mut cm = ControlMap::new(1);
    cm.set_traffic_signal(IntersectionID(0), signal);
    (gm, cm)
}

#[test]
fn admitted_when_crossing_fits_in_remaining_cycle_time() {
    let (gm, cm) = signal_world();
    let mut ts = TrafficSignal::new(IntersectionID(0));
    // at t=0: 4 s crossing < 10 s remaining
    assert!(ts.can_do_turn(CarID(1), TurnID(7), Tick(0), &gm, &cm));
}

#[test]
fn rejected_when_crossing_no_longer_fits() {
    let (gm, cm) = signal_world();
    let mut ts = TrafficSignal::new(IntersectionID(0));
    // at t=7 s (70 ticks): 3 s remaining < 4 s crossing
    assert!(!ts.can_do_turn(CarID(1), TurnID(7), Tick(70), &gm, &cm));
}

#[test]
fn clearance_boundary_is_strict() {
    let (gm, cm) = signal_world();
    let mut ts = TrafficSignal::new(IntersectionID(0));
    // at t=60 ticks the remaining 40 ticks exactly equal the crossing time
    assert!(!ts.can_do_turn(CarID(1), TurnID(7), Tick(60), &gm, &cm));
    // one tick earlier the crossing is marginally shorter than the remainder
    assert!(ts.can_do_turn(CarID(2), TurnID(7), Tick(59), &gm, &cm));
}

#[test]
fn rejected_when_cycle_does_not_allow_the_turn() {
    let (gm, cm) = signal_world();
    let mut ts = TrafficSignal::new(IntersectionID(0));
    // during the second cycle only turn 0 is legal
    assert!(!ts.can_do_turn(CarID(1), TurnID(7), Tick(110), &gm, &cm));
    assert!(ts.can_do_turn(CarID(2), TurnID(0), Tick(110), &gm, &cm));
}

#[test]
fn schedule_repeats_after_its_total_duration() {
    let (gm, cm) = signal_world();
    let mut ts = TrafficSignal::new(IntersectionID(0));
    // 150 ticks into the simulation the schedule has wrapped to its start
    assert!(ts.can_do_turn(CarID(1), TurnID(7), Tick(150), &gm, &cm));
}

#[test]
fn signal_admission_is_idempotent_until_exit() {
    let (gm, cm) = signal_world();
    let mut ts = TrafficSignal::new(IntersectionID(0));
    assert!(ts.can_do_turn(CarID(1), TurnID(7), Tick(0), &gm, &cm));
    // the occupant keeps its admission even once the remaining time is short
    assert!(ts.can_do_turn(CarID(1), TurnID(7), Tick(70), &gm, &cm));
    ts.on_enter(CarID(1));
    ts.on_exit(CarID(1));
    assert_eq!(ts.accepted_entries(), vec![]);
    assert_eq!(ts.id(), IntersectionID(0));
}

#[test]
fn dispatcher_routes_to_the_traffic_signal_variant() {
    let (gm, cm) = signal_world();
    let mut policy = IntersectionPolicy::TrafficSignalPolicy(TrafficSignal::new(IntersectionID(0)));
    assert_eq!(policy.id(), IntersectionID(0));
    assert!(policy.can_do_turn(CarID(1), TurnID(7), Tick(0), &gm, &cm));
    assert!(!policy.can_do_turn(CarID(2), TurnID(7), Tick(70), &gm, &cm));
    policy.on_enter(CarID(1));
    policy.on_exit(CarID(1));
}

#[test]
fn current_cycle_and_remaining_time_walks_the_schedule() {
    let cycles = vec![
        Cycle::new(vec![TurnID(7)], 100),
        Cycle::new(vec![TurnID(0)], 50),
    ];
    let signal = ControlTrafficSignal::new(cycles).unwrap();
    assert_eq!(signal.current_cycle_and_remaining_time(Tick(0)), (0, 100));
    assert_eq!(signal.current_cycle_and_remaining_time(Tick(99)), (0, 1));
    assert_eq!(signal.current_cycle_and_remaining_time(Tick(100)), (1, 50));
    assert_eq!(signal.current_cycle_and_remaining_time(Tick(149)), (1, 1));
    assert_eq!(signal.current_cycle_and_remaining_time(Tick(150)), (0, 100));
    assert_eq!(signal.current_cycle_and_remaining_time(Tick(370)), (0, 30));
    assert_eq!(signal.current_cycle_and_remaining_time(Tick(430)), (1, 20));
}

#[test]
fn unusable_schedules_are_refused() {
    assert!(ControlTrafficSignal::new(vec![]).is_none());
    let zero = vec![Cycle::new(vec![TurnID(0)], 10), Cycle::new(vec![TurnID(1)], 0)];
    assert!(ControlTrafficSignal::new(zero).is_none());
    let overflowing = vec![
        Cycle::new(vec![TurnID(0)], u64::MAX),
        Cycle::new(vec![TurnID(1)], 1),
    ];
    assert!(ControlTrafficSignal::new(overflowing).is_none());
    let fine = vec![Cycle::new(vec![TurnID(0)], 1)];
    assert!(ControlTrafficSignal::new(fine).is_some());
}
