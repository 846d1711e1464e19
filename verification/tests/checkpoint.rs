use intersections::control::{ControlMap, ControlStopSign, TurnPriority};
use intersections::geom::GeomMap;
use intersections::ids::{CarID, IntersectionID, Tick, TurnID};
use intersections::policy::{StopSign, TrafficSignal};

fn geometry() -> GeomMap {
    let mut gm = GeomMap::new(vec![10, 20, 30]);
    gm.add_conflict(TurnID(1), TurnID(2));
    gm
}

#[test]
fn stop_sign_round_trips_through_its_snapshot() {
    let gm = geometry();
    let mut cm = ControlMap::new(1);
    cm.set_stop_sign(
        IntersectionID(0),
        ControlStopSign::new(vec![
            TurnPriority::Yield,
            TurnPriority::Yield,
            TurnPriority::Yield,
        ]),
    );
    let mut ss = StopSign::new(IntersectionID(0));
    assert!(ss.can_do_turn(CarID(1), TurnID(1), Tick(0), &gm, &cm));
    assert!(!ss.can_do_turn(CarID(2), TurnID(2), Tick(3), &gm, &cm));
    let restored = StopSign::from_parts(
        ss.id(),
        ss.waiting_since_entries(),
        ss.accepted_entries(),
        ss.waiting_entries(),
        &gm,
    )
    .unwrap();
    assert_eq!(restored.id(), ss.id());
    assert_eq!(restored.accepted_entries(), ss.accepted_entries());
    assert_eq!(restored.waiting_entries(), ss.waiting_entries());
    assert_eq!(restored.waiting_since_entries(), ss.waiting_since_entries());
    // the restored policy behaves like the original
    let mut restored = restored;
    assert!(!restored.can_do_turn(CarID(2), TurnID(2), Tick(4), &gm, &cm));
    restored.on_exit(CarID(1));
    assert!(restored.can_do_turn(CarID(2), TurnID(2), Tick(5), &gm, &cm));
}

#[test]
fn restore_refuses_duplicate_cars() {
    let gm = geometry();
    let rows = vec![(CarID(1), TurnID(0)), (CarID(1), TurnID(0))];
    assert!(StopSign::from_parts(IntersectionID(0), vec![], rows, vec![], &gm).is_none());
}

#[test]
fn restore_refuses_conflicting_occupants() {
    let gm = geometry();
    let rows = vec![(CarID(1), TurnID(1)), (CarID(2), TurnID(2))];
    assert!(StopSign::from_parts(IntersectionID(0), vec![], rows, vec![], &gm).is_none());
    let fine = vec![(CarID(1), TurnID(0)), (CarID(2), TurnID(2))];
    assert!(StopSign::from_parts(IntersectionID(0), vec![], fine, vec![], &gm).is_some());
}

#[test]
fn restore_refuses_turns_outside_the_map() {
    let gm = geometry();
    let rows = vec![(CarID(1), TurnID(3))];
    assert!(StopSign::from_parts(IntersectionID(0), vec![], rows, vec![], &gm).is_none());
}

#[test]
fn restore_refuses_mismatched_wait_bookkeeping() {
    let gm = geometry();
    // a wait-start row without a matching waiting row
    assert!(StopSign::from_parts(
        IntersectionID(0),
        vec![(CarID(5), Tick(2))],
        vec![],
        vec![],
        &gm
    )
    .is_none());
    // a car recorded as both accepted and waiting
    assert!(StopSign::from_parts(
        IntersectionID(0),
        vec![(CarID(5), Tick(2))],
        vec![(CarID(5), TurnID(0))],
        vec![(CarID(5), TurnID(0))],
        &gm
    )
    .is_none());
    // consistent rows are accepted
    assert!(StopSign::from_parts(
        IntersectionID(0),
        vec![(CarID(5), Tick(2))],
        vec![],
        vec![(CarID(5), TurnID(0))],
        &gm
    )
    .is_some());
}

#[test]
fn signal_round_trips_through_its_snapshot() {
    let gm = geometry();
    let ts = TrafficSignal::from_parts(
        IntersectionID(3),
        vec![(CarID(7), TurnID(2))],
        &gm,
    )
    .unwrap();
    assert_eq!(ts.id(), IntersectionID(3));
    assert_eq!(ts.accepted_entries(), vec![(CarID(7), TurnID(2))]);
    assert!(TrafficSignal::from_parts(
        IntersectionID(3),
        vec![(CarID(7), TurnID(2)), (CarID(7), TurnID(0))],
        &gm
    )
    .is_none());
    assert!(TrafficSignal::from_parts(IntersectionID(3), vec![(CarID(7), TurnID(9))], &gm)
        .is_none());
}
