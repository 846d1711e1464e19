use intersections::control::{ControlMap, ControlStopSign, Cycle, TurnPriority};
use intersections::geom::GeomMap;
use intersections::ids::{CarID, IntersectionID, Tick, TurnID};
use intersections::policy::StopSign;

#[test]
fn conflicts_are_symmetric_and_lengths_are_kept() {
    let mut gm = GeomMap::new(vec![10, 20, 30, 40]);
    assert_eq!(gm.turn_count(), 4);
    assert!(!gm.conflicts_between(TurnID(0), TurnID(3)));
    gm.add_conflict(TurnID(0), TurnID(3));
    assert!(gm.conflicts_between(TurnID(0), TurnID(3)));
    assert!(gm.conflicts_between(TurnID(3), TurnID(0)));
    assert!(!gm.conflicts_between(TurnID(1), TurnID(2)));
    assert_eq!(gm.get_length(TurnID(0)), 10);
    assert_eq!(gm.get_length(TurnID(3)), 40);
}

#[test]
fn priorities_are_strictly_ordered() {
    assert!(TurnPriority::Yield.is_higher_than(TurnPriority::Stop));
    assert!(TurnPriority::Priority.is_higher_than(TurnPriority::Yield));
    assert!(TurnPriority::Priority.is_higher_than(TurnPriority::Stop));
    assert!(!TurnPriority::Stop.is_higher_than(TurnPriority::Stop));
    assert!(!TurnPriority::Stop.is_higher_than(TurnPriority::Yield));
}

#[test]
fn stop_sign_config_reports_per_turn_priorities() {
    let ss = ControlStopSign::new(vec![TurnPriority::Stop, TurnPriority::Priority]);
    assert_eq!(ss.get_priority(TurnID(0)), TurnPriority::Stop);
    assert_eq!(ss.get_priority(TurnID(1)), TurnPriority::Priority);
}

#[test]
fn cycles_report_their_turns_and_duration() {
    let c = Cycle::new(vec![TurnID(2), TurnID(5)], 30);
    assert!(c.contains(TurnID(2)));
    assert!(c.contains(TurnID(5)));
    assert!(!c.contains(TurnID(3)));
    assert_eq!(c.duration(), 30);
}

#[test]
fn control_map_holds_one_configuration_per_intersection() {
    let mut cm = ControlMap::new(2);
    cm.set_stop_sign(
        IntersectionID(0),
        ControlStopSign::new(vec![TurnPriority::Stop]),
    );
    assert_eq!(
        cm.get_stop_sign(IntersectionID(0)).get_priority(TurnID(0)),
        TurnPriority::Stop
    );
    let signal =
        intersections::control::ControlTrafficSignal::new(vec![Cycle::new(vec![TurnID(0)], 10)])
            .unwrap();
    cm.set_traffic_signal(IntersectionID(1), signal);
    assert_eq!(
        cm.get_traffic_signal(IntersectionID(1))
            .current_cycle_and_remaining_time(Tick(3)),
        (0, 7)
    );
}

#[test]
fn a_car_changing_its_requested_turn_keeps_one_waiting_entry() {
    let mut gm = GeomMap::new(vec![10, 20, 30]);
    gm.add_conflict(TurnID(1), TurnID(2));
    gm.add_conflict(TurnID(0), TurnID(1));
    let mut cm = ControlMap::new(1);
    cm.set_stop_sign(
        IntersectionID(0),
        ControlStopSign::new(vec![
            TurnPriority::Yield,
            TurnPriority::Yield,
            TurnPriority::Yield,
        ]),
    );
    let mut ss = StopSign::new(IntersectionID(0));
    assert!(ss.can_do_turn(CarID(1), TurnID(1), Tick(0), &gm, &cm));
    // car 2 first asks for turn 2, then switches to turn 0; both conflict
    // with the occupant, and the waiting table records only the latest turn
    assert!(!ss.can_do_turn(CarID(2), TurnID(2), Tick(0), &gm, &cm));
    assert!(!ss.can_do_turn(CarID(2), TurnID(0), Tick(1), &gm, &cm));
    assert_eq!(ss.waiting_entries(), vec![(CarID(2), TurnID(0))]);
    assert_eq!(ss.waiting_since_entries(), vec![(CarID(2), Tick(0))]);
}
