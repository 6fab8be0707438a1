use lttp_autotimer::check::Check;
use lttp_autotimer::event::{CommandState, Event, EventCompactor, EventEnum, EventLog, EventTracker};
use lttp_autotimer::tile::Tile;

fn event_log(extra_event: Option<(usize, EventEnum)>) -> Vec<EventEnum> {
    let mut log = vec![
        EventEnum::ItemGet(Check { id: 0, ..Default::default() }),
        EventEnum::Transition(Tile { id: 1, ..Default::default() }),
        EventEnum::LocationCheck(Check { id: 2, ..Default::default() }),
        EventEnum::Transition(Tile { id: 3, ..Default::default() }),
        EventEnum::LocationCheck(Check { id: 4, ..Default::default() }),
        EventEnum::ItemGet(Check { id: 5, ..Default::default() }),
        EventEnum::Action(Check { id: 6, ..Default::default() }),
    ];
    if let Some((idx, event)) = extra_event {
        log.insert(idx, event)
    };
    log
}

#[test]
fn new_event_tracker_is_initialized_with_start_transition() {
    let last_transition = EventTracker::new().latest_transition().unwrap();
    assert!(last_transition.address_value == [0x0]);
    assert!(last_transition.name == "AUTO_TIMER_START");
    assert!(last_transition.indoors == false);
}

#[test]
fn tracker_starting_at_is_stamped() {
    let t = EventTracker::starting_at(1234).latest_transition().unwrap();
    assert_eq!(t.id, 9000);
    assert_eq!(t.timestamp, Some(1234));
    assert_eq!(t.region, "START");
}

#[test]
fn latest_transition() {
    let tracker = EventTracker::from(event_log(None));
    assert_eq!(tracker.latest_transition(), Some(Tile { id: 3, ..Default::default() }));
}

#[test]
fn latest_location_check() {
    let tracker = EventTracker::from(event_log(None));
    assert_eq!(tracker.latest_location_check(), Some(Check::new(4)));
}

#[test]
fn latest_item_get() {
    let tracker = EventTracker::from(event_log(None));
    assert_eq!(tracker.latest_item_get(), Some(Check::new(5)));
}

#[test]
fn latest_action() {
    let tracker = EventTracker::from(event_log(None));
    assert_eq!(tracker.latest_action(), Some(Check::new(6)));
}

#[test]
fn empty_log_has_no_latest_events() {
    let tracker = EventTracker::from(vec![]);
    assert_eq!(tracker.latest_transition(), None);
    assert_eq!(tracker.latest_location_check(), None);
    assert_eq!(tracker.latest_item_get(), None);
    assert_eq!(tracker.latest_action(), None);
    assert_eq!(tracker.latest_other_event(), None);
}

#[test]
fn find_other_event() {
    let tracker = EventTracker::from(event_log(Some((3, EventEnum::Other(Check::new(16))))));
    assert_eq!(tracker.find_other_event(16).unwrap().id, 16);
    assert_eq!(EventTracker::from(vec![]).find_other_event(12), None);
    assert_eq!(EventTracker::from(event_log(None)).find_other_event(2), None);
}

#[test]
fn find_location_check() {
    let tracker = EventTracker::from(event_log(Some((5, EventEnum::LocationCheck(Check::new(31))))));
    assert_eq!(tracker.find_location_check(31).unwrap().id, 31);
    assert_eq!(EventTracker::from(vec![]).find_location_check(12), None);
    assert_eq!(EventTracker::from(event_log(None)).find_location_check(0), None);
}

#[test]
fn find_all_with_id() {
    let others = EventTracker::from(event_log(Some((3, EventEnum::Other(Check::new(16))))));
    assert_eq!(others.others_with_id(16).len(), 1);
    let items = EventTracker::from(event_log(Some((3, EventEnum::ItemGet(Check::new(0))))));
    assert_eq!(items.items_with_id(0).len(), 2);
    let checks = EventTracker::from(event_log(Some((3, EventEnum::LocationCheck(Check::new(4))))));
    assert_eq!(checks.location_checks_with_id(4).len(), 2);
    let plain = EventTracker::from(event_log(None));
    assert_eq!(plain.others_with_id(999).len(), 0);
    assert_eq!(plain.items_with_id(999).len(), 0);
    assert_eq!(plain.location_checks_with_id(999).len(), 0);
}

#[test]
fn latest_command_is_found_by_id() {
    let mut tracker = EventTracker::from(event_log(None));
    let mut first = Check::new(1);
    first.time_of_check = Some(10);
    let mut second = Check::new(1);
    second.time_of_check = Some(20);
    tracker.push(EventEnum::Command(first));
    tracker.push(EventEnum::Command(second));
    assert_eq!(tracker.find_latest_command_by(1).unwrap().time_of_check, Some(20));
    assert_eq!(tracker.find_latest_command_by(2), None);
}

#[test]
fn pushed_transition_is_the_latest() {
    let mut tracker = EventTracker::from(event_log(None));
    tracker.push(EventEnum::Transition(Tile { id: 77, ..Default::default() }));
    assert_eq!(tracker.latest_transition().unwrap().id, 77);
    tracker.push(EventEnum::LocationCheck(Check::new(8)));
    assert_eq!(tracker.latest_transition().unwrap().id, 77);
}

#[test]
fn latest_objective_skips_actions_and_commands() {
    let mut tracker = EventTracker::from(event_log(None));
    tracker.push(EventEnum::Command(Check::new(1)));
    match tracker.latest_objective() {
        Some(EventEnum::ItemGet(c)) => assert_eq!(c.id, 5),
        other => panic!("unexpected {:?}", other),
    }
}

#[test]
fn objectives_between_commands() {
    let start = Check { id: 1, time_of_check: Some(1), ..Default::default() };
    let end = Check { id: 2, time_of_check: Some(9), ..Default::default() };
    let log = vec![
        EventEnum::LocationCheck(Check::new(30)),
        EventEnum::Command(start.deep_clone()),
        EventEnum::Transition(Tile { id: 40, ..Default::default() }),
        EventEnum::Action(Check::new(41)),
        EventEnum::ItemGet(Check::new(42)),
        EventEnum::Command(end.deep_clone()),
        EventEnum::ItemGet(Check::new(43)),
    ];
    let tracker = EventTracker::from(log);
    // Commands are dropped before the end is looked for, so a command never ends the list.
    let between = tracker.objectives_between(EventEnum::Command(start), Some(EventEnum::Command(end)));
    assert_eq!(between.len(), 3);
    assert!(matches!(&between[0], EventEnum::Transition(t) if t.id == 40));
    assert!(matches!(&between[1], EventEnum::ItemGet(c) if c.id == 42));
    assert!(matches!(&between[2], EventEnum::ItemGet(c) if c.id == 43));
    // An end that is kept stops it.
    let until_item = tracker.objectives_between(
        EventEnum::Command(Check { id: 1, time_of_check: Some(1), ..Default::default() }),
        Some(EventEnum::ItemGet(Check::new(42))),
    );
    assert_eq!(until_item.len(), 1);
}

#[test]
fn compact_merges_checks_made_at_the_same_time() {
    let a = Check { id: 1, name: "Link's House".to_string(), time_of_check: Some(5), ..Default::default() };
    let b = Check { id: 2, name: "Lamp".to_string(), time_of_check: Some(5), ..Default::default() };
    let c = Check { id: 3, name: "Sword".to_string(), time_of_check: Some(6), ..Default::default() };
    let events = vec![
        EventEnum::LocationCheck(a),
        EventEnum::ItemGet(b),
        EventEnum::Command(Check::new(2)),
        EventEnum::ItemGet(c),
    ];
    let compacted = events.compact();
    assert_eq!(compacted.len(), 2);
    match &compacted[0] {
        EventEnum::Composite((name, first, second)) => {
            assert_eq!(name, "Link's House & Lamp");
            assert_eq!(first.id, 1);
            assert_eq!(second.id, 2);
        }
        other => panic!("unexpected {:?}", other),
    }
    assert!(matches!(&compacted[1], EventEnum::ItemGet(c) if c.id == 3));
}

#[test]
fn compact_drops_commands() {
    let events = vec![EventEnum::Command(Check::new(1)), EventEnum::Command(Check::new(2))];
    assert_eq!(events.compact().len(), 0);
}

#[test]
fn event_names() {
    assert_eq!(EventEnum::LocationCheck(Check { name: "Mushroom".to_string(), ..Default::default() }).name(), "Mushroom");
    assert_eq!(EventEnum::Transition(Tile { name: "Hobo".to_string(), ..Default::default() }).name(), "Hobo");
}

#[test]
fn record_from_transition() {
    let tile = Tile { id: 1337, region: "A great region".to_string(), timestamp: Some(200), ..Default::default() };
    assert_eq!(
        Event::from_tile(&tile),
        Event { tile_id: Some(1337), timestamp: 200, indoors: Some(false), ..Default::default() }
    );
}

#[test]
fn record_from_item() {
    let check = Check { id: 27, is_item: true, progressive_level: 3, time_of_check: Some(200), ..Default::default() };
    assert_eq!(
        Event::from_check(&check),
        Event { item_id: Some(27), timestamp: 200, ..Default::default() }
    );
}

#[test]
fn record_from_location_check() {
    let check = Check { id: 12, time_of_check: Some(300), ..Default::default() };
    assert_eq!(
        Event::from_check(&check),
        Event { location_id: Some(12), timestamp: 300, ..Default::default() }
    );
}

#[test]
fn idle_is_a_command_state() {
    assert_eq!(CommandState::Idle, CommandState::Idle);
    assert_ne!(CommandState::Idle, CommandState::SegmentRecorded);
}

#[test]
fn only_timed_events_are_recordable() {
    let timed = Check { id: 2, time_of_check: Some(5), ..Default::default() };
    let untimed = Check { id: 3, ..Default::default() };
    assert!(EventEnum::LocationCheck(timed).is_recordable());
    assert!(!EventEnum::ItemGet(untimed).is_recordable());
    let start = EventTracker::starting_at(7);
    assert!(start.latest_transition().unwrap().timestamp.is_some());
}

fn timed(id: usize, time: i64) -> Check {
    Check { id, name: format!("check {}", id), time_of_check: Some(time), ..Default::default() }
}

#[test]
fn compacting_twice_is_compacting_once() {
    let events = vec![
        EventEnum::LocationCheck(timed(1, 5)),
        EventEnum::ItemGet(timed(2, 5)),
        EventEnum::Other(timed(3, 5)),
        EventEnum::Command(Check::new(2)),
        EventEnum::ItemGet(timed(4, 6)),
        EventEnum::Transition(Tile { id: 7, ..Default::default() }),
        EventEnum::LocationCheck(timed(5, 6)),
    ];
    let once = events.compact();
    assert!(once.len() <= 7);
    let copy: Vec<EventEnum> = once.iter().map(|e| e.deep_clone()).collect();
    assert_eq!(copy.compact(), once);
}

#[test]
fn a_compacted_log_is_left_as_it_is() {
    let events = vec![
        EventEnum::LocationCheck(timed(1, 5)),
        EventEnum::ItemGet(timed(2, 6)),
        EventEnum::Transition(Tile { id: 7, ..Default::default() }),
        EventEnum::Other(timed(3, 6)),
        EventEnum::ItemGet(timed(4, 7)),
    ];
    let copy: Vec<EventEnum> = events.iter().map(|e| e.deep_clone()).collect();
    assert_eq!(events.compact(), copy);
}
