use lttp_autotimer::check::Check;
use lttp_autotimer::condition::{ConditionTransition, Conditions, Coordinate, Value};
use lttp_autotimer::evaluable::{
    all_evaluable, can_read_address, check_evaluable, condition_evaluable, coordinates_evaluable,
    tiles_evaluable,
};
use lttp_autotimer::event::EventTracker;
use lttp_autotimer::parse_ram::CheckKind;
use lttp_autotimer::snes::SnesRam;
use lttp_autotimer::tile::Tile;
use std::collections::VecDeque;

#[test]
fn readable_addresses() {
    let ram = SnesRam::new();
    assert!(can_read_address(&ram, 0));
    assert!(can_read_address(&ram, 0xf021));
    assert!(!can_read_address(&ram, 0x4c9));
    assert!(!can_read_address(&ram, 0x100000));
}

#[test]
fn unimplemented_conditions_cannot_be_evaluated() {
    let ram = SnesRam::new();
    let events = EventTracker::starting_at(0);
    let mut history = VecDeque::new();
    assert!(!condition_evaluable(&Conditions::BitWiseTrue { sram_offset: 0, sram_mask: 1 }, &events, &ram, &mut history));
    assert!(!condition_evaluable(
        &Conditions::ValueGreaterThan { sram_offset: 0, other: Value::CheckCount(1) },
        &events,
        &ram,
        &mut history
    ));
    assert!(condition_evaluable(&Conditions::ValueEq { sram_offset: 0x10, sram_value: 1 }, &events, &ram, &mut history));
    assert!(condition_evaluable(
        &Conditions::PreviousTile(ConditionTransition { id: 1, address_value: None, indoors: None }),
        &events,
        &ram,
        &mut history
    ));
}

#[test]
fn evaluation_stops_at_the_condition_that_decides() {
    // An outdoor read: `Underworld` fails, so nothing after it in a list is evaluated.
    let ram = SnesRam::new();
    let events = EventTracker::starting_at(0);
    let mut history = VecDeque::new();
    let unimplemented = Conditions::BitWiseTrue { sram_offset: 0, sram_mask: 1 };
    let list = vec![Conditions::Underworld, unimplemented.deep_clone()];
    assert!(all_evaluable(&list, &events, &ram, &mut history));
    assert!(!all_evaluable(&vec![unimplemented.deep_clone(), Conditions::Underworld], &events, &ram, &mut history));
    assert!(condition_evaluable(&Conditions::All { subconditions: vec![Conditions::Underworld, unimplemented.deep_clone()] }, &events, &ram, &mut history));
    // `Any` and `Not` stop at the first subcondition that holds.
    let holds = Conditions::ValueEq { sram_offset: 0x10, sram_value: 0 };
    let fails = Conditions::ValueEq { sram_offset: 0x10, sram_value: 1 };
    let any_decided = Conditions::Any { subconditions: vec![holds.deep_clone(), unimplemented.deep_clone()] };
    let any_undecided = Conditions::Any { subconditions: vec![fails.deep_clone(), unimplemented.deep_clone()] };
    assert!(condition_evaluable(&any_decided, &events, &ram, &mut history));
    assert!(!condition_evaluable(&any_undecided, &events, &ram, &mut history));
    assert!(condition_evaluable(&Conditions::Not { subconditions: vec![holds, unimplemented.deep_clone()] }, &events, &ram, &mut history));
    assert!(!condition_evaluable(&Conditions::Not { subconditions: vec![fails, unimplemented] }, &events, &ram, &mut history));
    assert!(history.is_empty());
}

#[test]
fn checks_need_readable_addresses() {
    let ram = SnesRam::new();
    let events = EventTracker::starting_at(0);
    let mut history = VecDeque::new();
    let good = Check { sram_offset: Some(0xf021), ..Default::default() };
    let bad = Check { sram_offset: Some(0x5000), ..Default::default() };
    assert!(check_evaluable(&CheckKind::Location, &good, &events, &ram, &mut history));
    assert!(!check_evaluable(&CheckKind::Location, &bad, &events, &ram, &mut history));
}

#[test]
fn checked_items_skip_their_conditions() {
    let ram = SnesRam::new();
    let events = EventTracker::starting_at(0);
    let mut history = VecDeque::new();
    let conditions = || Some(vec![Conditions::BitWiseTrue { sram_offset: 0, sram_mask: 1 }]);
    let done = Check { sram_offset: Some(0xf021), is_checked: true, conditions: conditions(), ..Default::default() };
    let open = Check { sram_offset: Some(0xf021), conditions: conditions(), ..Default::default() };
    let progressive = Check { is_checked: true, is_progressive: true, ..open.deep_clone() };
    assert!(check_evaluable(&CheckKind::Item, &done, &events, &ram, &mut history));
    assert!(check_evaluable(&CheckKind::Other, &done, &events, &ram, &mut history));
    assert!(!check_evaluable(&CheckKind::Item, &open, &events, &ram, &mut history));
    assert!(!check_evaluable(&CheckKind::Other, &progressive, &events, &ram, &mut history));
}

#[test]
fn chest_bounds_must_stay_in_range() {
    let ram = SnesRam::new();
    assert!(!coordinates_evaluable(&[Coordinate::Chest { x: 5, y: 5 }], &ram));
    assert!(coordinates_evaluable(&[Coordinate::Chest { x: 500, y: 5 }], &ram));
    // A match before it stops the evaluation.
    assert!(coordinates_evaluable(&[Coordinate::Pair { x: 0, y: 0 }, Coordinate::Chest { x: 5, y: 5 }], &ram));
}

#[test]
fn shared_tiles_need_conditions() {
    let ram = SnesRam::new();
    let tiles = vec![
        Tile { id: 1, address_value: vec![0], ..Default::default() },
        Tile { id: 2, address_value: vec![0], ..Default::default() },
    ];
    assert!(!tiles_evaluable(&tiles, 0, &ram));
    let single = vec![Tile { id: 1, address_value: vec![0], ..Default::default() }];
    assert!(tiles_evaluable(&single, 0, &ram));
}
