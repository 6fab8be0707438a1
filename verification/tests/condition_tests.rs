use lttp_autotimer::condition::{coordinate_condition_met, dungeon_counter_condition_met, ram_value_change_condition_met, Coordinate};
use lttp_autotimer::snes::{SetNamedAddresses, SnesRam};
use std::collections::VecDeque;

fn point(x: u16, y: u16) -> Coordinate {
    Coordinate::Pair { x, y }
}

#[test]
fn pair_matches_only_itself() {
    assert!(point(1272, 3800).matches(&Coordinate::Pair { x: 1272, y: 3800 }));
    assert!(!point(1272, 3801).matches(&Coordinate::Pair { x: 1272, y: 3800 }));
}

#[test]
fn range_is_inclusive() {
    let range = Coordinate::Range { x: (1273, 1273), y: (3664, 3665) };
    assert!(point(1273, 3664).matches(&range));
    assert!(point(1273, 3665).matches(&range));
    assert!(!point(1273, 3666).matches(&range));
    assert!(!point(1274, 3664).matches(&range));
}

#[test]
fn chest_is_a_box_around_it() {
    let chest = Coordinate::Chest { x: 100, y: 200 };
    assert!(point(90, 199).matches(&chest));
    assert!(point(110, 203).matches(&chest));
    assert!(!point(89, 200).matches(&chest));
    assert!(!point(100, 204).matches(&chest));
    assert!(!point(100, 198).matches(&chest));
}

#[test]
fn big_chest_is_wider() {
    let chest = Coordinate::BigChest { x: 100, y: 200 };
    assert!(point(76, 200).matches(&chest));
    assert!(point(124, 200).matches(&chest));
    assert!(!point(75, 200).matches(&chest));
}

#[test]
fn stairs_allow_three_on_the_y_axis() {
    let stairs = Coordinate::Stairs { x: 50, y: 60 };
    assert!(point(50, 57).matches(&stairs));
    assert!(point(50, 63).matches(&stairs));
    assert!(!point(50, 64).matches(&stairs));
    assert!(!point(51, 60).matches(&stairs));
}

#[test]
fn coordinate_conditions_use_the_right_point() {
    let mut ram = SnesRam::new();
    ram.set_transition_x(1272);
    ram.set_transition_y(568);
    ram.set_x(500);
    ram.set_y(600);
    let transition = [Coordinate::Pair { x: 1, y: 1 }, Coordinate::Pair { x: 1272, y: 568 }];
    assert!(coordinate_condition_met(&transition, &ram));
    let chest = [Coordinate::Chest { x: 505, y: 601 }];
    assert!(coordinate_condition_met(&chest, &ram));
    let none = [Coordinate::Pair { x: 1272, y: 960 }];
    assert!(!coordinate_condition_met(&none, &ram));
    assert!(Coordinate::from_transition_coords(&ram) == Coordinate::Pair { x: 1272, y: 568 });
    assert!(Coordinate::from_continuous_coords(&ram) == Coordinate::Pair { x: 500, y: 600 });
}

#[test]
fn dungeon_counter_increase_needs_history() {
    let mut before = SnesRam::new();
    before.dunka_chunka[5] = 2;
    let mut now = SnesRam::new();
    now.dunka_chunka[5] = 3;
    let offset: usize = 0xf021 + 5;
    let empty: VecDeque<SnesRam> = VecDeque::new();
    assert!(!dungeon_counter_condition_met(&empty, &now, &offset));
    let mut history = VecDeque::new();
    history.push_back(before);
    assert!(dungeon_counter_condition_met(&history, &now, &offset));
}

#[test]
fn value_change_compares_with_the_latest_read() {
    let mut before = SnesRam::new();
    before.dunka_chunka[0] = 1;
    let mut now = SnesRam::new();
    now.dunka_chunka[0] = 1;
    let offset: usize = 0xf021;
    let mut history = VecDeque::new();
    history.push_back(before);
    assert!(!ram_value_change_condition_met(&mut history, &now, &offset));
    now.dunka_chunka[0] = 4;
    assert!(ram_value_change_condition_met(&mut history, &now, &offset));
}
