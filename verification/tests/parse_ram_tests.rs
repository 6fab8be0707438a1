use lttp_autotimer::check::Check;
use lttp_autotimer::condition::{Conditions, Coordinate, Value};
use lttp_autotimer::event::{EventEnum, EventLog, EventTracker};
use lttp_autotimer::parse_ram::{
    all_conditions_met, check_for_commands, check_for_events, check_for_item_checks,
    check_for_location_checks, check_for_transitions, match_condition,
};
use lttp_autotimer::snes::{SnesRam, SnesRamInitializer};
use lttp_autotimer::tile::Tile;
use std::collections::VecDeque;

const SAVE: usize = 0xf021;

fn ram_with_save_byte(index: usize, value: u8) -> SnesRam {
    let mut ram = SnesRam::new();
    ram.dunka_chunka[index] = value;
    ram
}

#[test]
fn location_check_without_conditions_needs_a_change_and_the_mask() {
    let mut checks = vec![Check {
        id: 1,
        name: "Mushroom".to_string(),
        sram_offset: Some((SAVE + 3) as u32),
        sram_mask: Some(0x10),
        ..Default::default()
    }];
    let mut events = EventTracker::new();
    let mut history = VecDeque::new();
    history.push_back(ram_with_save_byte(3, 0));
    // No change of the masked bit yet.
    let same = ram_with_save_byte(3, 0);
    assert!(check_for_location_checks(&same, &mut history, &mut checks, &mut events, 10).is_empty());
    // The bit is set now.
    let set = ram_with_save_byte(3, 0x10);
    let logged = check_for_location_checks(&set, &mut history, &mut checks, &mut events, 20);
    assert_eq!(logged.len(), 1);
    assert!(checks[0].is_checked);
    assert_eq!(checks[0].time_of_check, Some(20));
    assert_eq!(events.latest_location_check().unwrap().id, 1);
    // Once made, it is not made again.
    history.push_back(ram_with_save_byte(3, 0));
    assert!(check_for_location_checks(&set, &mut history, &mut checks, &mut events, 30).is_empty());
}

#[test]
fn location_check_with_conditions_fires_when_they_hold() {
    let mut checks = vec![Check {
        id: 2,
        conditions: Some(vec![Conditions::ValueEq { sram_offset: SAVE + 1, sram_value: 7 }]),
        ..Default::default()
    }];
    let mut events = EventTracker::new();
    let mut history = VecDeque::new();
    let ram = ram_with_save_byte(1, 7);
    let logged = check_for_location_checks(&ram, &mut history, &mut checks, &mut events, 5);
    assert_eq!(logged.len(), 1);
    assert!(checks[0].is_checked);
}

#[test]
fn progressive_item_goes_up_when_its_value_grows() {
    let mut items = vec![Check {
        id: 9,
        sram_offset: Some((SAVE + 2) as u32),
        is_item: true,
        is_progressive: true,
        snes_value: 1,
        ..Default::default()
    }];
    let mut events = EventTracker::new();
    let mut history = VecDeque::new();
    history.push_back(ram_with_save_byte(2, 1));
    let ram = ram_with_save_byte(2, 2);
    let logged = check_for_item_checks(&ram, &mut history, &mut items, &mut events, 40);
    assert_eq!(logged.len(), 1);
    assert_eq!(items[0].progressive_level, 1);
    assert_eq!(items[0].snes_value, 2);
    assert_eq!(events.latest_item_get().unwrap().progressive_level, 1);
}

#[test]
fn reset_event_stops_the_game() {
    let mut subscribed = vec![
        Check {
            id: 0,
            name: "Reset".to_string(),
            conditions: Some(vec![Conditions::ValueEq { sram_offset: 0x10, sram_value: 0 }]),
            ..Default::default()
        },
        Check {
            id: 3,
            conditions: Some(vec![Conditions::ValueEq { sram_offset: 0x10, sram_value: 0 }]),
            ..Default::default()
        },
    ];
    let mut events = EventTracker::new();
    let mut history = VecDeque::new();
    let ram = SnesRam::new();
    let (started, logged) = check_for_events(&ram, &mut history, &mut subscribed, &mut events, 50);
    assert!(!started);
    // The run stops at the reset: the second event is not looked at.
    assert_eq!(logged.len(), 1);
    assert!(!subscribed[1].is_checked);
}

#[test]
fn no_event_keeps_the_game_going() {
    let mut subscribed = vec![Check {
        id: 4,
        conditions: Some(vec![Conditions::ValueEq { sram_offset: 0x10, sram_value: 9 }]),
        ..Default::default()
    }];
    let mut events = EventTracker::new();
    let mut history = VecDeque::new();
    let (started, logged) = check_for_events(&SnesRam::new(), &mut history, &mut subscribed, &mut events, 50);
    assert!(started);
    assert!(logged.is_empty());
}

#[test]
fn first_command_is_returned() {
    let mut commands = vec![
        Check { id: 1, conditions: Some(vec![Conditions::ValueEq { sram_offset: 0x10, sram_value: 0 }]), ..Default::default() },
        Check { id: 2, conditions: Some(vec![Conditions::ValueEq { sram_offset: 0x10, sram_value: 0 }]), ..Default::default() },
    ];
    let mut events = EventTracker::new();
    let mut history = VecDeque::new();
    let (cmd, logged) = check_for_commands(&SnesRam::new(), &mut history, &mut commands, &mut events, 60);
    assert_eq!(cmd.unwrap().id, 1);
    assert_eq!(logged.len(), 1);
    assert_eq!(commands[0].progressive_level, 1);
    assert_eq!(commands[1].progressive_level, 0);
}

#[test]
fn transition_is_logged_once() {
    let tiles = vec![Tile { id: 17, name: "Link's House OW".to_string(), address_value: vec![0x2c], ..Default::default() }];
    let mut events = EventTracker::new();
    let ram = SnesRamInitializer { overworld_tile: Some(0x2c), ..Default::default() }.build();
    let logged = check_for_transitions(&ram, &mut events, 70, &tiles);
    assert_eq!(logged.len(), 1);
    let latest = events.latest_transition().unwrap();
    assert_eq!(latest.id, 17);
    assert_eq!(latest.timestamp, Some(70));
    // Same tile again: no new transition.
    assert!(check_for_transitions(&ram, &mut events, 80, &tiles).is_empty());
}

#[test]
fn conditions_read_the_log_and_the_history() {
    let mut events = EventTracker::new();
    let mut history = VecDeque::new();
    let ram = ram_with_save_byte(0, 3);
    let item_count = Conditions::ValueGreaterThan { sram_offset: SAVE, other: Value::ItemCount(7) };
    assert!(match_condition(&item_count, &events, &ram, &mut history));
    for t in 0..3 {
        events.push(EventEnum::ItemGet(Check { id: 7, time_of_check: Some(t), ..Default::default() }));
    }
    assert!(!match_condition(&item_count, &events, &ram, &mut history));
    let not = Conditions::Not { subconditions: vec![item_count] };
    assert!(match_condition(&not, &events, &ram, &mut history));
    let made = Conditions::CheckMade { id: 12 };
    assert!(!match_condition(&made, &events, &ram, &mut history));
    events.push(EventEnum::LocationCheck(Check { id: 12, time_of_check: Some(9), ..Default::default() }));
    assert!(match_condition(&made, &events, &ram, &mut history));
    let previous = Conditions::PreviousValueEq { sram_offset: SAVE, sram_value: 3 };
    assert!(!match_condition(&previous, &events, &ram, &mut history));
    history.push_back(ram_with_save_byte(0, 3));
    assert!(match_condition(&previous, &events, &ram, &mut history));
    let all = vec![made, previous, Conditions::Any { subconditions: vec![Conditions::ValueEq { sram_offset: SAVE, sram_value: 3 }] }];
    assert!(all_conditions_met(&all, &events, &ram, &mut history));
}

#[test]
fn a_non_progressive_event_is_logged_once_over_reads() {
    let mut subscribed = vec![Check {
        id: 7,
        sram_offset: Some(0x10),
        sram_mask: Some(0x01),
        ..Default::default()
    }];
    let mut events = EventTracker::new();
    let mut history = VecDeque::new();
    let mut ram = SnesRam::new();
    ram.tile_info_chunk[0x10] = 1;
    let (_, first) = check_for_events(&ram, &mut history, &mut subscribed, &mut events, 50);
    assert_eq!(first.len(), 1);
    assert!(subscribed[0].is_checked);
    let (_, second) = check_for_events(&ram, &mut history, &mut subscribed, &mut events, 60);
    assert!(second.is_empty());
    assert_eq!(subscribed[0].time_of_check, Some(50));
}

fn coordinate_tile(id: usize, name: &str, indoors: bool, values: Vec<u16>, coordinates: Vec<Coordinate>) -> Tile {
    Tile {
        id,
        name: name.to_string(),
        address_value: values,
        indoors,
        conditions: Some(vec![Conditions::Coordinates { coordinates }]),
        ..Default::default()
    }
}

fn coordinate_table() -> Vec<Tile> {
    vec![
        Tile { id: 17, name: "Link's House OW".to_string(), address_value: vec![0x2c], ..Default::default() },
        coordinate_tile(
            100,
            "Eastern Palace - Abyss Bridge",
            true,
            vec![0x8],
            vec![Coordinate::Range { x: (4850, 4860), y: (6330, 6340) }],
        ),
        coordinate_tile(101, "Eastern Palace - Entrance", true, vec![0x8], vec![Coordinate::Pair { x: 7936, y: 6648 }]),
        coordinate_tile(
            102,
            "Eastern Palace - Big Chest",
            true,
            vec![0x8],
            vec![Coordinate::BigChest { x: 2920, y: 4480 }],
        ),
        coordinate_tile(
            103,
            "Desert Palace - Stairs",
            true,
            vec![0x9, 0xa],
            vec![Coordinate::Stairs { x: 1200, y: 3000 }, Coordinate::Pair { x: 3100, y: 3600 }],
        ),
        coordinate_tile(104, "Desert Palace - Entrance", true, vec![0x9, 0xa], vec![Coordinate::Pair { x: 5000, y: 7000 }]),
    ]
}

fn coordinate_condition(tile: &Tile) -> Option<&Vec<Coordinate>> {
    match &tile.conditions {
        Some(conditions) => conditions.iter().find_map(|c| match c {
            Conditions::Coordinates { coordinates } => Some(coordinates),
            _ => None,
        }),
        None => None,
    }
}

fn points(coordinates: &Vec<Coordinate>) -> Vec<(u16, u16)> {
    coordinates
        .iter()
        .map(|c| match c {
            Coordinate::Pair { x, y } => (*x, *y),
            Coordinate::Range { x, y } => (x.0, y.0),
            Coordinate::Chest { x, y } => (*x, *y),
            Coordinate::BigChest { x, y } => (*x, *y),
            Coordinate::Stairs { x, y } => (*x, *y),
        })
        .collect()
}

#[test]
fn test_tile_coordinate_conditions() {
    // If there's overlap in coordinate conditions, i.e. 2 or more transitions could be
    // triggered from the same SNES RAM values, then this test fails.
    let tiles = coordinate_table();
    for tile in &tiles {
        if let Some(coordinates) = coordinate_condition(tile) {
            for address in &tile.address_value {
                for point in points(coordinates) {
                    let ram = SnesRamInitializer {
                        transition_x: Some(point.0),
                        transition_y: Some(point.1),
                        entrance_id: Some(*address as u8),
                        indoors: Some(if tile.indoors { 1 } else { 0 }),
                        ..Default::default()
                    }
                    .build();
                    let mut events = EventTracker::new();
                    check_for_transitions(&ram, &mut events, 1_000, &tiles);
                    let latest_event = events.latest_transition().unwrap();
                    assert_eq!(latest_event.id, tile.id);
                }
            }
        }
    }
}
