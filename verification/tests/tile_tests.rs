use lttp_autotimer::condition::{ConditionTransition, Conditions, Coordinate};
use lttp_autotimer::snes::SnesRamInitializer;
use lttp_autotimer::tile::{Tile, TileError};

fn tile(id: usize, name: &str, indoors: bool, values: Vec<u16>, conditions: Option<Vec<Conditions>>) -> Tile {
    Tile {
        id,
        name: name.to_string(),
        address_value: values,
        indoors,
        conditions,
        ..Default::default()
    }
}

fn previous(id: usize) -> Conditions {
    Conditions::PreviousTile(ConditionTransition { id, address_value: None, indoors: None })
}

fn table() -> Vec<Tile> {
    vec![
        tile(17, "Link's House OW", false, vec![0x2c], None),
        tile(20, "Link's House UW", true, vec![0x1], None),
        tile(89, "Hobo", false, vec![0x80], Some(vec![previous(45)])),
        tile(90, "Mastersword Meadow", false, vec![0x80], Some(vec![previous(91)])),
        tile(
            100,
            "Eastern Palace - Abyss Bridge",
            true,
            vec![0x8],
            Some(vec![Conditions::Coordinates {
                coordinates: vec![Coordinate::Range { x: (4850, 4860), y: (6330, 6340) }],
            }]),
        ),
        tile(
            101,
            "Eastern Palace - Entrance",
            true,
            vec![0x8],
            Some(vec![Conditions::Coordinates { coordinates: vec![Coordinate::Pair { x: 1, y: 1 }] }]),
        ),
    ]
}

#[test]
fn single_overworld_match() {
    let ram = SnesRamInitializer { overworld_tile: Some(0x2c), ..Default::default() }.build();
    let t = Tile::try_from_ram(&table(), &ram, &Tile::default()).unwrap();
    assert_eq!(t.name, "Link's House OW");
}

#[test]
fn single_underworld_match() {
    let ram = SnesRamInitializer { entrance_id: Some(0x1), indoors: Some(1), ..Default::default() }.build();
    let t = Tile::try_from_ram(&table(), &ram, &Tile::default()).unwrap();
    assert_eq!(t.name, "Link's House UW");
}

#[test]
fn shared_value_is_told_by_previous_tile() {
    let ram = SnesRamInitializer { overworld_tile: Some(0x80), ..Default::default() }.build();
    let from_bridge = Tile { id: 45, name: "Stone Bridge".to_string(), ..Default::default() };
    assert_eq!(Tile::try_from_ram(&table(), &ram, &from_bridge).unwrap().name, "Hobo");
    let from_woods = Tile { id: 91, name: "Lost Woods".to_string(), ..Default::default() };
    assert_eq!(Tile::try_from_ram(&table(), &ram, &from_woods).unwrap().name, "Mastersword Meadow");
    // Staying on the meadow keeps the meadow: the tile itself is the previous one.
    let on_meadow = Tile { id: 90, name: "Mastersword Meadow".to_string(), ..Default::default() };
    assert_eq!(Tile::try_from_ram(&table(), &ram, &on_meadow).unwrap().name, "Mastersword Meadow");
}

#[test]
fn shared_value_is_told_by_coordinates() {
    let ram = SnesRamInitializer {
        entrance_id: Some(0x8),
        indoors: Some(1),
        transition_x: Some(4856),
        transition_y: Some(6336),
        ..Default::default()
    }
    .build();
    assert_eq!(Tile::try_from_ram(&table(), &ram, &Tile::default()).unwrap().name, "Eastern Palace - Abyss Bridge");
}

#[test]
fn no_tile_is_no_match() {
    let ram = SnesRamInitializer { overworld_tile: Some(0x77), ..Default::default() }.build();
    assert_eq!(Tile::try_from_ram(&table(), &ram, &Tile::default()), Err(TileError::NoMatch));
    let shared = SnesRamInitializer { overworld_tile: Some(0x80), ..Default::default() }.build();
    let elsewhere = Tile { id: 5, ..Default::default() };
    assert_eq!(Tile::try_from_ram(&table(), &shared, &elsewhere), Err(TileError::NoMatch));
}

#[test]
fn region_is_the_name_before_the_dash() {
    assert_eq!(tile(352, "Skull Woods - Front", true, vec![1], None).region(), "Skull Woods");
    assert_eq!(tile(17, "Link's House OW", false, vec![1], None).region(), "Overworld");
    assert_eq!(tile(20, "Link's House UW", true, vec![1], None).region(), "Underworld");
}

#[test]
fn new_tile_is_stamped() {
    let t = Tile::new(0x2c, false);
    assert!(t.timestamp.is_some());
    assert_eq!(t.address_value, vec![0x2c]);
    assert!(!t.indoors);
}

#[test]
fn default_tile_has_address_value_zero() {
    let t = Tile::default();
    assert_eq!(t.address_value, vec![0]);
    assert_eq!(t.timestamp, None);
}
