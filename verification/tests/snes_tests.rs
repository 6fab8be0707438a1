use lttp_autotimer::snes::{NamedAddresses, SetNamedAddresses, SnesRam, SnesRamInitializer};

#[test]
fn test_set_xy() {
    let mut ram = SnesRam::new();
    ram.set_transition_x(12);
    ram.set_transition_y(55000);
    assert_eq!((ram.transition_x(), ram.transition_y()), (12, 55000));
}

#[test]
fn new_ram_is_zero_filled_with_fetched_sizes() {
    let ram = SnesRam::new();
    assert_eq!(ram.tile_info_chunk.len(), 0x4c9);
    assert_eq!(ram.dunka_chunka.len(), 0x4f7);
    assert_eq!(ram.coordinate_chunk.len(), 4);
    assert_eq!(ram.game_stats_chunk.len(), 0xdf);
    assert!(ram.tile_info_chunk.iter().all(|b| *b == 0));
}

#[test]
fn get_byte_reads_each_region() {
    let mut ram = SnesRam::new();
    ram.tile_info_chunk[0x10] = 7;
    ram.dunka_chunka[1] = 0x42;
    ram.coordinate_chunk[3] = 0x99;
    ram.game_stats_chunk[2] = 0x11;
    ram.dunka_chunka[0xf41a - 0xf021] = 0x22;
    assert_eq!(ram.get_byte(0x10), 7);
    assert_eq!(ram.get_byte(0xf022), 0x42);
    assert_eq!(ram.get_byte(0xc187), 0x99);
    // The save RAM chunk reaches over the game statistics and is read first.
    assert_eq!(ram.get_byte(0xf41a), 0x22);
}

#[test]
fn game_has_started_between_underworld_load_and_special_overworld() {
    let mut ram = SnesRam::new();
    for (state, started) in [(0x00u8, false), (0x05, false), (0x06, true), (0x09, true), (0x0b, true), (0x0c, false), (0x17, false)] {
        ram.tile_info_chunk[0x10] = state;
        assert_eq!(ram.game_has_started(), started, "state {:#x}", state);
    }
}

#[test]
fn initializer_builds_named_values() {
    let ram = SnesRamInitializer {
        overworld_tile: Some(0x1b),
        entrance_id: Some(0x33),
        indoors: Some(1),
        transition_x: Some(1273),
        transition_y: Some(3664),
    }
    .build();
    assert_eq!(ram.overworld_tile(), 0x1b);
    assert_eq!(ram.entrance_id(), 0x33);
    assert_eq!(ram.indoors(), 1);
    assert_eq!(ram.transition_x(), 1273);
    assert_eq!(ram.transition_y(), 3664);
}

#[test]
fn continuous_coordinates_are_little_endian() {
    let mut ram = SnesRam::new();
    ram.set_x(0x1234);
    ram.set_y(0xabcd);
    assert_eq!(ram.tile_info_chunk[0x22], 0x34);
    assert_eq!(ram.tile_info_chunk[0x23], 0x12);
    assert_eq!(ram.x(), 0x1234);
    assert_eq!(ram.y(), 0xabcd);
}

#[test]
fn from_responses_fills_chunks_in_order() {
    let responses = vec![vec![1u8; 0x4c9], vec![2u8; 0x4f7], vec![3u8; 0xdf], vec![4u8, 0, 5, 0]];
    let ram = SnesRam::from_responses(&responses);
    assert_eq!(ram.get_byte(0), 1);
    assert_eq!(ram.get_byte(0xf021), 2);
    assert_eq!(ram.game_stats_chunk[0], 3);
    assert_eq!(ram.transition_y(), 4);
    assert_eq!(ram.transition_x(), 5);
}

#[test]
fn from_fewer_responses_leaves_zeroes() {
    let responses = vec![vec![9u8; 0x4c9]];
    let ram = SnesRam::from_responses(&responses);
    assert_eq!(ram.get_byte(0x40a), 9);
    assert_eq!(ram.dunka_chunka, vec![0u8; 0x4f7]);
    assert_eq!(ram.coordinate_chunk, vec![0u8; 4]);
}
