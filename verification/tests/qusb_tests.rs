use lttp_autotimer::qusb::{
    chunk_requests, connection_requests, get_chunka_chungus, init_allow_output, is_race_rom,
    read_rom_hash, second_ascii_word, Address, QusbRequestMessage, QusbResponseMessage, TextError,
};

#[test]
fn addresses_and_offsets() {
    assert_eq!(Address::RaceRom.address(), 0x180213);
    assert_eq!(Address::TileInfoSize.address(), 0x4c9);
    assert_eq!(Address::DunkaChunka.offset(), 0xf021);
    assert_eq!(Address::Coordinates.offset(), 0xc184);
    assert_eq!(Address::TileInfoChunk.offset(), 0);
    assert_eq!(Address::RomHash.offset(), 0);
}

#[test]
fn request_messages() {
    let list = QusbRequestMessage::device_list();
    assert_eq!(list.op_code, "DeviceList");
    assert_eq!(list.space, "SNES");
    assert_eq!(list.operands, None);
    let attach = QusbRequestMessage::attach_to("SD2SNES COM3");
    assert_eq!(attach.op_code, "Attach");
    assert_eq!(attach.operands, Some(vec!["SD2SNES COM3".to_string()]));
    let info = QusbRequestMessage::device_info("dev");
    assert_eq!(info.op_code, "Info");
    assert_eq!(info.operands, Some(vec!["dev".to_string()]));
    let get = QusbRequestMessage::get_address(0xf50000, 0x4c9);
    assert_eq!(get.op_code, "GetAddress");
    assert_eq!(get.space, "SNES");
    assert_eq!(get.operands, Some(vec!["F50000".to_string(), "4C9".to_string()]));
}

#[test]
fn chunk_requests_in_order() {
    let requests = chunk_requests();
    let operands: Vec<Vec<String>> = requests.into_iter().map(|r| r.operands.unwrap()).collect();
    assert_eq!(
        operands,
        vec![
            vec!["F5F021".to_string(), "3F1".to_string()],
            vec!["F50000".to_string(), "4C9".to_string()],
            vec!["F5C184".to_string(), "4".to_string()],
            vec!["F5F418".to_string(), "DF".to_string()],
        ]
    );
}

#[test]
fn ram_from_chunk_answers() {
    let ram = get_chunka_chungus(Some(vec![1, 2, 3]), None, Some(vec![9, 9, 9, 9]), None);
    assert_eq!(ram.dunka_chunka, vec![1, 2, 3]);
    assert_eq!(ram.tile_info_chunk, vec![0; 0x4c9]);
    assert_eq!(ram.coordinate_chunk, vec![9; 4]);
    assert_eq!(ram.game_stats_chunk, vec![0; 0xdf]);
}

#[test]
fn attach_to_the_first_device() {
    let devices = QusbResponseMessage { results: vec!["first".to_string(), "second".to_string()] };
    let (attach, info) = connection_requests(&devices).unwrap();
    assert_eq!(attach.operands, Some(vec!["first".to_string()]));
    assert_eq!(info.op_code, "Info");
    assert!(connection_requests(&QusbResponseMessage { results: vec![] }).is_none());
}

#[test]
fn race_rom_byte() {
    assert!(is_race_rom(&vec![1]));
    assert!(!is_race_rom(&vec![0, 1]));
}

#[test]
fn rom_hash_is_the_second_word() {
    assert_eq!(read_rom_hash(&b"VT a1b2c3d4e5  ".to_vec()), Ok(Some("a1b2c3d4e5".to_string())));
    assert_eq!(read_rom_hash(&b"  only ".to_vec()), Ok(None));
    assert_eq!(read_rom_hash(&vec![0xff, 0xfe]), Err(TextError::NotUtf8));
    assert_eq!(second_ascii_word("a\tb\nc"), Some("b".to_string()));
    assert_eq!(second_ascii_word(""), None);
}

#[test]
fn output_needs_non_race_mode_and_a_known_rom() {
    assert!(init_allow_output(Some(false), true));
    assert!(!init_allow_output(Some(true), true));
    assert!(!init_allow_output(Some(false), false));
    assert!(!init_allow_output(None, true));
}
