use lttp_autotimer::sni::{allow_output, chunk_reads, is_race_rom, read_rom_hash, Address, SniError};

#[test]
fn sni_addresses() {
    assert_eq!(Address::RomHash.value(), 0x7fc0);
    assert_eq!(Address::DunkaChunkaSize.value(), 0x4f7);
    assert_eq!(Address::Coordinates.value(), 0xf5c184);
}

#[test]
fn sni_race_rom() {
    assert_eq!(is_race_rom(Some(&vec![1u8])), Ok(true));
    assert_eq!(is_race_rom(Some(&vec![2u8])), Ok(false));
    assert_eq!(is_race_rom(None), Err(SniError::ReadFailed));
}

#[test]
fn sni_rom_hash() {
    assert_eq!(read_rom_hash(Some(&b"VT 0123abcd".to_vec())), Ok("0123abcd".to_string()));
    assert_eq!(read_rom_hash(Some(&b"VT".to_vec())), Err(SniError::NoHash));
    assert_eq!(read_rom_hash(Some(&vec![0xc3u8])), Err(SniError::NotText));
    assert_eq!(read_rom_hash(None), Err(SniError::ReadFailed));
}

#[test]
fn sni_output_defaults_to_shown() {
    assert!(allow_output(None, false));
    assert!(allow_output(Some(false), true));
    assert!(!allow_output(Some(true), true));
    assert!(!allow_output(Some(false), false));
}

#[test]
fn sni_reads() {
    assert_eq!(chunk_reads(), vec![(0xf50000, 0x4c9), (0xf5f021, 0x4f7), (0xf5c184, 0x4)]);
}
