//! Talking to SNI over gRPC: the addresses read, and what is read from the answers. Sending
//! and receiving is the caller's.
use crate::qusb::{TextError, ascii_words, decode_utf8, second_ascii_word, utf8_text};
use vstd::prelude::*;

verus! {

/// Addresses read from the SNES through SNI, and the sizes read from them.
#[derive(Clone, Copy, PartialEq, Eq, Debug)]
pub enum Address {
    RaceRom,
    RomHash,
    RomHashSize,
    TileInfoChunk,
    TileInfoSize,
    DunkaChunka,
    DunkaChunkaSize,
    Coordinates,
    CoordinatesSize,
}

/// The value of each address or size.
pub open spec fn address_value(a: Address) -> u32 {
    match a {
        Address::RaceRom => 0x180213,
        Address::RomHash => 0x007fc0,
        Address::RomHashSize => 0x14,
        Address::TileInfoChunk => 0xf50000,
        Address::TileInfoSize => 0x4c9,
        Address::DunkaChunka => 0xf5f021,
        Address::DunkaChunkaSize => 0x4f7,
        Address::Coordinates => 0xf5c184,
        Address::CoordinatesSize => 0x4,
    }
}

impl Address {
    pub fn value(&self) -> (r: u32)
        ensures
            r == address_value(*self),
    {
        match self {
            Address::RaceRom => 0x180213,
            Address::RomHash => 0x007fc0,
            Address::RomHashSize => 0x14,
            Address::TileInfoChunk => 0xf50000,
            Address::TileInfoSize => 0x4c9,
            Address::DunkaChunka => 0xf5f021,
            Address::DunkaChunkaSize => 0x4f7,
            Address::Coordinates => 0xf5c184,
            Address::CoordinatesSize => 0x4,
        }
    }
}

/// Why an answer of SNI could not be used.
#[derive(Debug, PartialEq, Eq)]
pub enum SniError {
    /// The read came back without data.
    ReadFailed,
    /// The ROM hash is not UTF-8 text.
    NotText,
    /// The ROM hash text has no second word.
    NoHash,
}

/// Whether the ROM is a race ROM, from the answer to reading its race ROM byte: the first byte
/// of the data is 1. An answer without data is an error.
pub fn is_race_rom(response: Option<&Vec<u8>>) -> (r: Result<bool, SniError>)
    requires
        response matches Some(data) ==> data@.len() > 0,
    ensures
        match response {
            Some(data) => r == Ok::<bool, SniError>(data@[0] == 1),
            None => r == Err::<bool, SniError>(SniError::ReadFailed),
        },
{
    match response {
        Some(data) => Ok(data[0] == 1),
        None => Err(SniError::ReadFailed),
    }
}

/// The hash of the ROM, from the answer to reading it: the second word of its text.
pub fn read_rom_hash(response: Option<&Vec<u8>>) -> (r: Result<String, SniError>)
    ensures
        match response {
            Some(data) => match utf8_text(data@) {
                Some(t) => if ascii_words(t).len() >= 2 {
                    r matches Ok(h) && h@ == ascii_words(t)[1]
                } else {
                    r == Err::<String, SniError>(SniError::NoHash)
                },
                None => r == Err::<String, SniError>(SniError::NotText),
            },
            None => r == Err::<String, SniError>(SniError::ReadFailed),
        },
{
    match response {
        Some(data) => match decode_utf8(data.as_slice()) {
            Some(text) => match second_ascii_word(text) {
                Some(hash) => Ok(hash),
                None => Err(SniError::NoHash),
            },
            None => Err(SniError::NotText),
        },
        None => Err(SniError::ReadFailed),
    }
}

/// Events are shown in non-race mode unless the ROM is a race ROM; when the ROM could not be
/// asked (`None`), they are shown.
pub fn allow_output(race_rom: Option<bool>, non_race_mode: bool) -> (r: bool)
    ensures
        r == match race_rom {
            Some(race) => !race && non_race_mode,
            None => true,
        },
{
    match race_rom {
        Some(race) => !race && non_race_mode,
        None => true,
    }
}

/// The reads of one multi-read request, as (address, size), in order: tile information, save
/// RAM, coordinates.
pub fn chunk_reads() -> (r: Vec<(u32, u32)>)
    ensures
        r@ == seq![(0xf50000u32, 0x4c9u32), (0xf5f021u32, 0x4f7u32), (0xf5c184u32, 0x4u32)],
{
    let mut r: Vec<(u32, u32)> = Vec::new();
    r.push((Address::TileInfoChunk.value(), Address::TileInfoSize.value()));
    r.push((Address::DunkaChunka.value(), Address::DunkaChunkaSize.value()));
    r.push((Address::Coordinates.value(), Address::CoordinatesSize.value()));
    assert(r@ =~= seq![(0xf50000u32, 0x4c9u32), (0xf5f021u32, 0x4f7u32), (0xf5c184u32, 0x4u32)]);
    r
}

} // verus!
