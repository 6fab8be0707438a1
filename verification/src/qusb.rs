//! Talking to QUsb2Snes over its websocket: the requests that are sent, and what is read
//! from its answers. Sending and receiving is the caller's; the requests go out as JSON.
use crate::serde_lttp::{radix_text, upper_hex};
use crate::snes::{
    COORDINATE_CHUNK_SIZE, DUNKA_CHUNK_SIZE, GAME_STATS_SIZE, SnesRam, TILE_INFO_CHUNK_SIZE,
};
use vstd::prelude::*;

verus! {

/// The SNES address where VRAM starts.
pub const VRAM_START: u32 = 0xf50000;

/// Addresses read from the SNES, and the sizes read from them.
#[derive(Clone, Copy, PartialEq, Eq, Debug)]
pub enum Address {
    RaceRom,
    RomHash,
    RomHashSize,
    TileInfoChunk,
    TileInfoSize,
    DunkaChunka,
    DunkaChunkaSize,
    GameStats,
    GameStatsSize,
    Coordinates,
    CoordinatesSize,
}

/// The value of each address or size.
pub open spec fn address_value(a: Address) -> usize {
    match a {
        Address::RaceRom => 0x180213,
        Address::RomHash => 0x7fc0,
        Address::RomHashSize => 0x14,
        Address::TileInfoChunk => 0xf50000,
        Address::TileInfoSize => 0x4c9,
        Address::DunkaChunka => 0xf5f021,
        Address::DunkaChunkaSize => 0x3f1,
        Address::GameStats => 0xf5f418,
        Address::GameStatsSize => 0xdf,
        Address::Coordinates => 0xf5c184,
        Address::CoordinatesSize => 0x4,
    }
}

impl Address {
    pub fn address(&self) -> (r: usize)
        ensures
            r == address_value(*self),
    {
        match self {
            Address::RaceRom => 0x180213,
            Address::RomHash => 0x7fc0,
            Address::RomHashSize => 0x14,
            Address::TileInfoChunk => 0xf50000,
            Address::TileInfoSize => 0x4c9,
            Address::DunkaChunka => 0xf5f021,
            Address::DunkaChunkaSize => 0x3f1,
            Address::GameStats => 0xf5f418,
            Address::GameStatsSize => 0xdf,
            Address::Coordinates => 0xf5c184,
            Address::CoordinatesSize => 0x4,
        }
    }

    /// The address relative to VRAM start; zero for an address at or below it.
    pub fn offset(&self) -> (r: usize)
        ensures
            r == if address_value(*self) <= VRAM_START {
                0
            } else {
                address_value(*self) - VRAM_START
            },
    {
        let address = self.address();
        if address <= VRAM_START as usize {
            0
        } else {
            address - VRAM_START as usize
        }
    }
}

/// An answer of QUsb2Snes.
pub struct QusbResponseMessage {
    pub results: Vec<String>,
}

/// A request to QUsb2Snes.
pub struct QusbRequestMessage {
    pub op_code: String,
    pub space: String,
    pub operands: Option<Vec<String>>,
}

/// The texts of the operands.
pub open spec fn operand_texts(operands: Option<Vec<String>>) -> Option<Seq<Seq<char>>> {
    match operands {
        Some(v) => Some(Seq::new(v@.len(), |i: int| v@[i]@)),
        None => None,
    }
}

impl QusbRequestMessage {
    /// The request for the list of devices.
    pub fn device_list() -> (m: Self)
        ensures
            m.op_code@ == "DeviceList"@,
            m.space@ == "SNES"@,
            m.operands is None,
    {
        QusbRequestMessage {
            op_code: String::from_str("DeviceList"),
            space: String::from_str("SNES"),
            operands: None,
        }
    }

    /// The request to attach to a device.
    pub fn attach_to(device: &str) -> (m: Self)
        ensures
            m.op_code@ == "Attach"@,
            m.space@ == "SNES"@,
            operand_texts(m.operands) == Some(seq![device@]),
    {
        let mut operands: Vec<String> = Vec::new();
        operands.push(String::from_str(device));
        let m = QusbRequestMessage {
            op_code: String::from_str("Attach"),
            space: String::from_str("SNES"),
            operands: Some(operands),
        };
        assert(operand_texts(m.operands).unwrap() =~= seq![device@]);
        m
    }

    /// The request for a device's information.
    pub fn device_info(device: &str) -> (m: Self)
        ensures
            m.op_code@ == "Info"@,
            m.space@ == "SNES"@,
            operand_texts(m.operands) == Some(seq![device@]),
    {
        let mut operands: Vec<String> = Vec::new();
        operands.push(String::from_str(device));
        let m = QusbRequestMessage {
            op_code: String::from_str("Info"),
            space: String::from_str("SNES"),
            operands: Some(operands),
        };
        assert(operand_texts(m.operands).unwrap() =~= seq![device@]);
        m
    }

    /// The request to read `size` bytes from `address`; both are written in upper-case
    /// hexadecimal.
    pub fn get_address(address: u32, size: usize) -> (m: Self)
        ensures
            m.op_code@ == "GetAddress"@,
            m.space@ == "SNES"@,
            operand_texts(m.operands) == Some(
                seq![radix_text(address as nat, 16), radix_text(size as nat, 16)],
            ),
    {
        let mut operands: Vec<String> = Vec::new();
        operands.push(upper_hex(address as u128));
        operands.push(upper_hex(size as u128));
        let m = QusbRequestMessage {
            op_code: String::from_str("GetAddress"),
            space: String::from_str("SNES"),
            operands: Some(operands),
        };
        assert(operand_texts(m.operands).unwrap() =~= seq![
            radix_text(address as nat, 16),
            radix_text(size as nat, 16),
        ]);
        m
    }
}

/// The requests that read the RAM, in the order they are sent: save RAM, tile information,
/// coordinates, game statistics.
pub fn chunk_requests() -> (r: Vec<QusbRequestMessage>)
    ensures
        r@.len() == 4,
        operand_texts(r@[0].operands) == Some(seq![radix_text(0xf5f021, 16), radix_text(0x3f1, 16)]),
        operand_texts(r@[1].operands) == Some(seq![radix_text(0xf50000, 16), radix_text(0x4c9, 16)]),
        operand_texts(r@[2].operands) == Some(seq![radix_text(0xf5c184, 16), radix_text(0x4, 16)]),
        operand_texts(r@[3].operands) == Some(seq![radix_text(0xf5f418, 16), radix_text(0xdf, 16)]),
        forall|i: int| 0 <= i < 4 ==> (#[trigger] r@[i]).op_code@ == "GetAddress"@ && r@[i].space@ == "SNES"@,
{
    let mut r: Vec<QusbRequestMessage> = Vec::new();
    r.push(
        QusbRequestMessage::get_address(
            Address::DunkaChunka.address() as u32,
            Address::DunkaChunkaSize.address(),
        ),
    );
    r.push(
        QusbRequestMessage::get_address(
            Address::TileInfoChunk.address() as u32,
            Address::TileInfoSize.address(),
        ),
    );
    r.push(
        QusbRequestMessage::get_address(
            Address::Coordinates.address() as u32,
            Address::CoordinatesSize.address(),
        ),
    );
    r.push(
        QusbRequestMessage::get_address(
            Address::GameStats.address() as u32,
            Address::GameStatsSize.address(),
        ),
    );
    r
}

/// The RAM from the answers to `chunk_requests`, in the same order; an answer that carried no
/// binary data (`None`) leaves its chunk zero-filled.
pub fn get_chunka_chungus(
    dunka_chunka: Option<Vec<u8>>,
    tile_info: Option<Vec<u8>>,
    coordinates: Option<Vec<u8>>,
    game_stats: Option<Vec<u8>>,
) -> (ram: SnesRam)
    ensures
        match dunka_chunka {
            Some(v) => ram.dunka_chunka@ == v@,
            None => ram.dunka_chunka@ == Seq::new(DUNKA_CHUNK_SIZE as nat, |i: int| 0u8),
        },
        match tile_info {
            Some(v) => ram.tile_info_chunk@ == v@,
            None => ram.tile_info_chunk@ == Seq::new(TILE_INFO_CHUNK_SIZE as nat, |i: int| 0u8),
        },
        match coordinates {
            Some(v) => ram.coordinate_chunk@ == v@,
            None => ram.coordinate_chunk@ == Seq::new(COORDINATE_CHUNK_SIZE as nat, |i: int| 0u8),
        },
        match game_stats {
            Some(v) => ram.game_stats_chunk@ == v@,
            None => ram.game_stats_chunk@ == Seq::new(GAME_STATS_SIZE as nat, |i: int| 0u8),
        },
{
    let mut ram = SnesRam::new();
    assert(ram.dunka_chunka@ =~= Seq::new(DUNKA_CHUNK_SIZE as nat, |i: int| 0u8));
    assert(ram.tile_info_chunk@ =~= Seq::new(TILE_INFO_CHUNK_SIZE as nat, |i: int| 0u8));
    assert(ram.coordinate_chunk@ =~= Seq::new(COORDINATE_CHUNK_SIZE as nat, |i: int| 0u8));
    assert(ram.game_stats_chunk@ =~= Seq::new(GAME_STATS_SIZE as nat, |i: int| 0u8));
    if let Some(v) = dunka_chunka {
        ram.dunka_chunka = v;
    }
    if let Some(v) = tile_info {
        ram.tile_info_chunk = v;
    }
    if let Some(v) = coordinates {
        ram.coordinate_chunk = v;
    }
    if let Some(v) = game_stats {
        ram.game_stats_chunk = v;
    }
    ram
}

/// The first device of the list is the one attached to: the requests to attach to it and to
/// ask for its information, in that order; none without devices.
pub fn connection_requests(devices: &QusbResponseMessage) -> (r: Option<(QusbRequestMessage, QusbRequestMessage)>)
    ensures
        devices.results@.len() == 0 <==> r is None,
        r matches Some(p) ==> {
            &&& p.0.op_code@ == "Attach"@
            &&& operand_texts(p.0.operands) == Some(seq![devices.results@[0]@])
            &&& p.1.op_code@ == "Info"@
            &&& operand_texts(p.1.operands) == Some(seq![devices.results@[0]@])
            &&& p.0.space@ == "SNES"@
            &&& p.1.space@ == "SNES"@
        },
{
    if devices.results.len() == 0 {
        return None;
    }
    let device = devices.results[0].as_str();
    Some((QusbRequestMessage::attach_to(device), QusbRequestMessage::device_info(device)))
}

/// Whether the answer to the race ROM request marks a race ROM: its first byte is 1.
pub fn is_race_rom(data: &Vec<u8>) -> (r: bool)
    requires
        data@.len() > 0,
    ensures
        r == (data@[0] == 1),
{
    data[0] == 1
}

/// The name of what `std::str::from_utf8` gives for the bytes: their text when they are valid
/// UTF-8.
pub uninterp spec fn utf8_text(bytes: Seq<u8>) -> Option<Seq<char>>;

/// `std::str::from_utf8`, with its error dropped: the text of the bytes when they are valid
/// UTF-8. Its result is named `utf8_text`; bytes that are all below `0x80` read as the
/// characters with those codes, as the documentation of UTF-8 gives.
#[verifier::external_body]
pub(crate) fn decode_utf8(bytes: &[u8]) -> (r: Option<&str>)
    ensures
        match r {
            Some(s) => utf8_text(bytes@) == Some(s@),
            None => utf8_text(bytes@) is None,
        },
        match r {
            Some(s) => (forall|i: int| 0 <= i < bytes@.len() ==> bytes@[i] < 0x80) ==> s@ == Seq::new(
                bytes@.len(),
                |i: int| bytes@[i] as char,
            ),
            None => exists|i: int| 0 <= i < bytes@.len() && bytes@[i] >= 0x80,
        },
{
    std::str::from_utf8(bytes).ok()
}

/// Whitespace as `split_ascii_whitespace` takes it: space, tab, line feed, form feed and
/// carriage return.
pub open spec fn is_ascii_space(c: char) -> bool {
    c == ' ' || c == '\t' || c == '\n' || c == '\x0C' || c == '\r'
}

/// The words of `s`: the longest runs of characters that are not ASCII whitespace, in order.
pub open spec fn ascii_words(s: Seq<char>) -> Seq<Seq<char>>
    decreases s.len(),
{
    if s.len() == 0 {
        Seq::empty()
    } else {
        let prev = ascii_words(s.drop_last());
        let c = s.last();
        if is_ascii_space(c) {
            prev
        } else if s.len() >= 2 && !is_ascii_space(s[s.len() - 2]) {
            prev.update(prev.len() - 1, prev.last().push(c))
        } else {
            prev.push(seq![c])
        }
    }
}

/// Once a word is followed by whitespace, more text keeps the words so far, and a word that
/// is still going on at the end comes after them.
proof fn lemma_words_keep(s: Seq<char>, k: int, j: int)
    requires
        1 <= k <= j <= s.len(),
        is_ascii_space(s[k - 1]),
    ensures
        ascii_words(s.take(j)).len() >= ascii_words(s.take(k)).len(),
        forall|idx: int|
            0 <= idx < ascii_words(s.take(k)).len() ==> #[trigger] ascii_words(s.take(j))[idx] == ascii_words(
                s.take(k),
            )[idx],
        j > k && !is_ascii_space(s[j - 1]) ==> ascii_words(s.take(j)).len() > ascii_words(s.take(k)).len(),
    decreases j - k,
{
    if j > k {
        lemma_words_keep(s, k, j - 1);
        assert(s.take(j).drop_last() =~= s.take(j - 1));
        assert(s.take(j).last() == s[j - 1]);
        if j >= 2 {
            assert(s.take(j)[j - 2] == s[j - 2]);
        }
    }
}

/// The second word of `s`, if it has two.
pub fn second_ascii_word(s: &str) -> (r: Option<String>)
    ensures
        if ascii_words(s@).len() >= 2 {
            r matches Some(w) && w@ == ascii_words(s@)[1]
        } else {
            r is None
        },
{
    let n = s.unicode_len();
    let mut count: usize = 0;
    let mut in_word = false;
    let mut start: usize = 0;
    let mut i: usize = 0;
    assert(s@.take(0) =~= Seq::<char>::empty());
    while i < n
        invariant
            n == s@.len(),
            i <= n,
            count <= 2,
            ascii_words(s@.take(i as int)).len() == count,
            in_word == (i > 0 && !is_ascii_space(s@[i - 1])),
            in_word ==> start < i && count >= 1 && ascii_words(s@.take(i as int)).last() == s@.subrange(
                start as int,
                i as int,
            ),
            count == 2 ==> in_word,
        decreases n - i,
    {
        proof {
            assert(s@.take(i + 1).drop_last() =~= s@.take(i as int));
            assert(s@.take(i + 1).last() == s@[i as int]);
            if i >= 1 {
                assert(s@.take(i + 1)[i - 1] == s@[i - 1]);
            }
        }
        let c = s.get_char(i);
        if c == ' ' || c == '\t' || c == '\n' || c == '\x0C' || c == '\r' {
            if count == 2 {
                proof {
                    lemma_words_keep(s@, i + 1, n as int);
                    assert(s@.take(n as int) =~= s@);
                }
                return Some(String::from_str(s.substring_char(start, i)));
            }
            in_word = false;
        } else {
            if in_word {
                assert(s@.subrange(start as int, i as int).push(c) =~= s@.subrange(start as int, i + 1));
            } else {
                count = count + 1;
                start = i;
                in_word = true;
                assert(seq![c] =~= s@.subrange(i as int, i + 1));
            }
        }
        i = i + 1;
    }
    assert(s@.take(n as int) =~= s@);
    if count == 2 {
        Some(String::from_str(s.substring_char(start, n)))
    } else {
        None
    }
}

/// The hash of the ROM, from the answer to the request for it: the second word of its text;
/// none when it has fewer than two words, and an error when the answer is not UTF-8 text.
pub fn read_rom_hash(response: &Vec<u8>) -> (r: Result<Option<String>, TextError>)
    ensures
        match utf8_text(response@) {
            Some(t) => r matches Ok(h) && if ascii_words(t).len() >= 2 {
                h matches Some(w) && w@ == ascii_words(t)[1]
            } else {
                h is None
            },
            None => r == Err::<Option<String>, TextError>(TextError::NotUtf8),
        },
{
    match decode_utf8(response.as_slice()) {
        Some(text) => Ok(second_ascii_word(text)),
        None => Err(TextError::NotUtf8),
    }
}

/// Bytes that were expected to be text are not.
#[derive(Debug, PartialEq, Eq)]
pub enum TextError {
    NotUtf8,
}

/// Events are shown unless the ROM is a race ROM, and only in non-race mode; when the ROM
/// could not be asked (`None`), nothing is shown.
pub fn init_allow_output(race_rom: Option<bool>, non_race_mode: bool) -> (r: bool)
    ensures
        r == match race_rom {
            Some(race) => !race && non_race_mode,
            None => false,
        },
{
    match race_rom {
        Some(race) => if race {
            false
        } else {
            non_race_mode
        },
        None => false,
    }
}

} // verus!
