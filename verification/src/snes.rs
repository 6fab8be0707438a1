//! The slices of SNES work RAM that the timer fetches, and the named addresses within them.
use byteorder::{ByteOrder, LittleEndian};
use vstd::prelude::*;

verus! {

/// Length of the chunk read from the start of VRAM (`0x7e0000`).
pub const TILE_INFO_CHUNK_SIZE: usize = 0x4c9;

/// Offset, relative to VRAM start, of the save-RAM chunk holding location and item flags.
pub const DUNKA_OFFSET: usize = 0xf021;

/// Length of the save-RAM chunk.
pub const DUNKA_CHUNK_SIZE: usize = 0x4f7;

/// Offset, relative to VRAM start, of the transition coordinates.
pub const COORDINATE_OFFSET: usize = 0xc184;

/// Length of the transition coordinates chunk.
pub const COORDINATE_CHUNK_SIZE: usize = 0x4;

/// Offset, relative to VRAM start, of the game statistics chunk.
pub const GAME_STATS_OFFSET: usize = 0xf418;

/// Length of the game statistics chunk.
pub const GAME_STATS_SIZE: usize = 0xdf;

pub const OVERWORLD_TILE_ADDRESS: usize = 0x40a;

pub const ENTRANCE_ID_ADDRESS: usize = 0x10E;

pub const INDOORS_ADDRESS: usize = 0x1b;

pub const GAME_MODE_ADDRESS: usize = 0x95;

pub const GAME_STATE_ADDRESS: usize = 0x10;

/// Address of the low byte of Link's y coordinate; the x coordinate follows it.
pub const Y_ADDRESS: usize = 0x20;

pub const X_ADDRESS: usize = 0x22;

/// The little-endian word stored at `bytes[start]`, `bytes[start + 1]`.
pub open spec fn le_word(bytes: Seq<u8>, start: int) -> u16 {
    (bytes[start] + 256 * bytes[start + 1]) as u16
}

/// `LittleEndian::read_u16` on the bytes from `start` on: the word made of the two bytes there,
/// low byte first.
#[verifier::external_body]
fn read_le_word(bytes: &Vec<u8>, start: usize) -> (word: u16)
    requires
        start + 2 <= bytes@.len(),
    ensures
        word == le_word(bytes@, start as int),
{
    LittleEndian::read_u16(&bytes[start..])
}

/// `LittleEndian::write_u16` on the bytes from `start` on: the low byte of `word` goes to
/// `start`, the high byte to `start + 1`, and nothing else changes.
#[verifier::external_body]
fn write_le_word(bytes: &mut Vec<u8>, start: usize, word: u16)
    requires
        start + 2 <= old(bytes)@.len(),
    ensures
        final(bytes)@ == old(bytes)@.update(start as int, (word % 256) as u8).update(
            start + 1,
            (word / 256) as u8,
        ),
{
    LittleEndian::write_u16(&mut bytes[start..], word)
}

/// Values read from the SNES, kept at their positions relative to VRAM start, so that callers
/// can use one address space for all of them.
pub struct SnesRam {
    pub tile_info_chunk: Vec<u8>,
    pub dunka_chunka: Vec<u8>,
    pub coordinate_chunk: Vec<u8>,
    pub game_stats_chunk: Vec<u8>,
}

/// `address` lies in one of the fetched regions.
pub open spec fn is_fetched_address(address: int) -> bool {
    ||| 0 <= address < TILE_INFO_CHUNK_SIZE
    ||| DUNKA_OFFSET <= address < DUNKA_OFFSET + DUNKA_CHUNK_SIZE
    ||| COORDINATE_OFFSET <= address < COORDINATE_OFFSET + COORDINATE_CHUNK_SIZE
    ||| GAME_STATS_OFFSET <= address < GAME_STATS_OFFSET + GAME_STATS_SIZE
}

impl SnesRam {
    /// Every chunk has the length that is fetched for it.
    pub open spec fn wf(&self) -> bool {
        &&& self.tile_info_chunk@.len() == TILE_INFO_CHUNK_SIZE
        &&& self.dunka_chunka@.len() == DUNKA_CHUNK_SIZE
        &&& self.coordinate_chunk@.len() == COORDINATE_CHUNK_SIZE
        &&& self.game_stats_chunk@.len() == GAME_STATS_SIZE
    }

    /// `get_byte(address)` returns: the chunk is chosen by the first region, in the order
    /// tile info, save RAM, coordinates, game statistics, that holds `address`.
    pub open spec fn can_read(&self, address: int) -> bool {
        if 0 <= address < TILE_INFO_CHUNK_SIZE {
            address < self.tile_info_chunk@.len()
        } else if DUNKA_OFFSET <= address < DUNKA_OFFSET + DUNKA_CHUNK_SIZE {
            address - DUNKA_OFFSET < self.dunka_chunka@.len()
        } else if COORDINATE_OFFSET <= address < COORDINATE_OFFSET + COORDINATE_CHUNK_SIZE {
            address - COORDINATE_OFFSET < self.coordinate_chunk@.len()
        } else if GAME_STATS_OFFSET <= address < GAME_STATS_OFFSET + GAME_STATS_SIZE {
            address - GAME_STATS_OFFSET < self.game_stats_chunk@.len()
        } else {
            false
        }
    }

    /// The byte at `address`, relative to VRAM start.
    pub open spec fn byte_at(&self, address: int) -> u8 {
        if 0 <= address < TILE_INFO_CHUNK_SIZE {
            self.tile_info_chunk@[address]
        } else if DUNKA_OFFSET <= address < DUNKA_OFFSET + DUNKA_CHUNK_SIZE {
            self.dunka_chunka@[address - DUNKA_OFFSET]
        } else if COORDINATE_OFFSET <= address < COORDINATE_OFFSET + COORDINATE_CHUNK_SIZE {
            self.coordinate_chunk@[address - COORDINATE_OFFSET]
        } else {
            self.game_stats_chunk@[address - GAME_STATS_OFFSET]
        }
    }

    /// Addresses are relative to VRAM start (`0xf50000`).
    pub fn get_byte(&self, address: usize) -> (byte: u8)
        requires
            self.can_read(address as int),
        ensures
            byte == self.byte_at(address as int),
    {
        if address < TILE_INFO_CHUNK_SIZE {
            self.tile_info_chunk[address]
        } else if address >= DUNKA_OFFSET && address < DUNKA_OFFSET + DUNKA_CHUNK_SIZE {
            self.dunka_chunka[address - DUNKA_OFFSET]
        } else if address >= COORDINATE_OFFSET && address < COORDINATE_OFFSET
            + COORDINATE_CHUNK_SIZE {
            self.coordinate_chunk[address - COORDINATE_OFFSET]
        } else {
            self.game_stats_chunk[address - GAME_STATS_OFFSET]
        }
    }

    /// The game counts as started in the states from the underworld load (`0x06`) to the
    /// special overworld (`0x0b`); the intro, file select and the like do not count.
    pub open spec fn spec_game_has_started(&self) -> bool {
        0x06 <= self.tile_info_chunk@[GAME_STATE_ADDRESS as int] <= 0x0b
    }

    /// Reads the game state byte (`0x7e0010`) to see whether the game has started since
    /// boot, reset or save and quit.
    pub fn game_has_started(&self) -> (started: bool)
        requires
            GAME_STATE_ADDRESS < self.tile_info_chunk@.len(),
        ensures
            started == self.spec_game_has_started(),
    {
        let state = self.get_byte(GAME_STATE_ADDRESS);
        0x06 <= state && state <= 0x0b
    }

    /// Zero-filled chunks of the fetched lengths.
    pub fn new() -> (ram: Self)
        ensures
            ram.wf(),
            forall|a: int| #[trigger] is_fetched_address(a) ==> ram.byte_at(a) == 0,
            forall|i: int| 0 <= i < TILE_INFO_CHUNK_SIZE ==> ram.tile_info_chunk@[i] == 0,
            forall|i: int| 0 <= i < DUNKA_CHUNK_SIZE ==> ram.dunka_chunka@[i] == 0,
            forall|i: int| 0 <= i < COORDINATE_CHUNK_SIZE ==> ram.coordinate_chunk@[i] == 0,
            forall|i: int| 0 <= i < GAME_STATS_SIZE ==> ram.game_stats_chunk@[i] == 0,
    {
        SnesRam {
            tile_info_chunk: zeroes(TILE_INFO_CHUNK_SIZE),
            dunka_chunka: zeroes(DUNKA_CHUNK_SIZE),
            coordinate_chunk: zeroes(COORDINATE_CHUNK_SIZE),
            game_stats_chunk: zeroes(GAME_STATS_SIZE),
        }
    }

    /// Builds the RAM from the data of the read responses, taken in the order tile info,
    /// save RAM, game statistics, coordinates; a chunk without a response stays zero-filled and
    /// responses past the fourth are ignored.
    pub fn from_responses(responses: &Vec<Vec<u8>>) -> (ram: Self)
        ensures
            ram.tile_info_chunk@ == if responses@.len() > 0 {
                responses@[0]@
            } else {
                Seq::new(TILE_INFO_CHUNK_SIZE as nat, |i: int| 0u8)
            },
            ram.dunka_chunka@ == if responses@.len() > 1 {
                responses@[1]@
            } else {
                Seq::new(DUNKA_CHUNK_SIZE as nat, |i: int| 0u8)
            },
            ram.game_stats_chunk@ == if responses@.len() > 2 {
                responses@[2]@
            } else {
                Seq::new(GAME_STATS_SIZE as nat, |i: int| 0u8)
            },
            ram.coordinate_chunk@ == if responses@.len() > 3 {
                responses@[3]@
            } else {
                Seq::new(COORDINATE_CHUNK_SIZE as nat, |i: int| 0u8)
            },
    {
        let mut ram = SnesRam::new();
        if responses.len() > 0 {
            ram.tile_info_chunk = copy_bytes(&responses[0]);
        }
        if responses.len() > 1 {
            ram.dunka_chunka = copy_bytes(&responses[1]);
        }
        if responses.len() > 2 {
            ram.game_stats_chunk = copy_bytes(&responses[2]);
        }
        if responses.len() > 3 {
            ram.coordinate_chunk = copy_bytes(&responses[3]);
        }
        assert(ram.tile_info_chunk@ =~= if responses@.len() > 0 {
            responses@[0]@
        } else {
            Seq::new(TILE_INFO_CHUNK_SIZE as nat, |i: int| 0u8)
        });
        assert(ram.dunka_chunka@ =~= if responses@.len() > 1 {
            responses@[1]@
        } else {
            Seq::new(DUNKA_CHUNK_SIZE as nat, |i: int| 0u8)
        });
        assert(ram.game_stats_chunk@ =~= if responses@.len() > 2 {
            responses@[2]@
        } else {
            Seq::new(GAME_STATS_SIZE as nat, |i: int| 0u8)
        });
        assert(ram.coordinate_chunk@ =~= if responses@.len() > 3 {
            responses@[3]@
        } else {
            Seq::new(COORDINATE_CHUNK_SIZE as nat, |i: int| 0u8)
        });
        ram
    }
}

/// `len` zero bytes.
pub fn zeroes(len: usize) -> (bytes: Vec<u8>)
    ensures
        bytes@.len() == len,
        forall|i: int| 0 <= i < len ==> bytes@[i] == 0,
{
    let mut bytes: Vec<u8> = Vec::new();
    let mut i: usize = 0;
    while i < len
        invariant
            i <= len,
            bytes@.len() == i,
            forall|j: int| 0 <= j < i ==> bytes@[j] == 0,
        decreases len - i,
    {
        bytes.push(0);
        i = i + 1;
    }
    bytes
}

/// A copy of `bytes`.
pub fn copy_bytes(bytes: &Vec<u8>) -> (copy: Vec<u8>)
    ensures
        copy@ == bytes@,
{
    let mut copy: Vec<u8> = Vec::new();
    let mut i: usize = 0;
    while i < bytes.len()
        invariant
            i <= bytes@.len(),
            copy@ == bytes@.subrange(0, i as int),
        decreases bytes@.len() - i,
    {
        copy.push(bytes[i]);
        i = i + 1;
        assert(copy@ =~= bytes@.subrange(0, i as int));
    }
    assert(copy@ =~= bytes@);
    copy
}

/// Named values in the fetched RAM.
pub trait NamedAddresses {
    /// Length of the tile info chunk.
    spec fn tile_info_len(&self) -> nat;

    /// Length of the transition coordinates chunk.
    spec fn coordinate_len(&self) -> nat;

    fn overworld_tile(&self) -> u8
        requires
            OVERWORLD_TILE_ADDRESS < self.tile_info_len(),
    ;

    fn entrance_id(&self) -> u8
        requires
            ENTRANCE_ID_ADDRESS < self.tile_info_len(),
    ;

    fn indoors(&self) -> u8
        requires
            INDOORS_ADDRESS < self.tile_info_len(),
    ;

    fn x(&self) -> u16
        requires
            X_ADDRESS + 2 <= self.tile_info_len(),
    ;

    fn y(&self) -> u16
        requires
            Y_ADDRESS + 2 <= self.tile_info_len(),
    ;

    fn transition_x(&self) -> u16
        requires
            4 <= self.coordinate_len(),
    ;

    fn transition_y(&self) -> u16
        requires
            2 <= self.coordinate_len(),
    ;

    /// 15 on the start screen, 7 once Link is spawned into the world, 3 after flying.
    fn game_mode(&self) -> u8
        requires
            GAME_MODE_ADDRESS < self.tile_info_len(),
    ;

    fn game_state(&self) -> u8
        requires
            GAME_STATE_ADDRESS < self.tile_info_len(),
    ;
}

/// Writers for the named values, used to fake reads from the SNES.
pub trait SetNamedAddresses {
    spec fn tile_info_len(&self) -> nat;

    spec fn coordinate_len(&self) -> nat;

    fn set_overworld_tile(&mut self, byte: u8)
        requires
            OVERWORLD_TILE_ADDRESS < old(self).tile_info_len(),
    ;

    fn set_entrance_id(&mut self, byte: u8)
        requires
            ENTRANCE_ID_ADDRESS < old(self).tile_info_len(),
    ;

    fn set_indoors(&mut self, byte: u8)
        requires
            INDOORS_ADDRESS < old(self).tile_info_len(),
    ;

    fn set_x(&mut self, word: u16)
        requires
            X_ADDRESS + 2 <= old(self).tile_info_len(),
    ;

    fn set_y(&mut self, word: u16)
        requires
            Y_ADDRESS + 2 <= old(self).tile_info_len(),
    ;

    fn set_transition_x(&mut self, word: u16)
        requires
            4 <= old(self).coordinate_len(),
    ;

    fn set_transition_y(&mut self, word: u16)
        requires
            2 <= old(self).coordinate_len(),
    ;
}

impl NamedAddresses for SnesRam {
    open spec fn tile_info_len(&self) -> nat {
        self.tile_info_chunk@.len()
    }

    open spec fn coordinate_len(&self) -> nat {
        self.coordinate_chunk@.len()
    }

    fn overworld_tile(&self) -> (byte: u8)
        ensures
            byte == self.tile_info_chunk@[OVERWORLD_TILE_ADDRESS as int],
    {
        self.tile_info_chunk[OVERWORLD_TILE_ADDRESS]
    }

    fn entrance_id(&self) -> (byte: u8)
        ensures
            byte == self.tile_info_chunk@[ENTRANCE_ID_ADDRESS as int],
    {
        self.tile_info_chunk[ENTRANCE_ID_ADDRESS]
    }

    fn indoors(&self) -> (byte: u8)
        ensures
            byte == self.tile_info_chunk@[INDOORS_ADDRESS as int],
    {
        self.tile_info_chunk[INDOORS_ADDRESS]
    }

    fn x(&self) -> (word: u16)
        ensures
            word == le_word(self.tile_info_chunk@, X_ADDRESS as int),
    {
        read_le_word(&self.tile_info_chunk, X_ADDRESS)
    }

    fn y(&self) -> (word: u16)
        ensures
            word == le_word(self.tile_info_chunk@, Y_ADDRESS as int),
    {
        read_le_word(&self.tile_info_chunk, Y_ADDRESS)
    }

    fn transition_x(&self) -> (word: u16)
        ensures
            word == le_word(self.coordinate_chunk@, 2),
    {
        read_le_word(&self.coordinate_chunk, 2)
    }

    fn transition_y(&self) -> (word: u16)
        ensures
            word == le_word(self.coordinate_chunk@, 0),
    {
        read_le_word(&self.coordinate_chunk, 0)
    }

    fn game_mode(&self) -> (byte: u8)
        ensures
            byte == self.tile_info_chunk@[GAME_MODE_ADDRESS as int],
    {
        self.tile_info_chunk[GAME_MODE_ADDRESS]
    }

    fn game_state(&self) -> (byte: u8)
        ensures
            byte == self.tile_info_chunk@[GAME_STATE_ADDRESS as int],
    {
        self.get_byte(GAME_STATE_ADDRESS)
    }
}

impl SetNamedAddresses for SnesRam {
    open spec fn tile_info_len(&self) -> nat {
        self.tile_info_chunk@.len()
    }

    open spec fn coordinate_len(&self) -> nat {
        self.coordinate_chunk@.len()
    }

    fn set_overworld_tile(&mut self, byte: u8)
        ensures
            final(self).tile_info_chunk@ == old(self).tile_info_chunk@.update(
                OVERWORLD_TILE_ADDRESS as int,
                byte,
            ),
            final(self).dunka_chunka@ == old(self).dunka_chunka@,
            final(self).coordinate_chunk@ == old(self).coordinate_chunk@,
            final(self).game_stats_chunk@ == old(self).game_stats_chunk@,
    {
        self.tile_info_chunk.set(OVERWORLD_TILE_ADDRESS, byte);
    }

    fn set_entrance_id(&mut self, byte: u8)
        ensures
            final(self).tile_info_chunk@ == old(self).tile_info_chunk@.update(
                ENTRANCE_ID_ADDRESS as int,
                byte,
            ),
            final(self).dunka_chunka@ == old(self).dunka_chunka@,
            final(self).coordinate_chunk@ == old(self).coordinate_chunk@,
            final(self).game_stats_chunk@ == old(self).game_stats_chunk@,
    {
        self.tile_info_chunk.set(ENTRANCE_ID_ADDRESS, byte);
    }

    fn set_indoors(&mut self, byte: u8)
        ensures
            final(self).tile_info_chunk@ == old(self).tile_info_chunk@.update(
                INDOORS_ADDRESS as int,
                byte,
            ),
            final(self).dunka_chunka@ == old(self).dunka_chunka@,
            final(self).coordinate_chunk@ == old(self).coordinate_chunk@,
            final(self).game_stats_chunk@ == old(self).game_stats_chunk@,
    {
        self.tile_info_chunk.set(INDOORS_ADDRESS, byte);
    }

    fn set_x(&mut self, word: u16)
        ensures
            final(self).tile_info_chunk@ == old(self).tile_info_chunk@.update(
                X_ADDRESS as int,
                (word % 256) as u8,
            ).update(X_ADDRESS + 1, (word / 256) as u8),
            final(self).dunka_chunka@ == old(self).dunka_chunka@,
            final(self).coordinate_chunk@ == old(self).coordinate_chunk@,
            final(self).game_stats_chunk@ == old(self).game_stats_chunk@,
    {
        write_le_word(&mut self.tile_info_chunk, X_ADDRESS, word);
    }

    fn set_y(&mut self, word: u16)
        ensures
            final(self).tile_info_chunk@ == old(self).tile_info_chunk@.update(
                Y_ADDRESS as int,
                (word % 256) as u8,
            ).update(Y_ADDRESS + 1, (word / 256) as u8),
            final(self).dunka_chunka@ == old(self).dunka_chunka@,
            final(self).coordinate_chunk@ == old(self).coordinate_chunk@,
            final(self).game_stats_chunk@ == old(self).game_stats_chunk@,
    {
        write_le_word(&mut self.tile_info_chunk, Y_ADDRESS, word);
    }

    fn set_transition_x(&mut self, word: u16)
        ensures
            final(self).coordinate_chunk@ == old(self).coordinate_chunk@.update(
                2,
                (word % 256) as u8,
            ).update(3, (word / 256) as u8),
            final(self).tile_info_chunk@ == old(self).tile_info_chunk@,
            final(self).dunka_chunka@ == old(self).dunka_chunka@,
            final(self).game_stats_chunk@ == old(self).game_stats_chunk@,
    {
        write_le_word(&mut self.coordinate_chunk, 2, word);
    }

    fn set_transition_y(&mut self, word: u16)
        ensures
            final(self).coordinate_chunk@ == old(self).coordinate_chunk@.update(
                0,
                (word % 256) as u8,
            ).update(1, (word / 256) as u8),
            final(self).tile_info_chunk@ == old(self).tile_info_chunk@,
            final(self).dunka_chunka@ == old(self).dunka_chunka@,
            final(self).game_stats_chunk@ == old(self).game_stats_chunk@,
    {
        write_le_word(&mut self.coordinate_chunk, 0, word);
    }
}

/// A word written with `write_le_word` reads back unchanged.
pub proof fn law_le_word_roundtrip(bytes: Seq<u8>, start: int, word: u16)
    requires
        0 <= start,
        start + 2 <= bytes.len(),
    ensures
        le_word(
            bytes.update(start, (word % 256) as u8).update(start + 1, (word / 256) as u8),
            start,
        ) == word,
{
}

/// Setting the transition coordinates and reading them back gives the values that were set.
pub proof fn law_transition_coordinates_roundtrip(ram: SnesRam, x: u16, y: u16)
    requires
        4 <= ram.coordinate_chunk@.len(),
    ensures
        ({
            let with_x = ram.coordinate_chunk@.update(2, (x % 256) as u8).update(3, (x / 256) as u8);
            let with_xy = with_x.update(0, (y % 256) as u8).update(1, (y / 256) as u8);
            &&& le_word(with_xy, 2) == x
            &&& le_word(with_xy, 0) == y
        }),
{
}

/// Fake RAM reads, built from the named values that they should hold.
#[derive(Default)]
pub struct SnesRamInitializer {
    pub overworld_tile: Option<u8>,
    pub entrance_id: Option<u8>,
    pub indoors: Option<u8>,
    pub transition_x: Option<u16>,
    pub transition_y: Option<u16>,
}

/// The value of an optional setting, zero when it is unset.
pub open spec fn or_zero_u8(v: Option<u8>) -> u8 {
    match v {
        Some(b) => b,
        None => 0,
    }
}

pub open spec fn or_zero_u16(v: Option<u16>) -> u16 {
    match v {
        Some(w) => w,
        None => 0,
    }
}

impl SnesRamInitializer {
    /// Zero-filled RAM holding the given named values; unset values are zero.
    pub fn build(&self) -> (ram: SnesRam)
        ensures
            ram.wf(),
            ram.tile_info_chunk@[ENTRANCE_ID_ADDRESS as int] == or_zero_u8(self.entrance_id),
            ram.tile_info_chunk@[INDOORS_ADDRESS as int] == or_zero_u8(self.indoors),
            ram.tile_info_chunk@[OVERWORLD_TILE_ADDRESS as int] == or_zero_u8(self.overworld_tile),
            le_word(ram.coordinate_chunk@, 2) == or_zero_u16(self.transition_x),
            le_word(ram.coordinate_chunk@, 0) == or_zero_u16(self.transition_y),
            forall|i: int|
                0 <= i < TILE_INFO_CHUNK_SIZE && i != ENTRANCE_ID_ADDRESS && i != INDOORS_ADDRESS
                    && i != OVERWORLD_TILE_ADDRESS ==> ram.tile_info_chunk@[i] == 0,
            forall|i: int| 0 <= i < DUNKA_CHUNK_SIZE ==> ram.dunka_chunka@[i] == 0,
            forall|i: int| 0 <= i < GAME_STATS_SIZE ==> ram.game_stats_chunk@[i] == 0,
    {
        let mut ram = SnesRam::new();
        ram.set_entrance_id(unwrap_or_zero_u8(self.entrance_id));
        ram.set_indoors(unwrap_or_zero_u8(self.indoors));
        ram.set_overworld_tile(unwrap_or_zero_u8(self.overworld_tile));
        let x = unwrap_or_zero_u16(self.transition_x);
        let y = unwrap_or_zero_u16(self.transition_y);
        ram.set_transition_x(x);
        ram.set_transition_y(y);
        ram
    }
}

fn unwrap_or_zero_u8(v: Option<u8>) -> (b: u8)
    ensures
        b == or_zero_u8(v),
{
    match v {
        Some(b) => b,
        None => 0,
    }
}

fn unwrap_or_zero_u16(v: Option<u16>) -> (w: u16)
    ensures
        w == or_zero_u16(v),
{
    match v {
        Some(w) => w,
        None => 0,
    }
}

} // verus!
