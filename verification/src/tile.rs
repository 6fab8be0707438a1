//! Tiles (screens and rooms) and working out which one Link has entered from a RAM read.
use crate::check::{clone_opt_conditions, opt_conditions_model};
use crate::clock::now_millis;
use crate::condition::{
    Conditions, ConditionsModel, coordinate_condition_met, coordinates_defined, coordinates_met,
};
use crate::snes::{
    ENTRANCE_ID_ADDRESS, INDOORS_ADDRESS, NamedAddresses, OVERWORLD_TILE_ADDRESS, SnesRam,
};
use vstd::prelude::*;
use vstd::string::*;

verus! {

#[derive(Debug, PartialEq)]
pub struct Tile {
    pub id: usize,
    pub name: String,
    pub address_value: Vec<u16>,
    /// Milliseconds since the Unix epoch.
    pub timestamp: Option<i64>,
    pub indoors: bool,
    pub conditions: Option<Vec<Conditions>>,
    pub region: String,
}

/// The mathematical value of a `Tile`.
pub struct TileModel {
    pub id: usize,
    pub name: Seq<char>,
    pub address_value: Seq<u16>,
    pub timestamp: Option<i64>,
    pub indoors: bool,
    pub conditions: Option<Seq<ConditionsModel>>,
    pub region: Seq<char>,
}

/// Why no tile could be told from a RAM read.
#[derive(Debug, PartialEq, Eq)]
pub enum TileError {
    NoMatch,
}

/// A copy of the words.
pub fn copy_words(v: &Vec<u16>) -> (r: Vec<u16>)
    ensures
        r@ == v@,
{
    let mut r: Vec<u16> = Vec::new();
    let mut i: usize = 0;
    while i < v.len()
        invariant
            i <= v@.len(),
            r@ == v@.subrange(0, i as int),
        decreases v@.len() - i,
    {
        r.push(v[i]);
        i = i + 1;
        assert(r@ =~= v@.subrange(0, i as int));
    }
    assert(r@ =~= v@);
    r
}

/// The model of `Tile::default()`.
pub open spec fn default_tile_model() -> TileModel {
    TileModel {
        id: 0,
        name: Seq::empty(),
        address_value: seq![0u16],
        timestamp: None,
        indoors: false,
        conditions: None,
        region: Seq::empty(),
    }
}

impl Default for Tile {
    fn default() -> (t: Self)
        ensures
            t.model() == default_tile_model(),
    {
        let mut address_value: Vec<u16> = Vec::new();
        address_value.push(0);
        let t = Tile {
            id: 0,
            timestamp: None,
            indoors: false,
            address_value,
            conditions: None,
            name: String::new(),
            region: String::new(),
        };
        assert(t.model().address_value =~= seq![0u16]);
        t
    }
}

/// The first index of a dash in `s`, if there is one.
pub open spec fn first_dash(s: Seq<char>) -> Option<int> {
    if exists|k: int| 0 <= k < s.len() && s[k] == '-' && forall|j: int| 0 <= j < k ==> s[j] != '-' {
        Some(choose|k: int| 0 <= k < s.len() && s[k] == '-' && forall|j: int| 0 <= j < k ==> s[j] != '-')
    } else {
        None
    }
}

/// The region of a tile named `name`: the part of the name before the character that precedes
/// the first dash ("Skull Woods - ..." gives "Skull Woods"), or, for a name without a dash,
/// the underworld or the overworld.
pub open spec fn region_of(name: Seq<char>, indoors: bool) -> Seq<char> {
    match first_dash(name) {
        Some(k) => name.subrange(0, k - 1),
        None => if indoors {
            "Underworld"@
        } else {
            "Overworld"@
        },
    }
}

/// The region can be cut out of the name: a dash is not the first character, and the
/// character before it takes one byte in UTF-8.
pub open spec fn region_defined(name: Seq<char>) -> bool {
    match first_dash(name) {
        Some(k) => k >= 1 && (name[k - 1] as u32) < 0x80,
        None => true,
    }
}

impl Tile {
    pub open spec fn model(&self) -> TileModel {
        TileModel {
            id: self.id,
            name: self.name@,
            address_value: self.address_value@,
            timestamp: self.timestamp,
            indoors: self.indoors,
            conditions: opt_conditions_model(self.conditions),
            region: self.region@,
        }
    }

    /// A copy with the same model.
    pub fn deep_clone(&self) -> (r: Tile)
        ensures
            r.model() == self.model(),
    {
        Tile {
            id: self.id,
            name: self.name.clone(),
            address_value: copy_words(&self.address_value),
            timestamp: self.timestamp,
            indoors: self.indoors,
            conditions: clone_opt_conditions(&self.conditions),
            region: self.region.clone(),
        }
    }

    /// A default tile with the given address value and indoors flag, stamped with the current
    /// time.
    pub fn new(address_value: u16, indoors: bool) -> (t: Self)
        ensures
            t.timestamp is Some,
            t.model() == (TileModel {
                timestamp: t.timestamp,
                indoors,
                address_value: seq![address_value],
                ..default_tile_model()
            }),
    {
        let mut values: Vec<u16> = Vec::new();
        values.push(address_value);
        let t = Tile {
            timestamp: Some(now_millis()),
            indoors,
            address_value: values,
            ..Tile::default()
        };
        assert(t.model().address_value =~= seq![address_value]);
        t
    }

    /// Stamps the tile with the current time.
    pub fn time_transit(&mut self)
        ensures
            final(self).timestamp is Some,
            final(self).model() == (TileModel { timestamp: final(self).timestamp, ..old(self).model() }),
    {
        self.timestamp = Some(now_millis());
    }

    /// The region that the tile lies in, taken from its name.
    pub fn region(&self) -> (r: String)
        requires
            region_defined(self.name@),
        ensures
            r@ == region_of(self.name@, self.indoors),
    {
        let name: &str = self.name.as_str();
        let n = name.unicode_len();
        let mut i: usize = 0;
        while i < n
            invariant
                i <= n,
                n == name@.len(),
                name@ == self.name@,
                region_defined(self.name@),
                forall|j: int| 0 <= j < i ==> name@[j] != '-',
            decreases n - i,
        {
            if name.get_char(i) == '-' {
                proof {
                    let s = self.name@;
                    assert(0 <= i < s.len() && s[i as int] == '-' && forall|j: int|
                        0 <= j < i ==> s[j] != '-');
                    let k = choose|k: int|
                        0 <= k < s.len() && s[k] == '-' && forall|j: int| 0 <= j < k ==> s[j] != '-';
                    assert(k == i) by {
                        if k < i {
                            assert(s[k] != '-');
                        }
                        if k > i {
                            assert(s[i as int] != '-');
                        }
                    }
                    assert(first_dash(self.name@) == Some(i as int));
                }
                let head = name.substring_char(0, i - 1);
                return String::from_str(head);
            }
            i = i + 1;
        }
        proof {
            let s = self.name@;
            assert(!(exists|k: int|
                0 <= k < s.len() && s[k] == '-' && forall|j: int| 0 <= j < k ==> s[j] != '-'));
        }
        if self.indoors {
            String::from_str("Underworld")
        } else {
            String::from_str("Overworld")
        }
    }

    /// The RAM read points at this tile: indoors, the entrance id is one of its address
    /// values; outdoors, the overworld tile is.
    pub open spec fn matches_ram(&self, ram: &SnesRam) -> bool {
        let indoors = ram.tile_info_chunk@[INDOORS_ADDRESS as int];
        ||| indoors == 1 && self.indoors && self.address_value@.contains(
            ram.tile_info_chunk@[ENTRANCE_ID_ADDRESS as int] as u16,
        )
        ||| indoors == 0 && !self.indoors && self.address_value@.contains(
            ram.tile_info_chunk@[OVERWORLD_TILE_ADDRESS as int] as u16,
        )
    }

    /// Testing `matches_ram` reads only what the RAM holds.
    pub open spec fn match_defined(&self, ram: &SnesRam) -> bool {
        let len = ram.tile_info_chunk@.len();
        let indoors = ram.tile_info_chunk@[INDOORS_ADDRESS as int];
        &&& INDOORS_ADDRESS < len
        &&& indoors == 1 && self.indoors ==> ENTRANCE_ID_ADDRESS < len
        &&& indoors == 0 && !self.indoors ==> OVERWORLD_TILE_ADDRESS < len
    }

    pub(crate) fn test_ram(&self, ram: &SnesRam) -> (m: bool)
        requires
            self.match_defined(ram),
        ensures
            m == self.matches_ram(ram),
    {
        (ram.indoors() == 1 && self.indoors && contains_word(
            &self.address_value,
            ram.entrance_id() as u16,
        )) || (ram.indoors() == 0 && !self.indoors && contains_word(
            &self.address_value,
            ram.overworld_tile() as u16,
        ))
    }

    /// The tile that the RAM read points at.
    ///
    /// When exactly one tile of `tiles` matches the read, that tile is returned. When several
    /// do, the first of them whose conditions all hold is returned. With no match, or with no
    /// such tile among several matches, the result is `NoMatch`.
    pub fn try_from_ram(tiles: &Vec<Tile>, current: &SnesRam, previous_tile: &Tile) -> (r: Result<
        Tile,
        TileError,
    >)
        requires
            forall|i: int| 0 <= i < tiles@.len() ==> #[trigger] tiles@[i].match_defined(current),
            match_count(tiles@, current) >= 2 ==> tiles_resolvable(tiles@, previous_tile.id, current),
        ensures
            match tile_for_ram(tiles@, previous_tile.id, current) {
                Some(i) => r matches Ok(t) && t.model() == tiles@[i].model(),
                None => r == Err::<Tile, TileError>(TileError::NoMatch),
            },
    {
        let mut count: usize = 0;
        let mut first: usize = 0;
        let mut i: usize = 0;
        while i < tiles.len()
            invariant
                i <= tiles@.len(),
                forall|k: int| 0 <= k < tiles@.len() ==> #[trigger] tiles@[k].match_defined(current),
                count == match_count(tiles@.subrange(0, i as int), current),
                count <= i,
                count > 0 ==> first < i && is_first_match(tiles@, current, first as int),
                count == 0 ==> forall|j: int| 0 <= j < i ==> !(#[trigger] tiles@[j].matches_ram(current)),
            decreases tiles@.len() - i,
        {
            assert(tiles@.subrange(0, i + 1).drop_last() =~= tiles@.subrange(0, i as int));
            if tiles[i].test_ram(current) {
                if count == 0 {
                    first = i;
                }
                count = count + 1;
            }
            i = i + 1;
        }
        assert(tiles@.subrange(0, tiles@.len() as int) =~= tiles@);
        if count == 1 {
            proof {
                lemma_first_match_unique(tiles@, current, first as int);
            }
            return Ok(tiles[first].deep_clone());
        }
        if count == 0 {
            return Err(TileError::NoMatch);
        }
        let mut i: usize = 0;
        while i < tiles.len()
            invariant
                i <= tiles@.len(),
                forall|k: int| 0 <= k < tiles@.len() ==> #[trigger] tiles@[k].match_defined(current),
                tiles_resolvable(tiles@, previous_tile.id, current),
                match_count(tiles@, current) >= 2,
                forall|j: int|
                    0 <= j < i ==> !(#[trigger] tiles@[j].matches_ram(current) && tile_resolved(&tiles@[j],
                        previous_tile.id,
                        current,
                    )),
            decreases tiles@.len() - i,
        {
            let tile = &tiles[i];
            if tile.test_ram(current) {
                assert(tiles@[i as int].matches_ram(current));
                match &tile.conditions {
                    Some(conditions) => {
                        if tile_conditions_met(conditions, tile, previous_tile, current) {
                            proof {
                                lemma_first_resolved_unique(tiles@, previous_tile.id, current, i as int);
                            }
                            return Ok(tile.deep_clone());
                        }
                    },
                    None => {
                        proof {
                            assert(false);
                        }
                    },
                }
            }
            i = i + 1;
        }
        proof {
            if exists|k: int| is_first_resolved(tiles@, previous_tile.id, current, k) {
                let k = choose|k: int| is_first_resolved(tiles@, previous_tile.id, current, k);
                assert(!(tiles@[k].matches_ram(current) && tile_resolved(&tiles@[k], previous_tile.id, current)));
            }
        }
        Err(TileError::NoMatch)
    }
}

/// Whether `word` occurs in `v`.
pub fn contains_word(v: &Vec<u16>, word: u16) -> (found: bool)
    ensures
        found == v@.contains(word),
{
    let mut i: usize = 0;
    while i < v.len()
        invariant
            i <= v@.len(),
            forall|j: int| 0 <= j < i ==> v@[j] != word,
        decreases v@.len() - i,
    {
        if v[i] == word {
            return true;
        }
        i = i + 1;
    }
    false
}

/// How many of the tiles the RAM read points at.
pub open spec fn match_count(tiles: Seq<Tile>, ram: &SnesRam) -> nat
    decreases tiles.len(),
{
    if tiles.len() == 0 {
        0
    } else {
        match_count(tiles.drop_last(), ram) + if tiles.last().matches_ram(ram) {
            1nat
        } else {
            0nat
        }
    }
}

/// `i` is the first tile that the read points at.
pub open spec fn is_first_match(tiles: Seq<Tile>, ram: &SnesRam, i: int) -> bool {
    &&& 0 <= i < tiles.len()
    &&& tiles[i].matches_ram(ram)
    &&& forall|j: int| 0 <= j < i ==> !(#[trigger] tiles[j].matches_ram(ram))
}

/// `i` is the first tile that the read points at and whose conditions all hold.
pub open spec fn is_first_resolved(tiles: Seq<Tile>, previous_id: usize, ram: &SnesRam, i: int) -> bool {
    &&& 0 <= i < tiles.len()
    &&& tiles[i].matches_ram(ram)
    &&& tile_resolved(&tiles[i], previous_id, ram)
    &&& forall|j: int|
        0 <= j < i ==> !(#[trigger] tiles[j].matches_ram(ram) && tile_resolved(&tiles[j], previous_id, ram))
}

/// The tile that a read points at: the only matching tile when there is one; among several,
/// the first whose conditions all hold; none otherwise. The previous tile is given by its id.
pub open spec fn tile_for_ram(tiles: Seq<Tile>, previous_id: usize, ram: &SnesRam) -> Option<int> {
    let n = match_count(tiles, ram);
    if n == 1 {
        Some(choose|i: int| is_first_match(tiles, ram, i))
    } else if n >= 2 && exists|i: int| is_first_resolved(tiles, previous_id, ram, i) {
        Some(choose|i: int| is_first_resolved(tiles, previous_id, ram, i))
    } else {
        None
    }
}

/// A read points at a tile when it shows the player indoors (byte 0x1b is 1) and the tile is
/// an indoor one listing the entrance id (byte 0x10e), or it shows the player outdoors (byte
/// 0x1b is 0) and the tile is an outdoor one listing the overworld tile (byte 0x40a).
pub proof fn law_tile_points_at(tile: Tile, ram: SnesRam)
    ensures
        tile.matches_ram(&ram) <==> (ram.tile_info_chunk@[0x1b] == 1 && tile.indoors
            && tile.address_value@.contains(ram.tile_info_chunk@[0x10e] as u16)) || (
        ram.tile_info_chunk@[0x1b] == 0 && !tile.indoors && tile.address_value@.contains(
            ram.tile_info_chunk@[0x40a] as u16,
        )),
{
}

/// Counting the tiles that a read points at: none when no tile matches, one when exactly
/// tile `i` does, which is then the first that matches; and when some tile matches, there is
/// a first one.
pub proof fn lemma_match_count(tiles: Seq<Tile>, ram: &SnesRam, i: int)
    ensures
        (forall|j: int| 0 <= j < tiles.len() ==> !(#[trigger] tiles[j].matches_ram(ram))) ==> match_count(
            tiles,
            ram,
        ) == 0,
        0 <= i < tiles.len() && tiles[i].matches_ram(ram) && (forall|j: int|
            0 <= j < tiles.len() && j != i ==> !(#[trigger] tiles[j].matches_ram(ram))) ==> match_count(
            tiles,
            ram,
        ) == 1 && is_first_match(tiles, ram, i),
        match_count(tiles, ram) > 0 ==> exists|k: int| is_first_match(tiles, ram, k),
    decreases tiles.len(),
{
    if tiles.len() > 0 {
        let p = tiles.drop_last();
        lemma_match_count(p, ram, i);
        if (forall|j: int| 0 <= j < tiles.len() ==> !(#[trigger] tiles[j].matches_ram(ram))) {
            assert(!tiles[tiles.len() - 1].matches_ram(ram));
            assert forall|j: int| 0 <= j < p.len() implies !(#[trigger] p[j].matches_ram(ram)) by {
                assert(p[j] == tiles[j]);
            }
        }
        if 0 <= i < tiles.len() && tiles[i].matches_ram(ram) && (forall|j: int|
            0 <= j < tiles.len() && j != i ==> !(#[trigger] tiles[j].matches_ram(ram))) {
            if i == tiles.len() - 1 {
                assert forall|j: int| 0 <= j < p.len() implies !(#[trigger] p[j].matches_ram(ram)) by {
                    assert(p[j] == tiles[j]);
                }
            } else {
                assert(!tiles[tiles.len() - 1].matches_ram(ram));
                assert(p[i] == tiles[i]);
                assert forall|j: int| 0 <= j < p.len() && j != i implies !(#[trigger] p[j].matches_ram(ram)) by {
                    assert(p[j] == tiles[j]);
                }
            }
        }
        if match_count(tiles, ram) > 0 {
            if match_count(p, ram) > 0 {
                let k = choose|k: int| is_first_match(p, ram, k);
                assert(p[k] == tiles[k]);
                assert forall|j: int| 0 <= j < k implies !(#[trigger] tiles[j].matches_ram(ram)) by {
                    assert(p[j] == tiles[j]);
                    assert(!p[j].matches_ram(ram));
                }
                assert(is_first_match(tiles, ram, k));
            } else {
                lemma_match_count_zero_none(p, ram);
                let k = tiles.len() - 1;
                assert forall|j: int| 0 <= j < k implies !(#[trigger] tiles[j].matches_ram(ram)) by {
                    assert(p[j] == tiles[j]);
                }
                assert(is_first_match(tiles, ram, k));
            }
        }
    }
}

/// No tile matches when none is counted.
proof fn lemma_match_count_zero_none(tiles: Seq<Tile>, ram: &SnesRam)
    requires
        match_count(tiles, ram) == 0,
    ensures
        forall|j: int| 0 <= j < tiles.len() ==> !(#[trigger] tiles[j].matches_ram(ram)),
    decreases tiles.len(),
{
    if tiles.len() > 0 {
        let p = tiles.drop_last();
        lemma_match_count_zero_none(p, ram);
        assert forall|j: int| 0 <= j < tiles.len() implies !(#[trigger] tiles[j].matches_ram(ram)) by {
            if j < p.len() {
                assert(p[j] == tiles[j]);
            }
        }
    }
}

pub(crate) proof fn lemma_first_match_unique(tiles: Seq<Tile>, ram: &SnesRam, i: int)
    requires
        is_first_match(tiles, ram, i),
    ensures
        (choose|k: int| is_first_match(tiles, ram, k)) == i,
{
    let k = choose|k: int| is_first_match(tiles, ram, k);
    if k < i {
        assert(!tiles[k].matches_ram(ram));
    }
    if k > i {
        assert(!tiles[i].matches_ram(ram));
    }
}

proof fn lemma_first_resolved_unique(tiles: Seq<Tile>, previous_id: usize, ram: &SnesRam, i: int)
    requires
        is_first_resolved(tiles, previous_id, ram, i),
    ensures
        (choose|k: int| is_first_resolved(tiles, previous_id, ram, k)) == i,
{
    let k = choose|k: int| is_first_resolved(tiles, previous_id, ram, k);
    if k < i {
        assert(!(tiles[k].matches_ram(ram) && tile_resolved(&tiles[k], previous_id, ram)));
    }
    if k > i {
        assert(!(tiles[i].matches_ram(ram) && tile_resolved(&tiles[i], previous_id, ram)));
    }
}

/// A condition of a tile holds; only the previous tile, coordinate and underworld conditions
/// are understood here.
pub open spec fn tile_condition_holds(
    c: ConditionsModel,
    tile: &Tile,
    previous_id: usize,
    ram: &SnesRam,
) -> bool {
    match c {
        ConditionsModel::PreviousTile(ct) => ct.id == previous_id || tile.id == previous_id,
        ConditionsModel::Coordinates { coordinates } => coordinates_met(coordinates, ram),
        ConditionsModel::Underworld => ram.tile_info_chunk@[INDOORS_ADDRESS as int] == 1,
        _ => false,
    }
}

/// A condition of a tile can be evaluated: it is of a kind understood here and reads only what
/// the RAM holds.
pub open spec fn tile_condition_defined(c: ConditionsModel, ram: &SnesRam) -> bool {
    match c {
        ConditionsModel::PreviousTile(_) => true,
        ConditionsModel::Coordinates { coordinates } => coordinates_defined(coordinates, ram),
        ConditionsModel::Underworld => INDOORS_ADDRESS < ram.tile_info_chunk@.len(),
        _ => false,
    }
}

/// The models of the tile's conditions; empty when it has none.
pub open spec fn tile_conditions(tile: &Tile) -> Seq<ConditionsModel> {
    match tile.conditions {
        Some(v) => crate::condition::conditions_models(v@),
        None => Seq::empty(),
    }
}

/// Every one of the conditions holds for the tile.
pub open spec fn tile_conditions_hold(
    cs: Seq<ConditionsModel>,
    tile: &Tile,
    previous_id: usize,
    ram: &SnesRam,
) -> bool {
    forall|i: int| 0 <= i < cs.len() ==> tile_condition_holds(#[trigger] cs[i], tile, previous_id, ram)
}

/// Each condition that is evaluated, in order, until one fails, can be evaluated.
pub open spec fn tile_conditions_defined(
    cs: Seq<ConditionsModel>,
    tile: &Tile,
    previous_id: usize,
    ram: &SnesRam,
) -> bool {
    forall|k: int|
        0 <= k < cs.len() ==> (forall|l: int|
            0 <= l < k ==> tile_condition_holds(#[trigger] cs[l], tile, previous_id, ram))
            ==> tile_condition_defined(#[trigger] cs[k], ram)
}

/// The tile has conditions and they all hold.
pub open spec fn tile_resolved(tile: &Tile, previous_id: usize, ram: &SnesRam) -> bool {
    &&& tile.conditions is Some
    &&& tile_conditions_hold(tile_conditions(tile), tile, previous_id, ram)
}

/// Every matching tile that is tried, before one resolves, has conditions, and each of them
/// that is evaluated, before one fails, can be.
pub open spec fn tiles_resolvable(tiles: Seq<Tile>, previous_id: usize, ram: &SnesRam) -> bool {
    forall|i: int|
        0 <= i < tiles.len() && #[trigger] tiles[i].matches_ram(ram) && (forall|j: int|
            0 <= j < i ==> !(#[trigger] tiles[j].matches_ram(ram) && tile_resolved(
                &tiles[j],
                previous_id,
                ram,
            ))) ==> {
            &&& tiles[i].conditions is Some
            &&& tile_conditions_defined(tile_conditions(&tiles[i]), &tiles[i], previous_id, ram)
        }
}

fn tile_condition_met(c: &Conditions, tile: &Tile, previous_tile: &Tile, ram: &SnesRam) -> (met:
    bool)
    requires
        tile_condition_defined(c.model(), ram),
    ensures
        met == tile_condition_holds(c.model(), tile, previous_tile.id, ram),
{
    match c {
        Conditions::PreviousTile(condition) => crate::condition::previous_tile_condition_met(
            condition,
            previous_tile,
            tile,
        ),
        Conditions::Coordinates { coordinates } => coordinate_condition_met(
            coordinates.as_slice(),
            ram,
        ),
        Conditions::Underworld => ram.indoors() == 1,
        _ => {
            proof {
                assert(false);
            }
            false
        },
    }
}

fn tile_conditions_met(
    conditions: &Vec<Conditions>,
    tile: &Tile,
    previous_tile: &Tile,
    ram: &SnesRam,
) -> (met: bool)
    requires
        tile.conditions == Some(*conditions),
        tile_conditions_defined(tile_conditions(tile), tile, previous_tile.id, ram),
    ensures
        met == tile_resolved(tile, previous_tile.id, ram),
{
    let ghost cs = tile_conditions(tile);
    let mut i: usize = 0;
    while i < conditions.len()
        invariant
            i <= conditions@.len(),
            cs == tile_conditions(tile),
            cs == crate::condition::conditions_models(conditions@),
            tile.conditions == Some(*conditions),
            tile_conditions_defined(cs, tile, previous_tile.id, ram),
            forall|l: int| 0 <= l < i ==> tile_condition_holds(#[trigger] cs[l], tile, previous_tile.id, ram),
        decreases conditions@.len() - i,
    {
        assert(cs[i as int] == conditions@[i as int].model());
        if !tile_condition_met(&conditions[i], tile, previous_tile, ram) {
            assert(!tile_condition_holds(cs[i as int], tile, previous_tile.id, ram));
            return false;
        }
        i = i + 1;
    }
    true
}

} // verus!
