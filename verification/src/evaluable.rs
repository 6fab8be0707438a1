//! Deciding that what a read is checked against can be evaluated on it: the addresses read
//! are held by the read, the bounds computed stay in range, and no condition of an
//! unimplemented kind is reached. Only what evaluation reaches counts: it stops at the first
//! subcondition or condition that decides.
use crate::check::Check;
use crate::condition::{
    Conditions, ConditionsModel, Coordinate, Value, box_bounds_defined, conditions_models, coordinate_match_defined, coordinate_matches,
    coordinates_defined, offset_readable, point_match_defined,
};
use crate::snes::{
    COORDINATE_CHUNK_SIZE, COORDINATE_OFFSET, DUNKA_CHUNK_SIZE, DUNKA_OFFSET, GAME_STATS_OFFSET,
    GAME_STATS_SIZE, SnesRam, TILE_INFO_CHUNK_SIZE, X_ADDRESS,
};
use crate::parse_ram::{
    CheckKind, all_safe, check_safe, condition_holds, condition_safe, lemma_subcondition_decreases,
    match_condition, passes, read_offset,
};
use crate::event::{EventEnum, EventLog, EventModel, EventTracker, has_transition};
use crate::parse_ram::{latest_tile, objective_testable, tiles_readable};
use crate::snes::{ENTRANCE_ID_ADDRESS, INDOORS_ADDRESS, NamedAddresses, OVERWORLD_TILE_ADDRESS};
use crate::tile::{
    Tile, match_count, tile_condition_defined, tile_condition_holds, tile_conditions,
    tile_conditions_defined, tile_resolved, tiles_resolvable,
};
use std::collections::VecDeque;
use vstd::prelude::*;

verus! {

/// Whether `get_byte(address)` can be called on the read.
pub fn can_read_address(ram: &SnesRam, address: usize) -> (r: bool)
    ensures
        r == ram.can_read(address as int),
{
    if address < TILE_INFO_CHUNK_SIZE {
        address < ram.tile_info_chunk.len()
    } else if address >= DUNKA_OFFSET && address < DUNKA_OFFSET + DUNKA_CHUNK_SIZE {
        address - DUNKA_OFFSET < ram.dunka_chunka.len()
    } else if address >= COORDINATE_OFFSET && address < COORDINATE_OFFSET + COORDINATE_CHUNK_SIZE {
        address - COORDINATE_OFFSET < ram.coordinate_chunk.len()
    } else if address >= GAME_STATS_OFFSET && address < GAME_STATS_OFFSET + GAME_STATS_SIZE {
        address - GAME_STATS_OFFSET < ram.game_stats_chunk.len()
    } else {
        false
    }
}

/// Whether the read, and the latest earlier read if there is one, hold `offset`.
pub fn offset_is_readable(history: &VecDeque<SnesRam>, ram: &SnesRam, offset: usize) -> (r: bool)
    ensures
        r == offset_readable(history@, ram, offset as int),
{
    can_read_address(ram, offset) && (history.len() == 0 || can_read_address(
        &history[history.len() - 1],
        offset,
    ))
}

/// Whether matching `(x, y)` against a box of half-width `w` around `(cx, cy)` stays in `u16`.
fn box_bounds_ok(x: u16, y: u16, cx: u16, cy: u16, w: u16) -> (r: bool)
    ensures
        r == box_bounds_defined(x, y, cx, cy, w as int),
{
    if w > cx {
        return false;
    }
    if x < cx - w {
        return true;
    }
    if cx as u32 + w as u32 > 0xffff {
        return false;
    }
    if x > cx + w {
        return true;
    }
    if cy < 1 {
        return false;
    }
    if y < cy - 1 {
        return true;
    }
    cy as u32 + 3 <= 0xffff
}

/// Whether matching the point `(x, y)` against `other` stays in `u16`.
pub fn point_match_ok(x: u16, y: u16, other: &Coordinate) -> (r: bool)
    ensures
        r == point_match_defined(x, y, *other),
{
    match other {
        Coordinate::Chest { x: cx, y: cy } => box_bounds_ok(x, y, *cx, *cy, 10),
        Coordinate::BigChest { x: cx, y: cy } => box_bounds_ok(x, y, *cx, *cy, 24),
        Coordinate::Stairs { x: sx, y: sy } => {
            if x != *sx {
                true
            } else if *sy < 3 {
                false
            } else if y < *sy - 3 {
                true
            } else {
                *sy as u32 + 3 <= 0xffff
            }
        },
        _ => true,
    }
}

/// Whether `target` can be matched against the read, and whether it matches; the second value
/// is only meaningful when the first is true.
fn coordinate_match_ok(target: &Coordinate, ram: &SnesRam) -> (r: (bool, bool))
    ensures
        r.0 == coordinate_match_defined(*target, ram),
        r.0 ==> r.1 == coordinate_matches(*target, ram),
{
    let point = match target {
        Coordinate::Chest { .. } => {
            if ram.tile_info_chunk.len() < X_ADDRESS + 2 {
                return (false, false);
            }
            Coordinate::from_continuous_coords(ram)
        },
        _ => {
            if ram.coordinate_chunk.len() < 4 {
                return (false, false);
            }
            Coordinate::from_transition_coords(ram)
        },
    };
    match point {
        Coordinate::Pair { x, y } => {
            if point_match_ok(x, y, target) {
                (true, point.matches(target))
            } else {
                (false, false)
            }
        },
        _ => (false, false),
    }
}

/// Whether every coordinate that is tried, until one matches, can be matched against the read.
pub fn coordinates_evaluable(conditions: &[Coordinate], ram: &SnesRam) -> (r: bool)
    ensures
        r == coordinates_defined(conditions@, ram),
{
    let mut i: usize = 0;
    while i < conditions.len()
        invariant
            i <= conditions@.len(),
            forall|j: int| 0 <= j < i ==> !coordinate_matches(#[trigger] conditions@[j], ram),
            forall|k: int|
                0 <= k < i ==> #[trigger] coordinate_match_defined(conditions@[k], ram),
        decreases conditions@.len() - i,
    {
        let (defined, matched) = coordinate_match_ok(&conditions[i], ram);
        if !defined {
            return false;
        }
        if matched {
            assert forall|k: int|
                0 <= k < conditions@.len() && (forall|j: int|
                    0 <= j < k ==> !coordinate_matches(#[trigger] conditions@[j], ram)) implies
                coordinate_match_defined(#[trigger] conditions@[k], ram) by {
                if k > i {
                    assert(!coordinate_matches(conditions@[i as int], ram));
                }
            }
            return true;
        }
        i = i + 1;
    }
    true
}

/// Of the subconditions of a compound condition, those that evaluation reaches can be
/// evaluated.
pub open spec fn path_safe(
    s: Seq<ConditionsModel>,
    go_on: bool,
    log: Seq<EventModel>,
    ram: SnesRam,
    history: Seq<SnesRam>,
) -> bool {
    forall|i: int|
        0 <= i < s.len() && passes(s, i, go_on, log, ram, history) ==> condition_safe(
            #[trigger] s[i],
            log,
            ram,
            history,
        )
}

/// Whether a condition can be evaluated on the read and the log: see `condition_safe`. The
/// subconditions that are reached are evaluated to find out where evaluation stops.
#[verifier::loop_isolation(false)]
pub fn condition_evaluable(
    condition: &Conditions,
    events: &EventTracker,
    ram: &SnesRam,
    history: &mut VecDeque<SnesRam>,
) -> (r: bool)
    ensures
        final(history)@ == old(history)@,
        r == condition_safe(condition.model(), events.events(), *ram, old(history)@),
    decreases condition,
{
    match condition {
        Conditions::PreviousTile(_) => events.latest_transition().is_some(),
        Conditions::CurrentTile(_) => events.latest_transition().is_some(),
        Conditions::Coordinates { coordinates } => coordinates_evaluable(coordinates.as_slice(), ram),
        Conditions::Underworld => INDOORS_ADDRESS < ram.tile_info_chunk.len(),
        Conditions::DungeonCounterIncreased { sram_offset } => offset_is_readable(
            history,
            ram,
            *sram_offset,
        ),
        Conditions::ValueChanged { sram_offset } => offset_is_readable(history, ram, *sram_offset),
        Conditions::ValueEq { sram_offset, .. } => can_read_address(ram, *sram_offset),
        Conditions::PreviousValueEq { sram_offset, .. } => history.len() == 0 || can_read_address(
            &history[history.len() - 1],
            *sram_offset,
        ),
        Conditions::ValueGreaterThan { sram_offset, other } => can_read_address(ram, *sram_offset)
            && match other {
            Value::ValueOfAddress(address) => can_read_address(ram, *address),
            Value::CheckCount(_) => false,
            _ => true,
        },
        Conditions::PreviousEvent { .. } => true,
        Conditions::CheckMade { .. } => true,
        Conditions::BitWiseTrue { .. } => false,
        Conditions::Any { subconditions } | Conditions::Not { subconditions } | Conditions::All {
            subconditions,
        } => {
            let go_on = match condition {
                Conditions::All { .. } => true,
                _ => false,
            };
            let ghost subs = conditions_models(subconditions@);
            let ghost log = events.events();
            let ghost h0 = history@;
            assert(subs == crate::parse_ram::subconditions_of(condition.model()));
            assert(condition_safe(condition.model(), log, *ram, h0) == path_safe(
                subs,
                go_on,
                log,
                *ram,
                h0,
            ));
            let mut i: usize = 0;
            while i < subconditions.len()
                invariant
                    i <= subconditions@.len(),
                    subs == conditions_models(subconditions@),
                    subs == crate::parse_ram::subconditions_of(condition.model()),
                    history@ == h0,
                    passes(subs, i as int, go_on, log, *ram, h0),
                    forall|j: int| 0 <= j < i ==> condition_safe(#[trigger] subs[j], log, *ram, h0),
                decreases subconditions@.len() - i,
            {
                proof {
                    broadcast use vstd::std_specs::vec::axiom_vec_index_decreases;

                    lemma_subcondition_decreases(condition.model(), i as int);
                }
                assert(subs[i as int] == subconditions@[i as int].model());
                if !condition_evaluable(&subconditions[i], events, ram, history) {
                    return false;
                }
                let holds = match_condition(&subconditions[i], events, ram, history);
                if holds != go_on {
                    assert forall|k: int|
                        0 <= k < subs.len() && passes(subs, k, go_on, log, *ram, h0) implies condition_safe(
                        #[trigger] subs[k],
                        log,
                        *ram,
                        h0,
                    ) by {
                        if k > i {
                            assert(condition_holds(subs[i as int], log, *ram, h0) == go_on);
                        }
                    }
                    return true;
                }
                i = i + 1;
            }
            true
        },
    }
}

/// Whether the conditions of a list can be evaluated in order up to the first that fails:
/// see `all_safe`.
#[verifier::loop_isolation(false)]
pub fn all_evaluable(
    conditions: &Vec<Conditions>,
    events: &EventTracker,
    ram: &SnesRam,
    history: &mut VecDeque<SnesRam>,
) -> (r: bool)
    ensures
        final(history)@ == old(history)@,
        r == all_safe(conditions_models(conditions@), events.events(), *ram, old(history)@),
{
    let ghost cs = conditions_models(conditions@);
    let ghost log = events.events();
    let ghost h0 = history@;
    let mut i: usize = 0;
    while i < conditions.len()
        invariant
            i <= conditions@.len(),
            cs == conditions_models(conditions@),
            history@ == h0,
            passes(cs, i as int, true, log, *ram, h0),
            forall|j: int| 0 <= j < i ==> condition_safe(#[trigger] cs[j], log, *ram, h0),
        decreases conditions@.len() - i,
    {
        assert(cs[i as int] == conditions@[i as int].model());
        if !condition_evaluable(&conditions[i], events, ram, history) {
            return false;
        }
        if !match_condition(&conditions[i], events, ram, history) {
            assert forall|k: int|
                0 <= k < cs.len() && passes(cs, k, true, log, *ram, h0) implies condition_safe(
                #[trigger] cs[k],
                log,
                *ram,
                h0,
            ) by {
                if k > i {
                    assert(!condition_holds(cs[i as int], log, *ram, h0));
                }
            }
            return true;
        }
        i = i + 1;
    }
    true
}

/// Whether a check of the given kind can be processed against the read and the log as it
/// stands: see `check_safe`.
pub fn check_evaluable(
    kind: &CheckKind,
    check: &Check,
    events: &EventTracker,
    ram: &SnesRam,
    history: &mut VecDeque<SnesRam>,
) -> (r: bool)
    ensures
        final(history)@ == old(history)@,
        r == check_safe(*kind, check.model(), events.events(), *ram, old(history)@),
{
    let offset = read_offset(check);
    match kind {
        CheckKind::Location => match &check.conditions {
            Some(cs) => all_evaluable(cs, events, ram, history),
            None => offset_is_readable(history, ram, offset),
        },
        CheckKind::Item | CheckKind::Other => {
            if !can_read_address(ram, offset) || check.progressive_level == usize::MAX {
                return false;
            }
            match &check.conditions {
                Some(cs) => !(check.is_progressive || !check.is_checked) || all_evaluable(
                    cs,
                    events,
                    ram,
                    history,
                ),
                None => match kind {
                    CheckKind::Item => offset_is_readable(history, ram, offset),
                    _ => true,
                },
            }
        },
        _ => {
            if !can_read_address(ram, offset) || check.progressive_level == usize::MAX {
                return false;
            }
            match &check.conditions {
                Some(cs) => all_evaluable(cs, events, ram, history),
                None => true,
            }
        },
    }
}

/// Whether testing whether the read points at the tile reads only what the read holds.
fn tile_match_ok(tile: &Tile, ram: &SnesRam) -> (r: bool)
    ensures
        r == tile.match_defined(ram),
{
    let len = ram.tile_info_chunk.len();
    if INDOORS_ADDRESS >= len {
        return false;
    }
    let indoors = ram.tile_info_chunk[INDOORS_ADDRESS];
    (!(indoors == 1 && tile.indoors) || ENTRANCE_ID_ADDRESS < len) && (!(indoors == 0
        && !tile.indoors) || OVERWORLD_TILE_ADDRESS < len)
}

/// Whether a condition of a tile can be evaluated on the read.
fn tile_condition_ok(c: &Conditions, ram: &SnesRam) -> (r: bool)
    ensures
        r == tile_condition_defined(c.model(), ram),
{
    match c {
        Conditions::PreviousTile(_) => true,
        Conditions::Coordinates { coordinates } => coordinates_evaluable(coordinates.as_slice(), ram),
        Conditions::Underworld => INDOORS_ADDRESS < ram.tile_info_chunk.len(),
        _ => false,
    }
}

fn tile_condition_met(c: &Conditions, tile: &Tile, previous_id: usize, ram: &SnesRam) -> (r: bool)
    requires
        tile_condition_defined(c.model(), ram),
    ensures
        r == tile_condition_holds(c.model(), tile, previous_id, ram),
{
    match c {
        Conditions::PreviousTile(ct) => ct.id == previous_id || tile.id == previous_id,
        Conditions::Coordinates { coordinates } => crate::condition::coordinate_condition_met(
            coordinates.as_slice(),
            ram,
        ),
        Conditions::Underworld => ram.indoors() == 1,
        _ => {
            proof {
                assert(false);
            }
            false
        },
    }
}

/// For a tile with conditions: whether they can be evaluated, in order until one fails, and,
/// when they can, whether they all hold.
fn tile_resolution(tile: &Tile, previous_id: usize, ram: &SnesRam) -> (r: (bool, bool))
    requires
        tile.conditions is Some,
    ensures
        r.0 == tile_conditions_defined(tile_conditions(tile), tile, previous_id, ram),
        r.0 ==> r.1 == tile_resolved(tile, previous_id, ram),
{
    let ghost cs = tile_conditions(tile);
    match &tile.conditions {
        Some(conditions) => {
            let mut i: usize = 0;
            while i < conditions.len()
                invariant
                    i <= conditions@.len(),
                    tile.conditions == Some(*conditions),
                    cs == tile_conditions(tile),
                    cs == conditions_models(conditions@),
                    forall|l: int| 0 <= l < i ==> tile_condition_holds(#[trigger] cs[l], tile, previous_id, ram),
                    forall|k: int| 0 <= k < i ==> #[trigger] tile_condition_defined(cs[k], ram),
                decreases conditions@.len() - i,
            {
                assert(cs[i as int] == conditions@[i as int].model());
                if !tile_condition_ok(&conditions[i], ram) {
                    return (false, false);
                }
                if !tile_condition_met(&conditions[i], tile, previous_id, ram) {
                    assert forall|k: int|
                        0 <= k < cs.len() && (forall|l: int|
                            0 <= l < k ==> tile_condition_holds(#[trigger] cs[l], tile, previous_id, ram)) implies
                        #[trigger] tile_condition_defined(cs[k], ram) by {
                        if k > i {
                            assert(!tile_condition_holds(cs[i as int], tile, previous_id, ram));
                        }
                    }
                    return (true, false);
                }
                i = i + 1;
            }
            (true, true)
        },
        None => (false, false),
    }
}

/// Whether the tile that the read points at can be told: see `tiles_readable`.
pub fn tiles_evaluable(tiles: &Vec<Tile>, previous_id: usize, ram: &SnesRam) -> (r: bool)
    ensures
        r == tiles_readable(tiles@, previous_id, ram),
{
    let mut i: usize = 0;
    while i < tiles.len()
        invariant
            i <= tiles@.len(),
            forall|j: int| 0 <= j < i ==> #[trigger] tiles@[j].match_defined(ram),
        decreases tiles@.len() - i,
    {
        if !tile_match_ok(&tiles[i], ram) {
            return false;
        }
        i = i + 1;
    }
    let mut count: usize = 0;
    let mut i: usize = 0;
    while i < tiles.len()
        invariant
            i <= tiles@.len(),
            forall|j: int| 0 <= j < tiles@.len() ==> #[trigger] tiles@[j].match_defined(ram),
            count == match_count(tiles@.take(i as int), ram),
            count <= i,
        decreases tiles@.len() - i,
    {
        assert(tiles@.take(i + 1).drop_last() =~= tiles@.take(i as int));
        if tiles[i].test_ram(ram) {
            count = count + 1;
        }
        i = i + 1;
    }
    assert(tiles@.take(tiles@.len() as int) =~= tiles@);
    if count < 2 {
        return true;
    }
    let mut i: usize = 0;
    while i < tiles.len()
        invariant
            i <= tiles@.len(),
            match_count(tiles@, ram) >= 2,
            forall|j: int| 0 <= j < tiles@.len() ==> #[trigger] tiles@[j].match_defined(ram),
            forall|j: int|
                0 <= j < i ==> !(#[trigger] tiles@[j].matches_ram(ram) && tile_resolved(
                    &tiles@[j],
                    previous_id,
                    ram,
                )),
            forall|k: int|
                0 <= k < i && #[trigger] tiles@[k].matches_ram(ram) ==> {
                    &&& tiles@[k].conditions is Some
                    &&& tile_conditions_defined(tile_conditions(&tiles@[k]), &tiles@[k], previous_id, ram)
                },
        decreases tiles@.len() - i,
    {
        if tiles[i].test_ram(ram) {
            assert(tiles@[i as int].matches_ram(ram));
            if tiles[i].conditions.is_none() {
                return false;
            }
            let (defined, resolved) = tile_resolution(&tiles[i], previous_id, ram);
            if !defined {
                return false;
            }
            if resolved {
                assert forall|k: int|
                    0 <= k < tiles@.len() && #[trigger] tiles@[k].matches_ram(ram) && (forall|j: int|
                        0 <= j < k ==> !(#[trigger] tiles@[j].matches_ram(ram) && tile_resolved(
                            &tiles@[j],
                            previous_id,
                            ram,
                        ))) implies {
                    &&& tiles@[k].conditions is Some
                    &&& tile_conditions_defined(tile_conditions(&tiles@[k]), &tiles@[k], previous_id, ram)
                } by {
                    if k > i {
                        assert(tiles@[i as int].matches_ram(ram) && tile_resolved(
                            &tiles@[i as int],
                            previous_id,
                            ram,
                        ));
                    }
                }
                return true;
            }
        }
        i = i + 1;
    }
    true
}

/// Whether a segment objective can be tested against the read: see `objective_testable`.
pub fn objective_evaluable(
    objective: &EventEnum,
    tiles: &Vec<Tile>,
    events: &EventTracker,
    ram: &SnesRam,
    history: &mut VecDeque<SnesRam>,
) -> (r: bool)
    ensures
        final(history)@ == old(history)@,
        r == objective_testable(objective.model(), tiles@, events.events(), *ram, old(history)@),
{
    match objective {
        EventEnum::Transition(_) => match events.latest_transition() {
            Some(t) => {
                assert(latest_tile(events.events()) == t.model());
                tiles_evaluable(tiles, t.id, ram)
            },
            None => false,
        },
        EventEnum::LocationCheck(c) => match &c.conditions {
            Some(cs) => all_evaluable(cs, events, ram, history),
            None => offset_is_readable(history, ram, read_offset(c)),
        },
        EventEnum::ItemGet(c) | EventEnum::Other(c) | EventEnum::Action(c) => match &c.conditions {
            Some(cs) => all_evaluable(cs, events, ram, history),
            None => true,
        },
        _ => false,
    }
}

} // verus!
