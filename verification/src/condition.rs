//! Conditions that decide whether a transition, check or event has happened.
use crate::snes::{NamedAddresses, SnesRam, le_word, X_ADDRESS, Y_ADDRESS};
use crate::tile::Tile;
use std::collections::VecDeque;
use vstd::prelude::*;

verus! {

#[derive(PartialEq, Eq, Debug)]
pub struct ConditionTransition {
    pub id: usize,
    pub address_value: Option<u16>,
    pub indoors: Option<bool>,
}

impl Clone for ConditionTransition {
    fn clone(&self) -> (r: Self)
        ensures
            r == *self,
    {
        ConditionTransition { id: self.id, address_value: self.address_value, indoors: self.indoors }
    }
}

impl Copy for ConditionTransition {

}

/// The value that `ValueGreaterThan` compares an address against.
#[derive(PartialEq, Eq, Debug)]
pub enum Value {
    ValueOfAddress(usize),
    CheckCount(usize),
    ItemCount(usize),
    EventCount(usize),
}

impl Clone for Value {
    fn clone(&self) -> (r: Self)
        ensures
            r == *self,
    {
        *self
    }
}

impl Copy for Value {

}

/// Extra conditions to evaluate to deem that a specific transition, check or event has
/// happened.
///
/// As an example, some tiles use the same address and address value; which of them Link
/// enters is then told apart by the previous tile.
#[derive(PartialEq, Eq, Debug)]
pub enum Conditions {
    PreviousTile(ConditionTransition),
    CurrentTile(ConditionTransition),
    PreviousEvent { id: usize },
    Coordinates { coordinates: Vec<Coordinate> },
    Underworld,
    DungeonCounterIncreased { sram_offset: usize },
    BitWiseTrue { sram_offset: usize, sram_mask: u8 },
    ValueChanged { sram_offset: usize },
    ValueEq { sram_offset: usize, sram_value: u8 },
    ValueGreaterThan { sram_offset: usize, other: Value },
    PreviousValueEq { sram_offset: usize, sram_value: u8 },
    Any { subconditions: Vec<Conditions> },
    Not { subconditions: Vec<Conditions> },
    All { subconditions: Vec<Conditions> },
    CheckMade { id: usize },
}

/// The mathematical value of a `Conditions`: the same variants, with sequences in place of
/// vectors.
pub enum ConditionsModel {
    PreviousTile(ConditionTransition),
    CurrentTile(ConditionTransition),
    PreviousEvent { id: usize },
    Coordinates { coordinates: Seq<Coordinate> },
    Underworld,
    DungeonCounterIncreased { sram_offset: usize },
    BitWiseTrue { sram_offset: usize, sram_mask: u8 },
    ValueChanged { sram_offset: usize },
    ValueEq { sram_offset: usize, sram_value: u8 },
    ValueGreaterThan { sram_offset: usize, other: Value },
    PreviousValueEq { sram_offset: usize, sram_value: u8 },
    Any { subconditions: Seq<ConditionsModel> },
    Not { subconditions: Seq<ConditionsModel> },
    All { subconditions: Seq<ConditionsModel> },
    CheckMade { id: usize },
}

/// The models of a sequence of conditions.
pub open spec fn conditions_models(v: Seq<Conditions>) -> Seq<ConditionsModel>
    decreases v,
{
    Seq::new(v.len(), |i: int| if 0 <= i < v.len() { v[i].model() } else { ConditionsModel::Underworld })
}

impl Conditions {
    pub open spec fn model(&self) -> ConditionsModel
        decreases self,
    {
        match self {
            Conditions::PreviousTile(t) => ConditionsModel::PreviousTile(*t),
            Conditions::CurrentTile(t) => ConditionsModel::CurrentTile(*t),
            Conditions::PreviousEvent { id } => ConditionsModel::PreviousEvent { id: *id },
            Conditions::Coordinates { coordinates } => ConditionsModel::Coordinates {
                coordinates: coordinates@,
            },
            Conditions::Underworld => ConditionsModel::Underworld,
            Conditions::DungeonCounterIncreased { sram_offset } =>
                ConditionsModel::DungeonCounterIncreased { sram_offset: *sram_offset },
            Conditions::BitWiseTrue { sram_offset, sram_mask } => ConditionsModel::BitWiseTrue {
                sram_offset: *sram_offset,
                sram_mask: *sram_mask,
            },
            Conditions::ValueChanged { sram_offset } => ConditionsModel::ValueChanged {
                sram_offset: *sram_offset,
            },
            Conditions::ValueEq { sram_offset, sram_value } => ConditionsModel::ValueEq {
                sram_offset: *sram_offset,
                sram_value: *sram_value,
            },
            Conditions::ValueGreaterThan { sram_offset, other } =>
                ConditionsModel::ValueGreaterThan { sram_offset: *sram_offset, other: *other },
            Conditions::PreviousValueEq { sram_offset, sram_value } =>
                ConditionsModel::PreviousValueEq {
                    sram_offset: *sram_offset,
                    sram_value: *sram_value,
                },
            Conditions::Any { subconditions } => {
                proof {
                    broadcast use vstd::std_specs::vec::axiom_vec_decreases_to_view;
                    assert(decreases_to!(subconditions => subconditions@));
                }
                ConditionsModel::Any { subconditions: conditions_models(subconditions@) }
            },
            Conditions::Not { subconditions } => {
                proof {
                    broadcast use vstd::std_specs::vec::axiom_vec_decreases_to_view;
                    assert(decreases_to!(subconditions => subconditions@));
                }
                ConditionsModel::Not { subconditions: conditions_models(subconditions@) }
            },
            Conditions::All { subconditions } => {
                proof {
                    broadcast use vstd::std_specs::vec::axiom_vec_decreases_to_view;
                    assert(decreases_to!(subconditions => subconditions@));
                }
                ConditionsModel::All { subconditions: conditions_models(subconditions@) }
            },
            Conditions::CheckMade { id } => ConditionsModel::CheckMade { id: *id },
        }
    }

    /// A copy with the same model.
    #[verifier::loop_isolation(false)]
    pub fn deep_clone(&self) -> (r: Conditions)
        ensures
            r.model() == self.model(),
        decreases self,
    {
        match self {
            Conditions::PreviousTile(t) => Conditions::PreviousTile(*t),
            Conditions::CurrentTile(t) => Conditions::CurrentTile(*t),
            Conditions::PreviousEvent { id } => Conditions::PreviousEvent { id: *id },
            Conditions::Coordinates { coordinates } => {
                let r = Conditions::Coordinates { coordinates: copy_coordinates(coordinates) };
                r
            },
            Conditions::Underworld => Conditions::Underworld,
            Conditions::DungeonCounterIncreased { sram_offset } =>
                Conditions::DungeonCounterIncreased { sram_offset: *sram_offset },
            Conditions::BitWiseTrue { sram_offset, sram_mask } => Conditions::BitWiseTrue {
                sram_offset: *sram_offset,
                sram_mask: *sram_mask,
            },
            Conditions::ValueChanged { sram_offset } => Conditions::ValueChanged {
                sram_offset: *sram_offset,
            },
            Conditions::ValueEq { sram_offset, sram_value } => Conditions::ValueEq {
                sram_offset: *sram_offset,
                sram_value: *sram_value,
            },
            Conditions::ValueGreaterThan { sram_offset, other } => Conditions::ValueGreaterThan {
                sram_offset: *sram_offset,
                other: *other,
            },
            Conditions::PreviousValueEq { sram_offset, sram_value } =>
                Conditions::PreviousValueEq { sram_offset: *sram_offset, sram_value: *sram_value },
            Conditions::Any { subconditions } => {
                let subs = clone_conditions_vec(subconditions);
                let r = Conditions::Any { subconditions: subs };
                assert(r.model() == self.model()) by {
                    if let ConditionsModel::Any { subconditions: a } = r.model() {
                        if let ConditionsModel::Any { subconditions: b } = self.model() {
                            assert forall|j: int| 0 <= j < a.len() implies a[j] == b[j] by {
                                assert(subs[j].model() == subconditions[j].model());
                            }
                            assert(a =~= b);
                        }
                    }
                }
                r
            },
            Conditions::Not { subconditions } => {
                let subs = clone_conditions_vec(subconditions);
                let r = Conditions::Not { subconditions: subs };
                assert(r.model() == self.model()) by {
                    if let ConditionsModel::Not { subconditions: a } = r.model() {
                        if let ConditionsModel::Not { subconditions: b } = self.model() {
                            assert forall|j: int| 0 <= j < a.len() implies a[j] == b[j] by {
                                assert(subs[j].model() == subconditions[j].model());
                            }
                            assert(a =~= b);
                        }
                    }
                }
                r
            },
            Conditions::All { subconditions } => {
                let subs = clone_conditions_vec(subconditions);
                let r = Conditions::All { subconditions: subs };
                assert(r.model() == self.model()) by {
                    if let ConditionsModel::All { subconditions: a } = r.model() {
                        if let ConditionsModel::All { subconditions: b } = self.model() {
                            assert forall|j: int| 0 <= j < a.len() implies a[j] == b[j] by {
                                assert(subs[j].model() == subconditions[j].model());
                            }
                            assert(a =~= b);
                        }
                    }
                }
                r
            },
            Conditions::CheckMade { id } => Conditions::CheckMade { id: *id },
        }
    }
}


#[allow(inconsistent_fields)]
#[derive(PartialEq, Eq, Debug)]
pub enum Coordinate {
    Pair { x: u16, y: u16 },
    Range { x: (u16, u16), y: (u16, u16) },
    Chest { x: u16, y: u16 },
    BigChest { x: u16, y: u16 },
    Stairs { x: u16, y: u16 },
}

impl Clone for Coordinate {
    fn clone(&self) -> (r: Self)
        ensures
            r == *self,
    {
        *self
    }
}

impl Copy for Coordinate {

}

/// Whether the point `(x, y)` matches `other`: a `Pair` must be equal, a `Range` must bound
/// it; a chest is a bounding box 10 wide on each side and from 1 above to 3 below, a big chest
/// 24 wide on each side, and stairs allow 3 on either side on the y-axis only.
pub open spec fn point_matches(x: u16, y: u16, other: Coordinate) -> bool {
    match other {
        Coordinate::Pair { x: ox, y: oy } => x == ox && y == oy,
        Coordinate::Range { x: xr, y: yr } => xr.0 <= x <= xr.1 && yr.0 <= y <= yr.1,
        Coordinate::Chest { x: cx, y: cy } => cx - 10 <= x <= cx + 10 && cy - 1 <= y <= cy + 3,
        Coordinate::Stairs { x: sx, y: sy } => x == sx && sy - 3 <= y <= sy + 3,
        Coordinate::BigChest { x: cx, y: cy } => cx - 24 <= x <= cx + 24 && cy - 1 <= y <= cy + 3,
    }
}

/// The bounds computed while matching `(x, y)` against a chest of the given half-width stay
/// within `u16`, as far as the comparisons, which stop at the first that fails, get.
pub open spec fn box_bounds_defined(x: u16, y: u16, cx: u16, cy: u16, w: int) -> bool {
    &&& w <= cx
    &&& x >= cx - w ==> {
        &&& cx + w <= u16::MAX
        &&& x <= cx + w ==> {
            &&& 1 <= cy
            &&& y >= cy - 1 ==> cy + 3 <= u16::MAX
        }
    }
}

/// Matching the point `(x, y)` against `other` computes no bound outside `u16`.
pub open spec fn point_match_defined(x: u16, y: u16, other: Coordinate) -> bool {
    match other {
        Coordinate::Chest { x: cx, y: cy } => box_bounds_defined(x, y, cx, cy, 10),
        Coordinate::BigChest { x: cx, y: cy } => box_bounds_defined(x, y, cx, cy, 24),
        Coordinate::Stairs { x: sx, y: sy } => x == sx ==> {
            &&& 3 <= sy
            &&& y >= sy - 3 ==> sy + 3 <= u16::MAX
        },
        _ => true,
    }
}

impl Coordinate {
    /// Matches `self` against another `Coordinate`; `self` is a point (a `Pair`).
    ///
    /// Matching a `Pair` against a `Pair` is an equality check; against a `Range`, the point
    /// must lie within both ranges (inclusive).
    pub fn matches(&self, other: &Self) -> (m: bool)
        requires
            self is Pair,
            point_match_defined(self->Pair_x, self->Pair_y, *other),
        ensures
            m == point_matches(self->Pair_x, self->Pair_y, *other),
    {
        match self {
            Coordinate::Pair { x, y } => {
                let x = *x;
                let y = *y;
                match other {
                    Coordinate::Pair { x: other_x, y: other_y } => x == *other_x && y == *other_y,
                    Coordinate::Range { x: x_range, y: y_range } => x >= x_range.0 && x
                        <= x_range.1 && y >= y_range.0 && y <= y_range.1,
                    Coordinate::Chest { x: x_chest, y: y_chest } => {
                        x >= *x_chest - 10 && x <= *x_chest + 10 && y >= *y_chest - 1 && y
                            <= *y_chest + 3
                    },
                    Coordinate::Stairs { x: x_stairs, y: y_stairs } => x == *x_stairs && y
                        >= *y_stairs - 3 && y <= *y_stairs + 3,
                    Coordinate::BigChest { x: x_chest, y: y_chest } => {
                        x >= *x_chest - 24 && x <= *x_chest + 24 && y >= *y_chest - 1 && y
                            <= *y_chest + 3
                    },
                }
            },
            _ => {
                proof {
                    assert(false);
                }
                false
            },
        }
    }

    /// Link's position from the continuously updated coordinates.
    pub fn from_continuous_coords(ram: &SnesRam) -> (c: Self)
        requires
            X_ADDRESS + 2 <= ram.tile_info_chunk@.len(),
        ensures
            c == continuous_point(ram),
    {
        Coordinate::Pair { x: ram.x(), y: ram.y() }
    }

    /// Link's position from the coordinates that are set on a transition.
    pub fn from_transition_coords(ram: &SnesRam) -> (c: Self)
        requires
            4 <= ram.coordinate_chunk@.len(),
        ensures
            c == transition_point(ram),
    {
        Coordinate::Pair { x: ram.transition_x(), y: ram.transition_y() }
    }
}

pub open spec fn continuous_point(ram: &SnesRam) -> Coordinate {
    Coordinate::Pair {
        x: le_word(ram.tile_info_chunk@, X_ADDRESS as int),
        y: le_word(ram.tile_info_chunk@, Y_ADDRESS as int),
    }
}

pub open spec fn transition_point(ram: &SnesRam) -> Coordinate {
    Coordinate::Pair { x: le_word(ram.coordinate_chunk@, 2), y: le_word(ram.coordinate_chunk@, 0) }
}

/// The point that `target` is matched against: the continuous coordinates for a chest, the
/// transition coordinates otherwise.
pub open spec fn point_for(target: Coordinate, ram: &SnesRam) -> Coordinate {
    if target is Chest {
        continuous_point(ram)
    } else {
        transition_point(ram)
    }
}

/// The RAM holds the coordinates that `target` is matched with.
pub open spec fn point_readable(target: Coordinate, ram: &SnesRam) -> bool {
    if target is Chest {
        X_ADDRESS + 2 <= ram.tile_info_chunk@.len()
    } else {
        4 <= ram.coordinate_chunk@.len()
    }
}

pub open spec fn coordinate_matches(target: Coordinate, ram: &SnesRam) -> bool {
    let p = point_for(target, ram);
    point_matches(p->Pair_x, p->Pair_y, target)
}

/// Matching `target` reads only what the RAM holds and computes no bound outside `u16`.
pub open spec fn coordinate_match_defined(target: Coordinate, ram: &SnesRam) -> bool {
    &&& point_readable(target, ram)
    &&& point_match_defined(point_for(target, ram)->Pair_x, point_for(target, ram)->Pair_y, target)
}

/// Some coordinate of the list matches the current position.
pub open spec fn coordinates_met(conditions: Seq<Coordinate>, ram: &SnesRam) -> bool {
    exists|i: int| 0 <= i < conditions.len() && coordinate_matches(#[trigger] conditions[i], ram)
}

/// Every coordinate that is tried before one matches can be matched.
pub open spec fn coordinates_defined(conditions: Seq<Coordinate>, ram: &SnesRam) -> bool {
    forall|i: int|
        0 <= i < conditions.len() ==> (forall|j: int|
            0 <= j < i ==> !coordinate_matches(#[trigger] conditions[j], ram))
            ==> coordinate_match_defined(#[trigger] conditions[i], ram)
}

/// True when any of the coordinates matches: chests against the continuous coordinates, all
/// others against the transition coordinates.
pub fn coordinate_condition_met(conditions: &[Coordinate], current: &SnesRam) -> (met: bool)
    requires
        coordinates_defined(conditions@, current),
    ensures
        met == coordinates_met(conditions@, current),
{
    let mut i: usize = 0;
    while i < conditions.len()
        invariant
            i <= conditions@.len(),
            coordinates_defined(conditions@, current),
            forall|j: int| 0 <= j < i ==> !coordinate_matches(#[trigger] conditions@[j], current),
        decreases conditions@.len() - i,
    {
        let c = conditions[i];
        assert(coordinate_match_defined(conditions@[i as int], current));
        let m = match c {
            Coordinate::Chest { x: _, y: _ } => Coordinate::from_continuous_coords(current).matches(
                &c,
            ),
            _ => Coordinate::from_transition_coords(current).matches(&c),
        };
        if m {
            assert(coordinate_matches(conditions@[i as int], current));
            return true;
        }
        i = i + 1;
    }
    false
}

/// A previous-tile condition holds when its id is the previous tile's, or when the tile itself
/// is the previous one.
pub fn previous_tile_condition_met(
    condition: &ConditionTransition,
    previous_tile: &Tile,
    tile: &Tile,
) -> (met: bool)
    ensures
        met == (condition.id == previous_tile.id || tile.id == previous_tile.id),
{
    condition.id == previous_tile.id || tile.id == previous_tile.id
}

pub fn current_tile_condition_met(condition: &ConditionTransition, tile: &Tile) -> (met: bool)
    ensures
        met == (condition.id == tile.id),
{
    condition.id == tile.id
}

/// The value at `sram_offset` in the latest entry of the history.
pub open spec fn last_byte(history: Seq<SnesRam>, sram_offset: int) -> u8 {
    history.last().byte_at(sram_offset)
}

/// `ram` and, when there is one, the latest entry of the history hold `sram_offset`.
pub open spec fn offset_readable(history: Seq<SnesRam>, ram: &SnesRam, sram_offset: int) -> bool {
    &&& ram.can_read(sram_offset)
    &&& history.len() > 0 ==> history.last().can_read(sram_offset)
}

/// The counter at `sram_offset` went up since the latest read in the history; false with no
/// history.
pub fn dungeon_counter_condition_met(
    ram_history: &VecDeque<SnesRam>,
    ram: &SnesRam,
    sram_offset: &usize,
) -> (met: bool)
    requires
        offset_readable(ram_history@, ram, *sram_offset as int),
    ensures
        met == (ram_history@.len() > 0 && ram.byte_at(*sram_offset as int) > last_byte(
            ram_history@,
            *sram_offset as int,
        )),
{
    if ram_history.len() > 0 {
        ram.get_byte(*sram_offset) > ram_history[ram_history.len() - 1].get_byte(*sram_offset)
    } else {
        false
    }
}

/// The value at `sram_offset` differs from the latest read in the history; false with no
/// history.
pub fn ram_value_change_condition_met(
    previous_values: &mut VecDeque<SnesRam>,
    ram: &SnesRam,
    sram_offset: &usize,
) -> (met: bool)
    requires
        offset_readable(old(previous_values)@, ram, *sram_offset as int),
    ensures
        final(previous_values)@ == old(previous_values)@,
        met == (old(previous_values)@.len() > 0 && ram.byte_at(*sram_offset as int)
            != last_byte(old(previous_values)@, *sram_offset as int)),
{
    if previous_values.len() > 0 {
        ram.get_byte(*sram_offset) != previous_values[previous_values.len() - 1].get_byte(
            *sram_offset,
        )
    } else {
        false
    }
}

/// A copy of the coordinates.
pub fn copy_coordinates(v: &Vec<Coordinate>) -> (r: Vec<Coordinate>)
    ensures
        r@ == v@,
{
    let mut r: Vec<Coordinate> = Vec::new();
    let mut i: usize = 0;
    while i < v.len()
        invariant
            i <= v@.len(),
            r@ == v@.subrange(0, i as int),
        decreases v@.len() - i,
    {
        r.push(v[i]);
        i = i + 1;
        assert(r@ =~= v@.subrange(0, i as int));
    }
    assert(r@ =~= v@);
    r
}

/// Element-wise copies of the conditions, with the same models.
#[verifier::loop_isolation(false)]
pub fn clone_conditions_vec(v: &Vec<Conditions>) -> (r: Vec<Conditions>)
    ensures
        r@.len() == v@.len(),
        forall|j: int| 0 <= j < v@.len() ==> #[trigger] r@[j].model() == v@[j].model(),
        conditions_models(r@) == conditions_models(v@),
    decreases v,
{
    let mut out: Vec<Conditions> = Vec::new();
    let mut i: usize = 0;
    while i < v.len()
        invariant
            i <= v.len(),
            out.len() == i,
            forall|j: int| 0 <= j < i ==> #[trigger] out[j].model() == v[j].model(),
        decreases v.len() - i,
    {
        proof {
            broadcast use vstd::std_specs::vec::axiom_vec_index_decreases;
        }
        let c = v[i].deep_clone();
        out.push(c);
        i = i + 1;
    }
    assert forall|j: int| 0 <= j < v@.len() implies conditions_models(out@)[j] == conditions_models(
        v@,
    )[j] by {
        assert(out@[j].model() == v@[j].model());
    }
    assert(conditions_models(out@) =~= conditions_models(v@));
    out
}

} // verus!
