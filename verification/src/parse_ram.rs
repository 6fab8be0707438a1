//! Evaluating conditions against RAM reads and the event log, and finding out which
//! checks, items, events, actions and commands a new RAM read shows.
use crate::check::{Check, CheckModel};
use crate::condition::{
    Conditions, ConditionsModel, Value, coordinate_condition_met, coordinates_defined,
    coordinates_met, last_byte, offset_readable, dungeon_counter_condition_met,
    ram_value_change_condition_met, current_tile_condition_met,
};
use crate::event::{
    EventEnum, EventLog, EventModel, EventTracker, check_of, checks_where, first_where,
    has_transition, is_item_get_with, is_location_check_with, is_other_with, last_where,
    other_events, transitions,
};
use crate::snes::{INDOORS_ADDRESS, NamedAddresses, SnesRam};
use crate::tile::{Tile, TileModel, match_count, tile_for_ram, tiles_resolvable};
use std::collections::VecDeque;
use vstd::prelude::*;

verus! {

/// The tile of the latest transition in the log.
pub open spec fn latest_tile_id(log: Seq<EventModel>) -> usize {
    match last_where(log, transitions()) {
        Some(k) => match log[k] {
            EventModel::Transition(t) => t.id,
            _ => 0,
        },
        None => 0,
    }
}

/// The latest other event in the log has the given id.
pub open spec fn previous_event_is(log: Seq<EventModel>, id: usize) -> bool {
    match last_where(log, other_events()) {
        Some(k) => check_of(log[k]).id == id,
        None => false,
    }
}

/// What a condition states about the current RAM read, the history of earlier reads (latest
/// last) and the event log.
pub open spec fn condition_holds(
    c: ConditionsModel,
    log: Seq<EventModel>,
    ram: SnesRam,
    history: Seq<SnesRam>,
) -> bool
    decreases c,
{
    match c {
        ConditionsModel::PreviousTile(ct) => ct.id == latest_tile_id(log),
        ConditionsModel::CurrentTile(ct) => ct.id == latest_tile_id(log),
        ConditionsModel::Coordinates { coordinates } => coordinates_met(coordinates, &ram),
        ConditionsModel::Underworld => ram.tile_info_chunk@[INDOORS_ADDRESS as int] == 1,
        ConditionsModel::DungeonCounterIncreased { sram_offset } => history.len() > 0
            && ram.byte_at(sram_offset as int) > last_byte(history, sram_offset as int),
        ConditionsModel::ValueChanged { sram_offset } => history.len() > 0 && ram.byte_at(
            sram_offset as int,
        ) != last_byte(history, sram_offset as int),
        ConditionsModel::ValueEq { sram_offset, sram_value } => ram.byte_at(sram_offset as int)
            == sram_value,
        ConditionsModel::PreviousValueEq { sram_offset, sram_value } => history.len() > 0
            && last_byte(history, sram_offset as int) == sram_value,
        ConditionsModel::ValueGreaterThan { sram_offset, other } => match other {
            Value::ValueOfAddress(address) => ram.byte_at(sram_offset as int) > ram.byte_at(
                address as int,
            ),
            Value::ItemCount(id) => ram.byte_at(sram_offset as int) > (checks_where(
                log,
                is_item_get_with(id),
            ).len() as u8),
            Value::EventCount(id) => ram.byte_at(sram_offset as int) > (checks_where(
                log,
                is_other_with(id),
            ).len() as u8),
            Value::CheckCount(_) => false,
        },
        ConditionsModel::PreviousEvent { id } => previous_event_is(log, id),
        ConditionsModel::CheckMade { id } => first_where(log, is_location_check_with(id)) is Some,
        ConditionsModel::Any { subconditions } => exists|i: int|
            0 <= i < subconditions.len() && condition_holds(
                #[trigger] subconditions[i],
                log,
                ram,
                history,
            ),
        ConditionsModel::Not { subconditions } => forall|i: int|
            0 <= i < subconditions.len() ==> !condition_holds(
                #[trigger] subconditions[i],
                log,
                ram,
                history,
            ),
        ConditionsModel::All { subconditions } => forall|i: int|
            0 <= i < subconditions.len() ==> condition_holds(
                #[trigger] subconditions[i],
                log,
                ram,
                history,
            ),
        ConditionsModel::BitWiseTrue { .. } => false,
    }
}

/// Evaluation of a list of subconditions goes on past the first `i` of them: each of those
/// gave `go_on` (false for `Any` and `Not`, which stop at the first that holds; true for `All`
/// and condition lists, which stop at the first that fails).
pub open spec fn passes(
    s: Seq<ConditionsModel>,
    i: int,
    go_on: bool,
    log: Seq<EventModel>,
    ram: SnesRam,
    history: Seq<SnesRam>,
) -> bool {
    forall|j: int| 0 <= j < i ==> condition_holds(#[trigger] s[j], log, ram, history) == go_on
}

/// A condition can be evaluated: every address it reads is held by the RAM read (and by the
/// latest earlier read, where it reads that), a tile condition meets a log with a transition,
/// and it is of no kind that is left unimplemented (`BitWiseTrue`, or `ValueGreaterThan` a
/// check count). Of the subconditions of `Any`, `Not` and `All`, only those that evaluation
/// reaches count: evaluation stops at the first subcondition that decides.
pub open spec fn condition_safe(
    c: ConditionsModel,
    log: Seq<EventModel>,
    ram: SnesRam,
    history: Seq<SnesRam>,
) -> bool
    decreases c,
{
    match c {
        ConditionsModel::PreviousTile(_) => has_transition(log),
        ConditionsModel::CurrentTile(_) => has_transition(log),
        ConditionsModel::Coordinates { coordinates } => coordinates_defined(coordinates, &ram),
        ConditionsModel::Underworld => INDOORS_ADDRESS < ram.tile_info_chunk@.len(),
        ConditionsModel::DungeonCounterIncreased { sram_offset } => offset_readable(
            history,
            &ram,
            sram_offset as int,
        ),
        ConditionsModel::ValueChanged { sram_offset } => offset_readable(
            history,
            &ram,
            sram_offset as int,
        ),
        ConditionsModel::ValueEq { sram_offset, .. } => ram.can_read(sram_offset as int),
        ConditionsModel::PreviousValueEq { sram_offset, .. } => history.len() > 0
            ==> history.last().can_read(sram_offset as int),
        ConditionsModel::ValueGreaterThan { sram_offset, other } => ram.can_read(sram_offset as int)
            && match other {
            Value::ValueOfAddress(address) => ram.can_read(address as int),
            Value::CheckCount(_) => false,
            _ => true,
        },
        ConditionsModel::PreviousEvent { .. } => true,
        ConditionsModel::CheckMade { .. } => true,
        ConditionsModel::Any { subconditions } => forall|i: int|
            0 <= i < subconditions.len() && passes(subconditions, i, false, log, ram, history)
                ==> condition_safe(#[trigger] subconditions[i], log, ram, history),
        ConditionsModel::Not { subconditions } => forall|i: int|
            0 <= i < subconditions.len() && passes(subconditions, i, false, log, ram, history)
                ==> condition_safe(#[trigger] subconditions[i], log, ram, history),
        ConditionsModel::All { subconditions } => forall|i: int|
            0 <= i < subconditions.len() && passes(subconditions, i, true, log, ram, history)
                ==> condition_safe(#[trigger] subconditions[i], log, ram, history),
        ConditionsModel::BitWiseTrue { .. } => false,
    }
}

/// The subconditions of a compound condition.
pub open spec fn subconditions_of(c: ConditionsModel) -> Seq<ConditionsModel> {
    match c {
        ConditionsModel::Any { subconditions } => subconditions,
        ConditionsModel::Not { subconditions } => subconditions,
        ConditionsModel::All { subconditions } => subconditions,
        _ => Seq::empty(),
    }
}

/// A subcondition is smaller than the condition that holds it, so the definitions above unfold
/// on it.
pub(crate) proof fn lemma_subcondition_decreases(c: ConditionsModel, i: int)
    requires
        0 <= i < subconditions_of(c).len(),
    ensures
        decreases_to!(c => subconditions_of(c)[i]),
{
    broadcast use vstd::seq::axiom_seq_index_decreases;

    match c {
        ConditionsModel::Any { subconditions } => {
            assert(decreases_to!(c => c->Any_subconditions));
            assert(decreases_to!(c->Any_subconditions => c->Any_subconditions[i]));
        },
        ConditionsModel::Not { subconditions } => {
            assert(decreases_to!(c => c->Not_subconditions));
            assert(decreases_to!(c->Not_subconditions => c->Not_subconditions[i]));
        },
        ConditionsModel::All { subconditions } => {
            assert(decreases_to!(c => c->All_subconditions));
            assert(decreases_to!(c->All_subconditions => c->All_subconditions[i]));
        },
        _ => {},
    }
}

/// Evaluates a condition against the current read, the earlier reads and the event log.
#[verifier::loop_isolation(false)]
pub fn match_condition(
    condition: &Conditions,
    events: &EventTracker,
    ram: &SnesRam,
    previous_values: &mut VecDeque<SnesRam>,
) -> (met: bool)
    requires
        condition_safe(condition.model(), events.events(), *ram, old(previous_values)@),
    ensures
        final(previous_values)@ == old(previous_values)@,
        met == condition_holds(condition.model(), events.events(), *ram, old(previous_values)@),
    decreases condition,
{
    match condition {
        Conditions::PreviousTile(condition) => {
            let previous_tile = events.latest_transition().unwrap();
            current_tile_condition_met(condition, &previous_tile)
        },
        Conditions::Coordinates { coordinates } => coordinate_condition_met(
            coordinates.as_slice(),
            ram,
        ),
        Conditions::Underworld => ram.indoors() == 1,
        Conditions::DungeonCounterIncreased { sram_offset } => dungeon_counter_condition_met(
            previous_values,
            ram,
            sram_offset,
        ),
        Conditions::ValueChanged { sram_offset } => ram_value_change_condition_met(
            previous_values,
            ram,
            sram_offset,
        ),
        Conditions::ValueEq { sram_offset, sram_value } => ram.get_byte(*sram_offset)
            == *sram_value,
        Conditions::CurrentTile(condition) => {
            let current_tile = events.latest_transition().unwrap();
            current_tile_condition_met(condition, &current_tile)
        },
        Conditions::Any { subconditions } => {
            let ghost subs = crate::condition::conditions_models(subconditions@);
            let mut i: usize = 0;
            while i < subconditions.len()
                invariant
                    i <= subconditions@.len(),
                    subs == crate::condition::conditions_models(subconditions@),
                    previous_values@ == old(previous_values)@,
                    condition.model() == (ConditionsModel::Any { subconditions: subs }),
                    condition_safe(condition.model(), events.events(), *ram, previous_values@),
                    forall|j: int|
                        0 <= j < i ==> !condition_holds(
                            #[trigger] subs[j],
                            events.events(),
                            *ram,
                            previous_values@,
                        ),
                decreases subconditions@.len() - i,
            {
                proof {
                    broadcast use vstd::std_specs::vec::axiom_vec_index_decreases;
                }
                assert(subs[i as int] == subconditions@[i as int].model());
                proof {
                    lemma_subcondition_decreases(condition.model(), i as int);
                }
                if match_condition(&subconditions[i], events, ram, previous_values) {
                    return true;
                }
                i = i + 1;
            }
            false
        },
        Conditions::PreviousEvent { id } => match events.latest_other_event() {
            Some(e) => e.id == *id,
            None => false,
        },
        Conditions::BitWiseTrue { .. } => {
            proof {
                assert(false);
            }
            false
        },
        Conditions::Not { subconditions } => {
            let ghost subs = crate::condition::conditions_models(subconditions@);
            let mut i: usize = 0;
            while i < subconditions.len()
                invariant
                    i <= subconditions@.len(),
                    subs == crate::condition::conditions_models(subconditions@),
                    previous_values@ == old(previous_values)@,
                    condition.model() == (ConditionsModel::Not { subconditions: subs }),
                    condition_safe(condition.model(), events.events(), *ram, previous_values@),
                    forall|j: int|
                        0 <= j < i ==> !condition_holds(
                            #[trigger] subs[j],
                            events.events(),
                            *ram,
                            previous_values@,
                        ),
                decreases subconditions@.len() - i,
            {
                proof {
                    broadcast use vstd::std_specs::vec::axiom_vec_index_decreases;
                }
                assert(subs[i as int] == subconditions@[i as int].model());
                proof {
                    lemma_subcondition_decreases(condition.model(), i as int);
                }
                if match_condition(&subconditions[i], events, ram, previous_values) {
                    return false;
                }
                i = i + 1;
            }
            true
        },
        Conditions::CheckMade { id } => events.find_location_check(*id).is_some(),
        Conditions::PreviousValueEq { sram_offset, sram_value } => {
            if previous_values.len() > 0 {
                let previous_ram = &previous_values[previous_values.len() - 1];
                previous_ram.get_byte(*sram_offset) == *sram_value
            } else {
                false
            }
        },
        Conditions::ValueGreaterThan { sram_offset, other } => match other {
            Value::ValueOfAddress(other_address) => ram.get_byte(*sram_offset) > ram.get_byte(
                *other_address,
            ),
            Value::CheckCount(_) => {
                proof {
                    assert(false);
                }
                false
            },
            Value::ItemCount(id) => {
                let items = events.items_with_id(*id);
                assert(crate::event::check_models(items@).len() == items@.len());
                ram.get_byte(*sram_offset) > #[verifier::truncate] (items.len() as u8)
            },
            Value::EventCount(id) => {
                let others = events.others_with_id(*id);
                assert(crate::event::check_models(others@).len() == others@.len());
                ram.get_byte(*sram_offset) > #[verifier::truncate] (others.len() as u8)
            },
        },
        Conditions::All { subconditions } => {
            let ghost subs = crate::condition::conditions_models(subconditions@);
            let mut i: usize = 0;
            while i < subconditions.len()
                invariant
                    i <= subconditions@.len(),
                    subs == crate::condition::conditions_models(subconditions@),
                    previous_values@ == old(previous_values)@,
                    condition.model() == (ConditionsModel::All { subconditions: subs }),
                    condition_safe(condition.model(), events.events(), *ram, previous_values@),
                    forall|j: int|
                        0 <= j < i ==> condition_holds(
                            #[trigger] subs[j],
                            events.events(),
                            *ram,
                            previous_values@,
                        ),
                decreases subconditions@.len() - i,
            {
                proof {
                    broadcast use vstd::std_specs::vec::axiom_vec_index_decreases;
                }
                assert(subs[i as int] == subconditions@[i as int].model());
                proof {
                    lemma_subcondition_decreases(condition.model(), i as int);
                }
                if !match_condition(&subconditions[i], events, ram, previous_values) {
                    return false;
                }
                i = i + 1;
            }
            true
        },
    }
}


// ---------------------------------------------------------------------------------------------
// What conditions and checks mean, stated over the bytes read
// ---------------------------------------------------------------------------------------------

/// What the conditions on single bytes state: a counter that went up, or a byte that changed,
/// since the latest earlier read (both false without one); a byte of the read, or of the
/// latest earlier read, equal to a value; one byte of the read greater than another; the read
/// showing the player indoors (byte 0x1b is 1).
pub proof fn law_byte_conditions(
    offset: usize,
    other: usize,
    value: u8,
    log: Seq<EventModel>,
    ram: SnesRam,
    history: Seq<SnesRam>,
)
    ensures
        condition_holds(ConditionsModel::DungeonCounterIncreased { sram_offset: offset }, log, ram, history)
            == (history.len() > 0 && ram.byte_at(offset as int) > history.last().byte_at(offset as int)),
        condition_holds(ConditionsModel::ValueChanged { sram_offset: offset }, log, ram, history)
            == (history.len() > 0 && ram.byte_at(offset as int) != history.last().byte_at(offset as int)),
        condition_holds(ConditionsModel::ValueEq { sram_offset: offset, sram_value: value }, log, ram, history)
            == (ram.byte_at(offset as int) == value),
        condition_holds(
            ConditionsModel::PreviousValueEq { sram_offset: offset, sram_value: value },
            log,
            ram,
            history,
        ) == (history.len() > 0 && history.last().byte_at(offset as int) == value),
        condition_holds(
            ConditionsModel::ValueGreaterThan { sram_offset: offset, other: Value::ValueOfAddress(other) },
            log,
            ram,
            history,
        ) == (ram.byte_at(offset as int) > ram.byte_at(other as int)),
        condition_holds(ConditionsModel::Underworld, log, ram, history) == (ram.tile_info_chunk@[0x1b] == 1),
{
}

/// The conditions on the log: the previous (or current) tile is the tile of the last transition
/// in the log, and the previous event is the last other event in the log; `k` is that last
/// position.
pub proof fn law_log_conditions(
    id: usize,
    tile: crate::condition::ConditionTransition,
    log: Seq<EventModel>,
    ram: SnesRam,
    history: Seq<SnesRam>,
    k: int,
)
    ensures
        0 <= k < log.len() && log[k] is Other && (forall|j: int| k < j < log.len() ==> !(#[trigger] log[j] is Other))
            ==> (condition_holds(ConditionsModel::PreviousEvent { id }, log, ram, history) <==> check_of(log[k]).id == id),
        (forall|j: int| 0 <= j < log.len() ==> !(#[trigger] log[j] is Other)) ==> !condition_holds(
            ConditionsModel::PreviousEvent { id },
            log,
            ram,
            history,
        ),
        0 <= k < log.len() && (log[k] matches EventModel::Transition(t) && t.id == tile.id)
            && (forall|j: int| k < j < log.len() ==> !(#[trigger] log[j] is Transition)) ==> condition_holds(
            ConditionsModel::PreviousTile(tile),
            log,
            ram,
            history,
        ) && condition_holds(ConditionsModel::CurrentTile(tile), log, ram, history),
{
    if 0 <= k < log.len() && log[k] is Other && (forall|j: int| k < j < log.len() ==> !(#[trigger] log[j] is Other)) {
        crate::event::lemma_last_where_found(log, other_events(), k);
    }
    if forall|j: int| 0 <= j < log.len() ==> !(#[trigger] log[j] is Other) {
        crate::event::lemma_last_where_none(log, other_events());
    }
    if 0 <= k < log.len() && log[k] is Transition && (forall|j: int| k < j < log.len() ==> !(#[trigger] log[j] is Transition)) {
        crate::event::lemma_last_where_found(log, transitions(), k);
    }
}

/// Some position of the log holding an event that `p` accepts, the first such is found.
proof fn lemma_first_exists(log: Seq<EventModel>, p: spec_fn(EventModel) -> bool, k: int)
    requires
        0 <= k < log.len(),
        p(log[k]),
    ensures
        first_where(log, p) is Some,
    decreases k,
{
    if exists|j: int| 0 <= j < k && p(#[trigger] log[j]) {
        let j = choose|j: int| 0 <= j < k && p(#[trigger] log[j]);
        lemma_first_exists(log, p, j);
    } else {
        assert(crate::event::is_first_where(log, p, k));
    }
}

/// A check is made, for a condition, exactly when the log holds a location check with its id.
pub proof fn law_check_made(id: usize, log: Seq<EventModel>, ram: SnesRam, history: Seq<SnesRam>)
    ensures
        condition_holds(ConditionsModel::CheckMade { id }, log, ram, history) <==> exists|k: int|
            0 <= k < log.len() && #[trigger] log[k] is LocationCheck && check_of(log[k]).id == id,
{
    if exists|k: int| 0 <= k < log.len() && #[trigger] log[k] is LocationCheck && check_of(log[k]).id == id {
        let k = choose|k: int| 0 <= k < log.len() && #[trigger] log[k] is LocationCheck && check_of(log[k]).id == id;
        lemma_first_exists(log, is_location_check_with(id), k);
    }
    if condition_holds(ConditionsModel::CheckMade { id }, log, ram, history) {
        let f = choose|f: int| crate::event::is_first_where(log, is_location_check_with(id), f);
        assert(crate::event::is_first_where(log, is_location_check_with(id), f));
        assert(log[f] is LocationCheck && check_of(log[f]).id == id);
    }
}

/// Compound conditions: `Any` holds when one of its subconditions does, `All` when each does,
/// `Not` when none does (so an empty `All` or `Not` holds and an empty `Any` does not).
pub proof fn law_compound_conditions(
    subs: Seq<ConditionsModel>,
    log: Seq<EventModel>,
    ram: SnesRam,
    history: Seq<SnesRam>,
)
    ensures
        condition_holds(ConditionsModel::Any { subconditions: subs }, log, ram, history) <==> exists|i: int|
            0 <= i < subs.len() && condition_holds(#[trigger] subs[i], log, ram, history),
        condition_holds(ConditionsModel::All { subconditions: subs }, log, ram, history) <==> forall|i: int|
            0 <= i < subs.len() ==> condition_holds(#[trigger] subs[i], log, ram, history),
        condition_holds(ConditionsModel::Not { subconditions: subs }, log, ram, history) <==> forall|i: int|
            0 <= i < subs.len() ==> !condition_holds(#[trigger] subs[i], log, ram, history),
        subs.len() == 0 ==> condition_holds(ConditionsModel::All { subconditions: subs }, log, ram, history)
            && condition_holds(ConditionsModel::Not { subconditions: subs }, log, ram, history)
            && !condition_holds(ConditionsModel::Any { subconditions: subs }, log, ram, history),
{
    let c_any = ConditionsModel::Any { subconditions: subs };
    let c_all = ConditionsModel::All { subconditions: subs };
    let c_not = ConditionsModel::Not { subconditions: subs };
    assert(c_any->Any_subconditions == subs);
    assert(c_all->All_subconditions == subs);
    assert(c_not->Not_subconditions == subs);
    if condition_holds(c_all, log, ram, history) {
        assert forall|i: int| 0 <= i < subs.len() implies condition_holds(#[trigger] subs[i], log, ram, history) by {
            assert(c_all->All_subconditions[i] == subs[i]);
        }
    }
    if forall|i: int| 0 <= i < subs.len() ==> condition_holds(#[trigger] subs[i], log, ram, history) {
        assert forall|i: int| 0 <= i < c_all->All_subconditions.len() implies condition_holds(
            #[trigger] c_all->All_subconditions[i],
            log,
            ram,
            history,
        ) by {
            assert(c_all->All_subconditions[i] == subs[i]);
        }
    }
    if condition_holds(c_not, log, ram, history) {
        assert forall|i: int| 0 <= i < subs.len() implies !condition_holds(#[trigger] subs[i], log, ram, history) by {
            assert(c_not->Not_subconditions[i] == subs[i]);
        }
    }
    if forall|i: int| 0 <= i < subs.len() ==> !condition_holds(#[trigger] subs[i], log, ram, history) {
        assert forall|i: int| 0 <= i < c_not->Not_subconditions.len() implies !condition_holds(
            #[trigger] c_not->Not_subconditions[i],
            log,
            ram,
            history,
        ) by {
            assert(c_not->Not_subconditions[i] == subs[i]);
        }
    }
    if exists|i: int| 0 <= i < subs.len() && condition_holds(#[trigger] subs[i], log, ram, history) {
        let i = choose|i: int| 0 <= i < subs.len() && condition_holds(#[trigger] subs[i], log, ram, history);
        assert(c_any->Any_subconditions[i] == subs[i]);
    }
    if condition_holds(c_any, log, ram, history) {
        let i = choose|i: int| 0 <= i < c_any->Any_subconditions.len() && condition_holds(
            #[trigger] c_any->Any_subconditions[i],
            log,
            ram,
            history,
        );
        assert(c_any->Any_subconditions[i] == subs[i]);
    }
}

/// The byte that a check reads, in the read: at its offset, zero when it has none.
pub open spec fn byte_of_check(c: CheckModel, ram: SnesRam) -> u8 {
    ram.byte_at(
        match c.sram_offset {
            Some(o) => o as int,
            None => 0,
        },
    )
}

/// The mask of a check as the data gives it, zero when it has none.
pub open spec fn mask_given(c: CheckModel) -> u8 {
    match c.sram_mask {
        Some(m) => m,
        None => 0,
    }
}

/// The byte a check reads differs between the latest earlier read and this one; false with no
/// earlier read.
pub open spec fn byte_changed(c: CheckModel, ram: SnesRam, history: Seq<SnesRam>) -> bool {
    history.len() > 0 && byte_of_check(c, history.last()) != byte_of_check(c, ram)
}

/// Every one of the conditions holds.
pub open spec fn every_condition_holds(
    cs: Seq<ConditionsModel>,
    log: Seq<EventModel>,
    ram: SnesRam,
    history: Seq<SnesRam>,
) -> bool {
    forall|i: int| 0 <= i < cs.len() ==> condition_holds(#[trigger] cs[i], log, ram, history)
}

/// A location check is logged, as a location check, exactly when it has conditions and all of
/// them hold, or it has none, its byte changed since the latest earlier read, has a bit of
/// its mask set, and it is not made yet. It is then marked made at the time of the read;
/// otherwise it stays as it was. A location check never stops the run.
pub proof fn law_location_step(
    c: CheckModel,
    log: Seq<EventModel>,
    ram: SnesRam,
    history: Seq<SnesRam>,
    time: i64,
)
    ensures
        ({
            let st = check_step(CheckKind::Location, c, log, ram, history, time);
            let fires = match c.conditions {
                Some(cs) => every_condition_holds(cs, log, ram, history),
                None => byte_changed(c, ram, history) && byte_of_check(c, ram) & mask_given(c) != 0
                    && !c.is_checked,
            };
            &&& st.event is Some <==> fires
            &&& fires ==> st.check == (CheckModel { is_checked: true, time_of_check: Some(time), ..c })
                && st.event == Some(EventModel::LocationCheck(st.check))
            &&& !fires ==> st.check == c
            &&& st.stop is None
        }),
{
}

/// An item is logged, as an item pickup, exactly when:
/// * with conditions: it is progressive or not yet checked, and all of them hold;
/// * without: its byte changed since the latest earlier read and, for a non-progressive item,
///   the byte has a bit of its mask set and the item is not yet checked, or, for a progressive
///   one, the byte exceeds the value stored with it.
///
/// A non-progressive item logged is marked checked at the time of the read; a progressive one
/// goes up a level, keeping the byte read and the time. An item never stops the run.
pub proof fn law_item_step(
    c: CheckModel,
    log: Seq<EventModel>,
    ram: SnesRam,
    history: Seq<SnesRam>,
    time: i64,
)
    ensures
        ({
            let st = check_step(CheckKind::Item, c, log, ram, history, time);
            let value = byte_of_check(c, ram);
            let fires = match c.conditions {
                Some(cs) => (c.is_progressive || !c.is_checked) && every_condition_holds(cs, log, ram, history),
                None => byte_changed(c, ram, history) && if c.is_progressive {
                    value > c.snes_value
                } else {
                    value & mask_given(c) != 0 && !c.is_checked
                },
            };
            &&& st.event is Some <==> fires
            &&& fires && !c.is_progressive ==> st.check == (CheckModel {
                is_checked: true,
                time_of_check: Some(time),
                ..c
            })
            &&& fires && c.is_progressive ==> st.check == (CheckModel {
                progressive_level: (c.progressive_level + 1) as usize,
                snes_value: value,
                time_of_check: Some(time),
                ..c
            })
            &&& fires ==> st.event == Some(EventModel::ItemGet(st.check))
            &&& !fires ==> st.check == c
            &&& st.stop is None
        }),
{
}

/// An event is logged, as an other event, exactly when:
/// * with conditions: it is progressive or not yet checked, and all of them hold;
/// * without: a non-progressive one has a bit of its mask set in the byte read and is not yet
///   checked, and a progressive one reads a byte above the value stored with it.
///
/// It is then marked checked, or goes up a level, as an item does. An event logged through its
/// conditions, or a progressive one logged without, stops the run, with the answer whether the
/// game still counts as started: false for a reset (id 0) and for save and quit (id 15), true
/// otherwise. Nothing else stops the run.
pub proof fn law_event_step(
    c: CheckModel,
    log: Seq<EventModel>,
    ram: SnesRam,
    history: Seq<SnesRam>,
    time: i64,
)
    ensures
        ({
            let st = check_step(CheckKind::Other, c, log, ram, history, time);
            let value = byte_of_check(c, ram);
            let fires = match c.conditions {
                Some(cs) => (c.is_progressive || !c.is_checked) && every_condition_holds(cs, log, ram, history),
                None => if c.is_progressive {
                    value > c.snes_value
                } else {
                    value & mask_given(c) != 0 && !c.is_checked
                },
            };
            &&& st.event is Some <==> fires
            &&& fires && !c.is_progressive ==> st.check == (CheckModel {
                is_checked: true,
                time_of_check: Some(time),
                ..c
            })
            &&& fires && c.is_progressive ==> st.check == (CheckModel {
                progressive_level: (c.progressive_level + 1) as usize,
                snes_value: value,
                time_of_check: Some(time),
                ..c
            })
            &&& fires ==> st.event == Some(EventModel::Other(st.check))
            &&& !fires ==> st.check == c
            &&& st.stop is Some <==> fires && (c.conditions is Some || c.is_progressive)
            &&& st.stop matches Some(started) ==> (started <==> c.id != 0 && c.id != 15)
        }),
{
}

/// An action or a command is logged exactly when it has conditions and all of them hold; it
/// then goes up a level, keeping the byte read and the time. A command logged stops the run
/// (it is the one handed to the segment recorder); an action never does.
pub proof fn law_action_command_step(
    c: CheckModel,
    log: Seq<EventModel>,
    ram: SnesRam,
    history: Seq<SnesRam>,
    time: i64,
)
    ensures
        ({
            let fires = match c.conditions {
                Some(cs) => every_condition_holds(cs, log, ram, history),
                None => false,
            };
            let up = CheckModel {
                progressive_level: (c.progressive_level + 1) as usize,
                snes_value: byte_of_check(c, ram),
                time_of_check: Some(time),
                ..c
            };
            let a = check_step(CheckKind::Action, c, log, ram, history, time);
            let k = check_step(CheckKind::Command, c, log, ram, history, time);
            &&& a.event is Some <==> fires
            &&& k.event is Some <==> fires
            &&& fires ==> a.check == up && a.event == Some(EventModel::Action(up)) && a.stop is None
            &&& fires ==> k.check == up && k.event == Some(EventModel::Command(up)) && k.stop == Some(true)
            &&& !fires ==> a.check == c && k.check == c && a.stop is None && k.stop is None
        }),
{
}

/// A run of events that stops, stops at the last event it logged, and answers whether the game
/// still counts as started by that event's id: false for a reset (id 0) and for save and quit
/// (id 15), true otherwise.
pub proof fn law_event_run_answer(
    checks: Seq<CheckModel>,
    log: Seq<EventModel>,
    ram: SnesRam,
    history: Seq<SnesRam>,
    time: i64,
)
    ensures
        ({
            let run = run_checks(CheckKind::Other, checks, log, ram, history, time);
            run.2 matches Some(started) ==> {
                &&& run.1.len() > 0
                &&& run.1.last() is Other
                &&& (started <==> check_of(run.1.last()).id != 0 && check_of(run.1.last()).id != 15)
            }
        }),
    decreases checks.len(),
{
    if checks.len() > 0 {
        law_event_run_answer(checks.drop_last(), log, ram, history, time);
        let prev = run_checks(CheckKind::Other, checks.drop_last(), log, ram, history, time);
        if prev.2 is None {
            law_event_step(checks.last(), log + prev.1, ram, history, time);
        }
    }
}

// ---------------------------------------------------------------------------------------------
// Running lists of checks against a read
// ---------------------------------------------------------------------------------------------

/// All of the conditions hold.
pub open spec fn all_hold(
    cs: Seq<ConditionsModel>,
    log: Seq<EventModel>,
    ram: SnesRam,
    history: Seq<SnesRam>,
) -> bool {
    forall|i: int| 0 <= i < cs.len() ==> condition_holds(#[trigger] cs[i], log, ram, history)
}

/// The conditions of a list can be evaluated in order up to the first that fails, where
/// evaluation stops.
pub open spec fn all_safe(
    cs: Seq<ConditionsModel>,
    log: Seq<EventModel>,
    ram: SnesRam,
    history: Seq<SnesRam>,
) -> bool {
    forall|i: int|
        0 <= i < cs.len() && passes(cs, i, true, log, ram, history) ==> condition_safe(
            #[trigger] cs[i],
            log,
            ram,
            history,
        )
}

/// Evaluates the conditions in order and stops at the first that fails.
#[verifier::loop_isolation(false)]
pub fn all_conditions_met(
    conditions: &Vec<Conditions>,
    events: &EventTracker,
    ram: &SnesRam,
    previous_values: &mut VecDeque<SnesRam>,
) -> (met: bool)
    requires
        all_safe(
            crate::condition::conditions_models(conditions@),
            events.events(),
            *ram,
            old(previous_values)@,
        ),
    ensures
        final(previous_values)@ == old(previous_values)@,
        met == all_hold(
            crate::condition::conditions_models(conditions@),
            events.events(),
            *ram,
            old(previous_values)@,
        ),
{
    let ghost cs = crate::condition::conditions_models(conditions@);
    let mut i: usize = 0;
    while i < conditions.len()
        invariant
            i <= conditions@.len(),
            previous_values@ == old(previous_values)@,
            forall|j: int| 0 <= j < i ==> condition_holds(#[trigger] cs[j], events.events(), *ram, previous_values@),
        decreases conditions@.len() - i,
    {
        assert(cs[i as int] == conditions@[i as int].model());
        if !match_condition(&conditions[i], events, ram, previous_values) {
            return false;
        }
        i = i + 1;
    }
    true
}

/// The kinds of check lists that a read is run against.
pub enum CheckKind {
    Location,
    Item,
    Other,
    Action,
    Command,
}

/// What processing one check produces: the check afterwards, the event logged for it if any,
/// and, when the run over the list stops at this check, the value that it returns.
pub struct CheckStep {
    pub check: CheckModel,
    pub event: Option<EventModel>,
    pub stop: Option<bool>,
}

/// The address that a check reads: its offset, zero when it has none.
pub open spec fn offset_of(c: CheckModel) -> int {
    match c.sram_offset {
        Some(o) => o as int,
        None => 0,
    }
}

/// The mask of a check, zero when it has none.
pub open spec fn mask_of(c: CheckModel) -> u8 {
    match c.sram_mask {
        Some(m) => m,
        None => 0,
    }
}

pub open spec fn marked(c: CheckModel, time: i64) -> CheckModel {
    CheckModel { is_checked: true, time_of_check: Some(time), ..c }
}

pub open spec fn progressed(c: CheckModel, value: u8, time: i64) -> CheckModel {
    CheckModel {
        progressive_level: (c.progressive_level + 1) as usize,
        snes_value: value,
        time_of_check: Some(time),
        ..c
    }
}

pub open spec fn unchanged(c: CheckModel) -> CheckStep {
    CheckStep { check: c, event: None, stop: None }
}

/// The event that logs a check of the given kind.
pub open spec fn event_for(kind: CheckKind, c: CheckModel) -> EventModel {
    match kind {
        CheckKind::Location => EventModel::LocationCheck(c),
        CheckKind::Item => EventModel::ItemGet(c),
        CheckKind::Other => EventModel::Other(c),
        CheckKind::Action => EventModel::Action(c),
        CheckKind::Command => EventModel::Command(c),
    }
}

/// Processing one check of the given kind against the read, the history and the log.
///
/// * A location check with conditions is marked whenever they all hold. Without conditions,
///   it is marked when its value changed since the latest read, has a bit of its mask set, and
///   it is not checked yet.
/// * An item or other event with conditions fires when it is progressive or not yet checked
///   and they all hold: a progressive one goes up a level (keeping the read value), any other
///   is marked. Without conditions, an item needs a changed value; then, as for an event
///   without conditions, a non-progressive one unchecked with a mask bit set is marked, and a
///   progressive one whose read value exceeds the stored one goes up a level. An event that
///   fires through its conditions, or progresses without them, stops the run, which returns
///   whether its id is neither 0 (reset) nor 15 (save and quit).
/// * An action or command with conditions goes up a level whenever they all hold; one without
///   conditions never fires. A command that fires stops the run.
pub open spec fn check_step(
    kind: CheckKind,
    c: CheckModel,
    log: Seq<EventModel>,
    ram: SnesRam,
    history: Seq<SnesRam>,
    time: i64,
) -> CheckStep {
    let value = ram.byte_at(offset_of(c));
    let changed = history.len() > 0 && last_byte(history, offset_of(c)) != value;
    let bit_set = (value & mask_of(c)) != 0;
    match kind {
        CheckKind::Location => match c.conditions {
            Some(cs) => if all_hold(cs, log, ram, history) {
                let m = marked(c, time);
                CheckStep { check: m, event: Some(event_for(kind, m)), stop: None }
            } else {
                unchanged(c)
            },
            None => if changed && bit_set && !c.is_checked {
                let m = marked(c, time);
                CheckStep { check: m, event: Some(event_for(kind, m)), stop: None }
            } else {
                unchanged(c)
            },
        },
        CheckKind::Item | CheckKind::Other => {
            let fired_by_conditions = match c.conditions {
                Some(cs) => (c.is_progressive || !c.is_checked) && all_hold(cs, log, ram, history),
                None => false,
            };
            let may_fire_without = match kind {
                CheckKind::Item => changed,
                _ => true,
            };
            if c.conditions is Some {
                if fired_by_conditions {
                    let m = if !c.is_progressive {
                        marked(c, time)
                    } else {
                        progressed(c, value, time)
                    };
                    CheckStep {
                        check: m,
                        event: Some(event_for(kind, m)),
                        stop: match kind {
                            CheckKind::Other => Some(c.id != 0 && c.id != 15),
                            _ => None,
                        },
                    }
                } else {
                    unchanged(c)
                }
            } else if may_fire_without && !c.is_progressive && bit_set && !c.is_checked {
                let m = marked(c, time);
                CheckStep { check: m, event: Some(event_for(kind, m)), stop: None }
            } else if may_fire_without && c.is_progressive && value > c.snes_value {
                let m = progressed(c, value, time);
                CheckStep {
                    check: m,
                    event: Some(event_for(kind, m)),
                    stop: match kind {
                        CheckKind::Other => Some(c.id != 0 && c.id != 15),
                        _ => None,
                    },
                }
            } else {
                unchanged(c)
            }
        },
        CheckKind::Action | CheckKind::Command => match c.conditions {
            Some(cs) => if all_hold(cs, log, ram, history) {
                let m = progressed(c, value, time);
                CheckStep {
                    check: m,
                    event: Some(event_for(kind, m)),
                    stop: match kind {
                        CheckKind::Command => Some(true),
                        _ => None,
                    },
                }
            } else {
                unchanged(c)
            },
            None => unchanged(c),
        },
    }
}

/// A check of the given kind can be processed against the log as it stands: the addresses
/// read are held by the read (and by the latest earlier read, where that is read), the
/// conditions that are evaluated can be (an item or other event with conditions only has them
/// evaluated while it is progressive or not yet checked), and going up a level stays within
/// `usize`.
pub open spec fn check_safe(
    kind: CheckKind,
    c: CheckModel,
    log: Seq<EventModel>,
    ram: SnesRam,
    history: Seq<SnesRam>,
) -> bool {
    match kind {
        CheckKind::Location => match c.conditions {
            Some(cs) => all_safe(cs, log, ram, history),
            None => offset_readable(history, &ram, offset_of(c)),
        },
        CheckKind::Item => {
            &&& ram.can_read(offset_of(c))
            &&& match c.conditions {
                Some(cs) => (c.is_progressive || !c.is_checked) ==> all_safe(cs, log, ram, history),
                None => offset_readable(history, &ram, offset_of(c)),
            }
            &&& c.progressive_level < usize::MAX
        },
        CheckKind::Other => {
            &&& ram.can_read(offset_of(c))
            &&& match c.conditions {
                Some(cs) => (c.is_progressive || !c.is_checked) ==> all_safe(cs, log, ram, history),
                None => true,
            }
            &&& c.progressive_level < usize::MAX
        },
        _ => {
            &&& ram.can_read(offset_of(c))
            &&& match c.conditions {
                Some(cs) => all_safe(cs, log, ram, history),
                None => true,
            }
            &&& c.progressive_level < usize::MAX
        },
    }
}

/// Runs `kind` checks in order against the read, each seeing the log as it stands after the
/// events of the checks before it, until one stops the run. Gives the checks afterwards, the
/// events logged, and the value of the check that stopped the run, if one did.
pub open spec fn run_checks(
    kind: CheckKind,
    checks: Seq<CheckModel>,
    log: Seq<EventModel>,
    ram: SnesRam,
    history: Seq<SnesRam>,
    time: i64,
) -> (Seq<CheckModel>, Seq<EventModel>, Option<bool>)
    decreases checks.len(),
{
    if checks.len() == 0 {
        (Seq::empty(), Seq::empty(), None)
    } else {
        let prev = run_checks(kind, checks.drop_last(), log, ram, history, time);
        if prev.2 is Some {
            (prev.0.push(checks.last()), prev.1, prev.2)
        } else {
            let r = check_step(kind, checks.last(), log + prev.1, ram, history, time);
            (
                prev.0.push(r.check),
                match r.event {
                    Some(e) => prev.1.push(e),
                    None => prev.1,
                },
                r.stop,
            )
        }
    }
}

/// Every check that a run of `kind` checks reaches can be processed, each against the log as
/// it stands after the events of the checks before it.
pub open spec fn run_safe(
    kind: CheckKind,
    checks: Seq<CheckModel>,
    log: Seq<EventModel>,
    ram: SnesRam,
    history: Seq<SnesRam>,
    time: i64,
) -> bool
    decreases checks.len(),
{
    if checks.len() == 0 {
        true
    } else {
        let prev = run_checks(kind, checks.drop_last(), log, ram, history, time);
        &&& run_safe(kind, checks.drop_last(), log, ram, history, time)
        &&& (prev.2 is Some || check_safe(kind, checks.last(), log + prev.1, ram, history))
    }
}

/// A run that can be processed can be processed on each of its prefixes.
pub proof fn lemma_run_safe_prefix(
    kind: CheckKind,
    checks: Seq<CheckModel>,
    n: int,
    log: Seq<EventModel>,
    ram: SnesRam,
    history: Seq<SnesRam>,
    time: i64,
)
    requires
        run_safe(kind, checks, log, ram, history, time),
        0 <= n <= checks.len(),
    ensures
        run_safe(kind, checks.take(n), log, ram, history, time),
    decreases checks.len(),
{
    if n == checks.len() {
        assert(checks.take(n) =~= checks);
    } else {
        assert(checks.drop_last().take(n) =~= checks.take(n));
        lemma_run_safe_prefix(kind, checks.drop_last(), n, log, ram, history, time);
    }
}

/// What processing may change in a check: it keeps what it is (id, name, address, mask, item,
/// kind and conditions), a made check stays made, and its level never goes down.
pub open spec fn advanced(before: CheckModel, after: CheckModel) -> bool {
    &&& after.id == before.id
    &&& after.name == before.name
    &&& after.sram_offset == before.sram_offset
    &&& after.sram_mask == before.sram_mask
    &&& after.item == before.item
    &&& after.is_progressive == before.is_progressive
    &&& after.is_item == before.is_item
    &&& after.conditions == before.conditions
    &&& before.is_checked ==> after.is_checked
    &&& before.progressive_level <= after.progressive_level
}

/// A run over a list of checks gives back as many checks, each only advanced: checks are
/// never unmade and levels never go down.
pub proof fn law_checks_only_advance(
    kind: CheckKind,
    checks: Seq<CheckModel>,
    log: Seq<EventModel>,
    ram: SnesRam,
    history: Seq<SnesRam>,
    time: i64,
)
    requires
        forall|i: int| 0 <= i < checks.len() ==> (#[trigger] checks[i]).progressive_level < usize::MAX,
    ensures
        run_checks(kind, checks, log, ram, history, time).0.len() == checks.len(),
        forall|i: int|
            0 <= i < checks.len() ==> advanced(
                #[trigger] checks[i],
                run_checks(kind, checks, log, ram, history, time).0[i],
            ),
    decreases checks.len(),
{
    if checks.len() > 0 {
        let prefix = checks.drop_last();
        assert forall|i: int| 0 <= i < prefix.len() implies (#[trigger] prefix[i]).progressive_level
            < usize::MAX by {
            assert(prefix[i] == checks[i]);
        }
        law_checks_only_advance(kind, prefix, log, ram, history, time);
        let prev = run_checks(kind, prefix, log, ram, history, time);
        let all = run_checks(kind, checks, log, ram, history, time);
        assert forall|i: int| 0 <= i < checks.len() implies advanced(
            #[trigger] checks[i],
            all.0[i],
        ) by {
            if i < prefix.len() {
                assert(checks[i] == prefix[i]);
                assert(all.0[i] == prev.0[i]);
            }
        }
    }
}

/// Check `i` of the list logs an event when the list is run: the run up to and including it
/// logs more than the run before it.
pub open spec fn logs_at(
    kind: CheckKind,
    checks: Seq<CheckModel>,
    i: int,
    log: Seq<EventModel>,
    ram: SnesRam,
    history: Seq<SnesRam>,
    time: i64,
) -> bool {
    run_checks(kind, checks.take(i + 1), log, ram, history, time).1.len() > run_checks(
        kind,
        checks.take(i),
        log,
        ram,
        history,
        time,
    ).1.len()
}

/// The checks a run gives back are as many as it was given.
proof fn lemma_run_len(
    kind: CheckKind,
    checks: Seq<CheckModel>,
    log: Seq<EventModel>,
    ram: SnesRam,
    history: Seq<SnesRam>,
    time: i64,
)
    ensures
        run_checks(kind, checks, log, ram, history, time).0.len() == checks.len(),
    decreases checks.len(),
{
    if checks.len() > 0 {
        lemma_run_len(kind, checks.drop_last(), log, ram, history, time);
    }
}

/// Check `i` after a run is what it is after the run of the list up to and including it.
proof fn lemma_run_at(
    kind: CheckKind,
    checks: Seq<CheckModel>,
    i: int,
    log: Seq<EventModel>,
    ram: SnesRam,
    history: Seq<SnesRam>,
    time: i64,
)
    requires
        0 <= i < checks.len(),
    ensures
        run_checks(kind, checks, log, ram, history, time).0[i] == run_checks(
            kind,
            checks.take(i + 1),
            log,
            ram,
            history,
            time,
        ).0[i],
    decreases checks.len(),
{
    if i == checks.len() - 1 {
        assert(checks.take(i + 1) =~= checks);
    } else {
        let p = checks.drop_last();
        lemma_run_len(kind, p, log, ram, history, time);
        lemma_run_at(kind, p, i, log, ram, history, time);
        assert(p.take(i + 1) =~= checks.take(i + 1));
    }
}

/// A non-progressive item or event logs an event only while it is not yet checked, and the
/// run checks it when it does.
proof fn lemma_logs_only_unchecked(
    kind: CheckKind,
    checks: Seq<CheckModel>,
    i: int,
    log: Seq<EventModel>,
    ram: SnesRam,
    history: Seq<SnesRam>,
    time: i64,
)
    requires
        kind is Item || kind is Other,
        0 <= i < checks.len(),
        !checks[i].is_progressive,
        logs_at(kind, checks, i, log, ram, history, time),
    ensures
        !checks[i].is_checked,
        run_checks(kind, checks, log, ram, history, time).0[i].is_checked,
        !run_checks(kind, checks, log, ram, history, time).0[i].is_progressive,
{
    let upto = checks.take(i + 1);
    assert(upto.drop_last() =~= checks.take(i));
    assert(upto.last() == checks[i]);
    lemma_run_len(kind, checks.take(i), log, ram, history, time);
    lemma_run_at(kind, checks, i, log, ram, history, time);
}

/// A non-progressive item or event is logged at most once over all the reads: once it has
/// logged an event, any later list in which it has only advanced (as runs leave it, see
/// `law_checks_only_advance`) holds it checked, and it logs nothing more, whatever the read.
pub proof fn law_event_logged_at_most_once(
    kind: CheckKind,
    checks: Seq<CheckModel>,
    later: Seq<CheckModel>,
    i: int,
    log: Seq<EventModel>,
    ram: SnesRam,
    history: Seq<SnesRam>,
    time: i64,
    later_log: Seq<EventModel>,
    later_ram: SnesRam,
    later_history: Seq<SnesRam>,
    later_time: i64,
)
    requires
        kind is Item || kind is Other,
        0 <= i < checks.len(),
        0 <= i < later.len(),
        !checks[i].is_progressive,
        logs_at(kind, checks, i, log, ram, history, time),
        advanced(run_checks(kind, checks, log, ram, history, time).0[i], later[i]),
    ensures
        !logs_at(kind, later, i, later_log, later_ram, later_history, later_time),
{
    lemma_logs_only_unchecked(kind, checks, i, log, ram, history, time);
    if logs_at(kind, later, i, later_log, later_ram, later_history, later_time) {
        lemma_logs_only_unchecked(kind, later, i, later_log, later_ram, later_history, later_time);
    }
}

pub(crate) fn read_offset(check: &Check) -> (o: usize)
    ensures
        o == offset_of(check.model()),
{
    match check.sram_offset {
        Some(o) => o as usize,
        None => 0,
    }
}

pub(crate) fn read_mask(check: &Check) -> (m: u8)
    ensures
        m == mask_of(check.model()),
{
    match check.sram_mask {
        Some(m) => m,
        None => 0,
    }
}

fn logged(kind: &CheckKind, check: Check) -> (e: EventEnum)
    ensures
        e.model() == event_for(*kind, check.model()),
{
    match kind {
        CheckKind::Location => EventEnum::LocationCheck(check),
        CheckKind::Item => EventEnum::ItemGet(check),
        CheckKind::Other => EventEnum::Other(check),
        CheckKind::Action => EventEnum::Action(check),
        CheckKind::Command => EventEnum::Command(check),
    }
}

/// Processes one check: updates it, and returns the event to log and the stop value.
#[verifier::rlimit(30)]
fn process_check(
    kind: &CheckKind,
    check: &mut Check,
    events: &EventTracker,
    ram: &SnesRam,
    previous_values: &mut VecDeque<SnesRam>,
    time_of_read: i64,
) -> (r: (Option<EventEnum>, Option<bool>))
    requires
        check_safe(*kind, old(check).model(), events.events(), *ram, old(previous_values)@),
    ensures
        final(previous_values)@ == old(previous_values)@,
        ({
            let st = check_step(*kind, old(check).model(), events.events(), *ram, old(previous_values)@, time_of_read);
            &&& final(check).model() == st.check
            &&& r.1 == st.stop
            &&& match r.0 {
                Some(e) => st.event == Some(e.model()),
                None => st.event is None,
            }
        }),
{
    let ghost c0 = check.model();
    let offset = read_offset(check);
    let mask = read_mask(check);
    match kind {
        CheckKind::Location => {
            match &check.conditions {
                Some(conditions) => {
                    if all_conditions_met(conditions, events, ram, previous_values) {
                        check.mark_as_checked(time_of_read);
                        let e = logged(kind, check.deep_clone());
                        return (Some(e), None);
                    }
                    (None, None)
                },
                None => {
                    let value = ram.get_byte(offset);
                    if previous_values.len() > 0 && previous_values[previous_values.len()
                        - 1].get_byte(offset) != value {
                        if value & mask != 0 && !check.is_checked {
                            check.mark_as_checked(time_of_read);
                            let e = logged(kind, check.deep_clone());
                            return (Some(e), None);
                        }
                    }
                    (None, None)
                },
            }
        },
        CheckKind::Item | CheckKind::Other => {
            let value = ram.get_byte(offset);
            let is_other = match kind {
                CheckKind::Other => true,
                _ => false,
            };
            let stop_value = check.id != 0 && check.id != 15;
            match &check.conditions {
                Some(conditions) => {
                    if (check.is_progressive || !check.is_checked) && all_conditions_met(
                        conditions,
                        events,
                        ram,
                        previous_values,
                    ) {
                        if !check.is_progressive {
                            check.mark_as_checked(time_of_read);
                        } else {
                            check.progress_item(value, time_of_read);
                        }
                        let e = logged(kind, check.deep_clone());
                        return (Some(e), if is_other { Some(stop_value) } else { None });
                    }
                    (None, None)
                },
                None => {
                    let may_fire = if is_other {
                        true
                    } else {
                        previous_values.len() > 0 && previous_values[previous_values.len()
                            - 1].get_byte(offset) != value
                    };
                    if may_fire {
                        if !check.is_progressive && value & mask != 0 && !check.is_checked {
                            check.mark_as_checked(time_of_read);
                            let e = logged(kind, check.deep_clone());
                            return (Some(e), None);
                        } else if check.is_progressive && value > check.snes_value {
                            check.progress_item(value, time_of_read);
                            let e = logged(kind, check.deep_clone());
                            return (Some(e), if is_other { Some(stop_value) } else { None });
                        }
                    }
                    (None, None)
                },
            }
        },
        CheckKind::Action | CheckKind::Command => {
            let value = ram.get_byte(offset);
            let is_command = match kind {
                CheckKind::Command => true,
                _ => false,
            };
            match &check.conditions {
                Some(conditions) => {
                    if all_conditions_met(conditions, events, ram, previous_values) {
                        check.progress_item(value, time_of_read);
                        let e = logged(kind, check.deep_clone());
                        return (Some(e), if is_command { Some(true) } else { None });
                    }
                    (None, None)
                },
                None => (None, None),
            }
        },
    }
}


/// Runs the checks of a list in order, as `run_checks` describes, updating them and the log.
/// When `checked`, each check is first tested against the log as it stands, and the run gives
/// `None` at the first one that cannot be processed (the checks and the log are then left
/// part-way); otherwise every check reached must be processable.
#[verifier::loop_isolation(false)]
pub(crate) fn run_check_list(
    kind: &CheckKind,
    ram: &SnesRam,
    previous_values: &mut VecDeque<SnesRam>,
    checks: &mut Vec<Check>,
    events: &mut EventTracker,
    time_of_read: i64,
    checked: bool,
) -> (r: Option<(Vec<EventEnum>, Option<bool>)>)
    requires
        !checked ==> run_safe(
            *kind,
            crate::event::check_models(old(checks)@),
            old(events).events(),
            *ram,
            old(previous_values)@,
            time_of_read,
        ),
    ensures
        final(previous_values)@ == old(previous_values)@,
        ({
            let models = crate::event::check_models(old(checks)@);
            let run = run_checks(*kind, models, old(events).events(), *ram, old(previous_values)@, time_of_read);
            match r {
                Some(o) => {
                    &&& run_safe(*kind, models, old(events).events(), *ram, old(previous_values)@, time_of_read)
                    &&& crate::event::check_models(final(checks)@) == run.0
                    &&& final(events).events() == old(events).events() + run.1
                    &&& crate::event::event_models(o.0@) == run.1
                    &&& o.1 == run.2
                },
                None => !run_safe(*kind, models, old(events).events(), *ram, old(previous_values)@, time_of_read),
            }
        }),
{
    let ghost models = crate::event::check_models(checks@);
    let ghost log0 = events.events();
    let ghost history = previous_values@;
    let ghost checks_before = checks@;
    let mut emitted: Vec<EventEnum> = Vec::new();
    let mut stop: Option<bool> = None;
    let mut i: usize = 0;
    while i < checks.len()
        invariant
            i <= checks@.len(),
            checks@.len() == checks_before.len(),
            models == crate::event::check_models(checks_before),
            previous_values@ == history,
            forall|j: int| i <= j < checks@.len() ==> checks@[j] == checks_before[j],
            !checked ==> run_safe(*kind, models, log0, *ram, history, time_of_read),
            run_safe(*kind, models.take(i as int), log0, *ram, history, time_of_read),
            ({
                let run = run_checks(*kind, models.take(i as int), log0, *ram, history, time_of_read);
                &&& crate::event::check_models(checks@).take(i as int) == run.0
                &&& events.events() == log0 + run.1
                &&& crate::event::event_models(emitted@) == run.1
                &&& stop == run.2
            }),
        decreases checks@.len() - i,
    {
        let ghost run_before = run_checks(*kind, models.take(i as int), log0, *ram, history, time_of_read);
        let ghost emitted_before = emitted@;
        let ghost checks_now = checks@;
        proof {
            assert(models.take(i + 1).drop_last() =~= models.take(i as int));
            assert(models.take(i + 1).last() == models[i as int]);
            assert(models[i as int] == checks_before[i as int].model());
        }
        if stop.is_none() {
            if checked {
                if !crate::evaluable::check_evaluable(kind, &checks[i], events, ram, previous_values) {
                    proof {
                        if run_safe(*kind, models, log0, *ram, history, time_of_read) {
                            lemma_run_safe_prefix(*kind, models, i + 1, log0, *ram, history, time_of_read);
                        }
                    }
                    return None;
                }
            } else {
                proof {
                    lemma_run_safe_prefix(*kind, models, i + 1, log0, *ram, history, time_of_read);
                }
            }
            let mut check = checks[i].deep_clone();
            let (event, st) = process_check(kind, &mut check, events, ram, previous_values, time_of_read);
            checks.set(i, check);
            match event {
                Some(e) => {
                    let copy = e.deep_clone();
                    events.push(e);
                    emitted.push(copy);
                    assert(crate::event::event_models(emitted@) =~= crate::event::event_models(
                        emitted_before,
                    ).push(copy.model()));
                    assert(events.events() =~= log0 + run_before.1.push(copy.model()));
                },
                None => {},
            }
            stop = st;
        }
        proof {
            assert(crate::event::check_models(checks@).take(i + 1) =~= crate::event::check_models(
                checks_now,
            ).take(i as int).push(crate::event::check_models(checks@)[i as int]));
        }
        i = i + 1;
    }
    proof {
        assert(models.take(checks@.len() as int) =~= models);
        assert(crate::event::check_models(checks@).take(checks@.len() as int) =~= crate::event::check_models(checks@));
    }
    Some((emitted, stop))
}

/// Runs the checks of a list whose run can be processed: see `run_check_list`.
fn run_processable(
    kind: &CheckKind,
    ram: &SnesRam,
    previous_values: &mut VecDeque<SnesRam>,
    checks: &mut Vec<Check>,
    events: &mut EventTracker,
    time_of_read: i64,
) -> (r: (Vec<EventEnum>, Option<bool>))
    requires
        run_safe(
            *kind,
            crate::event::check_models(old(checks)@),
            old(events).events(),
            *ram,
            old(previous_values)@,
            time_of_read,
        ),
    ensures
        final(previous_values)@ == old(previous_values)@,
        ({
            let run = run_checks(
                *kind,
                crate::event::check_models(old(checks)@),
                old(events).events(),
                *ram,
                old(previous_values)@,
                time_of_read,
            );
            &&& crate::event::check_models(final(checks)@) == run.0
            &&& final(events).events() == old(events).events() + run.1
            &&& crate::event::event_models(r.0@) == run.1
            &&& r.1 == run.2
        }),
{
    match run_check_list(kind, ram, previous_values, checks, events, time_of_read, false) {
        Some(o) => o,
        None => {
            proof {
                assert(false);
            }
            (Vec::new(), None)
        },
    }
}

/// The lists of checks and the log after a run of `kind` checks against a read are those that
/// `run_checks` gives, and the events returned are the ones logged.
pub open spec fn ran_checks(
    kind: CheckKind,
    before: Seq<Check>,
    after: Seq<Check>,
    log_before: Seq<EventModel>,
    log_after: Seq<EventModel>,
    emitted: Seq<EventEnum>,
    ram: SnesRam,
    history: Seq<SnesRam>,
    time: i64,
) -> bool {
    let run = run_checks(kind, crate::event::check_models(before), log_before, ram, history, time);
    &&& crate::event::check_models(after) == run.0
    &&& log_after == log_before + run.1
    &&& crate::event::event_models(emitted) == run.1
}

/// Marks the location checks that the read shows as made, logs them, and returns the events
/// logged, for writing and printing.
pub fn check_for_location_checks(
    ram: &SnesRam,
    ram_history: &mut VecDeque<SnesRam>,
    checks: &mut Vec<Check>,
    events: &mut EventTracker,
    time_of_read: i64,
) -> (emitted: Vec<EventEnum>)
    requires
        run_safe(
            CheckKind::Location,
            crate::event::check_models(old(checks)@),
            old(events).events(),
            *ram,
            old(ram_history)@,
            time_of_read,
        ),
    ensures
        final(ram_history)@ == old(ram_history)@,
        ran_checks(
            CheckKind::Location,
            old(checks)@,
            final(checks)@,
            old(events).events(),
            final(events).events(),
            emitted@,
            *ram,
            old(ram_history)@,
            time_of_read,
        ),
{
    let (emitted, _) = run_processable(
        &CheckKind::Location,
        ram,
        ram_history,
        checks,
        events,
        time_of_read,
    );
    emitted
}

/// Records the items that the read shows as picked up (progressive items go up a level), logs
/// them, and returns the events logged.
pub fn check_for_item_checks(
    ram: &SnesRam,
    previous_values: &mut VecDeque<SnesRam>,
    checks: &mut Vec<Check>,
    events: &mut EventTracker,
    time_of_read: i64,
) -> (emitted: Vec<EventEnum>)
    requires
        run_safe(
            CheckKind::Item,
            crate::event::check_models(old(checks)@),
            old(events).events(),
            *ram,
            old(previous_values)@,
            time_of_read,
        ),
    ensures
        final(previous_values)@ == old(previous_values)@,
        ran_checks(
            CheckKind::Item,
            old(checks)@,
            final(checks)@,
            old(events).events(),
            final(events).events(),
            emitted@,
            *ram,
            old(previous_values)@,
            time_of_read,
        ),
{
    let (emitted, _) = run_processable(
        &CheckKind::Item,
        ram,
        previous_values,
        checks,
        events,
        time_of_read,
    );
    emitted
}

/// Records the subscribed events that the read shows, logs them, and returns whether the game
/// goes on counting as started, with the events logged. The run stops at the first event that
/// fires through its conditions or progresses, and the game then counts as started unless that
/// event is a reset (id 0) or a save and quit (id 15); otherwise it does.
pub fn check_for_events(
    ram: &SnesRam,
    previous_values: &mut VecDeque<SnesRam>,
    subscribed_events: &mut Vec<Check>,
    events: &mut EventTracker,
    time_of_read: i64,
) -> (r: (bool, Vec<EventEnum>))
    requires
        run_safe(
            CheckKind::Other,
            crate::event::check_models(old(subscribed_events)@),
            old(events).events(),
            *ram,
            old(previous_values)@,
            time_of_read,
        ),
    ensures
        final(previous_values)@ == old(previous_values)@,
        ran_checks(
            CheckKind::Other,
            old(subscribed_events)@,
            final(subscribed_events)@,
            old(events).events(),
            final(events).events(),
            r.1@,
            *ram,
            old(previous_values)@,
            time_of_read,
        ),
        r.0 == match run_checks(
            CheckKind::Other,
            crate::event::check_models(old(subscribed_events)@),
            old(events).events(),
            *ram,
            old(previous_values)@,
            time_of_read,
        ).2 {
            Some(b) => b,
            None => true,
        },
{
    let (emitted, stop) = run_processable(
        &CheckKind::Other,
        ram,
        previous_values,
        subscribed_events,
        events,
        time_of_read,
    );
    let started = match stop {
        Some(b) => b,
        None => true,
    };
    (started, emitted)
}

/// Records the actions that the read shows (each goes up a level), logs them, and returns the
/// events logged.
pub fn check_for_actions(
    ram: &SnesRam,
    previous_values: &mut VecDeque<SnesRam>,
    actions: &mut Vec<Check>,
    events: &mut EventTracker,
    time_of_read: i64,
) -> (emitted: Vec<EventEnum>)
    requires
        run_safe(
            CheckKind::Action,
            crate::event::check_models(old(actions)@),
            old(events).events(),
            *ram,
            old(previous_values)@,
            time_of_read,
        ),
    ensures
        final(previous_values)@ == old(previous_values)@,
        ran_checks(
            CheckKind::Action,
            old(actions)@,
            final(actions)@,
            old(events).events(),
            final(events).events(),
            emitted@,
            *ram,
            old(previous_values)@,
            time_of_read,
        ),
{
    let (emitted, _) = run_processable(
        &CheckKind::Action,
        ram,
        previous_values,
        actions,
        events,
        time_of_read,
    );
    emitted
}

/// A run of commands that stopped logged the command that stopped it, last.
pub(crate) proof fn lemma_command_stop(
    checks: Seq<CheckModel>,
    log: Seq<EventModel>,
    ram: SnesRam,
    history: Seq<SnesRam>,
    time: i64,
)
    ensures
        ({
            let run = run_checks(CheckKind::Command, checks, log, ram, history, time);
            run.2 is Some ==> run.1.len() > 0 && run.1.last() is Command
        }),
    decreases checks.len(),
{
    if checks.len() > 0 {
        lemma_command_stop(checks.drop_last(), log, ram, history, time);
    }
}

/// Records the first command that the read shows (it goes up a level), logs it, and returns
/// it, with the events logged.
pub fn check_for_commands(
    ram: &SnesRam,
    previous_values: &mut VecDeque<SnesRam>,
    subscribed_commands: &mut Vec<Check>,
    commands: &mut EventTracker,
    time_of_read: i64,
) -> (r: (Option<Check>, Vec<EventEnum>))
    requires
        run_safe(
            CheckKind::Command,
            crate::event::check_models(old(subscribed_commands)@),
            old(commands).events(),
            *ram,
            old(previous_values)@,
            time_of_read,
        ),
    ensures
        final(previous_values)@ == old(previous_values)@,
        ran_checks(
            CheckKind::Command,
            old(subscribed_commands)@,
            final(subscribed_commands)@,
            old(commands).events(),
            final(commands).events(),
            r.1@,
            *ram,
            old(previous_values)@,
            time_of_read,
        ),
        ({
            let run = run_checks(
                CheckKind::Command,
                crate::event::check_models(old(subscribed_commands)@),
                old(commands).events(),
                *ram,
                old(previous_values)@,
                time_of_read,
            );
            &&& r.0 is Some <==> run.2 is Some
            &&& r.0 matches Some(c) ==> EventModel::Command(c.model()) == run.1.last()
        }),
{
    let ghost models = crate::event::check_models(subscribed_commands@);
    let ghost log = commands.events();
    let ghost history = previous_values@;
    let (emitted, stop) = run_processable(
        &CheckKind::Command,
        ram,
        previous_values,
        subscribed_commands,
        commands,
        time_of_read,
    );
    proof {
        lemma_command_stop(models, log, *ram, history, time_of_read);
    }
    let cmd = stopping_command(&emitted, stop);
    (cmd, emitted)
}

/// The command that stopped a run of commands: the last event logged, when the run stopped.
pub(crate) fn stopping_command(emitted: &Vec<EventEnum>, stop: Option<bool>) -> (r: Option<Check>)
    requires
        stop is Some ==> emitted@.len() > 0 && crate::event::event_models(emitted@).last() is Command,
    ensures
        r is Some <==> stop is Some,
        r matches Some(c) ==> EventModel::Command(c.model()) == crate::event::event_models(
            emitted@,
        ).last(),
{
    match stop {
        Some(_) => {
            let last = &emitted[emitted.len() - 1];
            assert(crate::event::event_models(emitted@)[emitted@.len() - 1] == last.model());
            match last {
                EventEnum::Command(c) => Some(c.deep_clone()),
                _ => {
                    proof {
                        assert(false);
                    }
                    None
                },
            }
        },
        None => None,
    }
}


/// The latest transition's tile (the default tile when the log has none).
pub open spec fn latest_tile(log: Seq<EventModel>) -> TileModel {
    match last_where(log, transitions()) {
        Some(k) => match log[k] {
            EventModel::Transition(t) => t,
            _ => crate::tile::default_tile_model(),
        },
        None => crate::tile::default_tile_model(),
    }
}

/// The latest transition is the one logged last: logging a transition makes it the latest,
/// and logging anything else leaves the latest transition as it was.
pub proof fn law_latest_transition_after_push(log: Seq<EventModel>, e: EventModel)
    ensures
        latest_tile(log.push(e)) == match e {
            EventModel::Transition(t) => t,
            _ => latest_tile(log),
        },
{
    let longer = log.push(e);
    if e is Transition {
        crate::event::lemma_last_where_found(longer, transitions(), log.len() as int);
    } else {
        if let Some(k) = last_where(log, transitions()) {
            assert(crate::event::is_last_where(log, transitions(), k));
            assert(longer[k] == log[k]);
            crate::event::lemma_last_where_found(longer, transitions(), k);
        } else {
            if exists|k: int| crate::event::is_last_where(longer, transitions(), k) {
                let k = choose|k: int| crate::event::is_last_where(longer, transitions(), k);
                assert(k < log.len());
                assert(longer[k] == log[k]);
                assert forall|j: int| k < j < log.len() implies !transitions()(#[trigger] log[j]) by {
                    assert(longer[j] == log[j]);
                }
                assert(crate::event::is_last_where(log, transitions(), k));
            }
        }
    }
}

/// Tiles can be told from the read: every tile can be matched against it and, when several
/// match, the conditions that are tried can be evaluated.
pub open spec fn tiles_readable(tiles: Seq<Tile>, previous_id: usize, ram: &SnesRam) -> bool {
    &&& forall|i: int| 0 <= i < tiles.len() ==> #[trigger] tiles[i].match_defined(ram)
    &&& match_count(tiles, ram) >= 2 ==> tiles_resolvable(tiles, previous_id, ram)
}

/// The transition that the read shows, if any: the tile it points at, when that differs by
/// name from the latest transition's, stamped with the time of the read.
pub open spec fn transition_for(
    tiles: Seq<Tile>,
    log: Seq<EventModel>,
    ram: &SnesRam,
    time: i64,
) -> Option<TileModel> {
    let previous = latest_tile(log);
    match tile_for_ram(tiles, previous.id, ram) {
        Some(i) => if tiles[i].name@ != previous.name {
            Some(TileModel { timestamp: Some(time), ..tiles[i].model() })
        } else {
            None
        },
        None => None,
    }
}

/// The transition a read logs: none when the read points at no tile; when it points at
/// exactly one tile, that tile stamped with the time of the read, unless its name is the
/// latest transition's; and whenever one is logged, it is a tile that the read points at,
/// named otherwise than the latest transition, stamped with the time of the read.
pub proof fn law_transition_for(tiles: Seq<Tile>, log: Seq<EventModel>, ram: SnesRam, time: i64, i: int)
    ensures
        (forall|j: int| 0 <= j < tiles.len() ==> !(#[trigger] tiles[j].matches_ram(&ram))) ==> transition_for(
            tiles,
            log,
            &ram,
            time,
        ) is None,
        0 <= i < tiles.len() && tiles[i].matches_ram(&ram) && (forall|j: int|
            0 <= j < tiles.len() && j != i ==> !(#[trigger] tiles[j].matches_ram(&ram))) ==> transition_for(
            tiles,
            log,
            &ram,
            time,
        ) == if tiles[i].name@ != latest_tile(log).name {
            Some(TileModel { timestamp: Some(time), ..tiles[i].model() })
        } else {
            None
        },
        transition_for(tiles, log, &ram, time) matches Some(t) ==> exists|k: int|
            0 <= k < tiles.len() && #[trigger] tiles[k].matches_ram(&ram) && tiles[k].name@ != latest_tile(
                log,
            ).name && t == (TileModel { timestamp: Some(time), ..tiles[k].model() }),
{
    crate::tile::lemma_match_count(tiles, &ram, i);
    if 0 <= i < tiles.len() && tiles[i].matches_ram(&ram) && (forall|j: int|
        0 <= j < tiles.len() && j != i ==> !(#[trigger] tiles[j].matches_ram(&ram))) {
        crate::tile::lemma_first_match_unique(tiles, &ram, i);
    }
    let previous = latest_tile(log);
    if let Some(k) = tile_for_ram(tiles, previous.id, &ram) {
        assert(tiles[k].matches_ram(&ram));
    }
}

/// Logs the transition that the read shows, if any, and returns the events logged. `tiles` is
/// the table of known tiles.
pub fn check_for_transitions(
    ram: &SnesRam,
    events: &mut EventTracker,
    time_of_read: i64,
    tiles: &Vec<Tile>,
) -> (emitted: Vec<EventEnum>)
    requires
        has_transition(old(events).events()),
        tiles_readable(tiles@, latest_tile(old(events).events()).id, ram),
    ensures
        match transition_for(tiles@, old(events).events(), ram, time_of_read) {
            Some(t) => {
                &&& final(events).events() == old(events).events().push(EventModel::Transition(t))
                &&& crate::event::event_models(emitted@) == seq![EventModel::Transition(t)]
            },
            None => {
                &&& final(events).events() == old(events).events()
                &&& emitted@.len() == 0
            },
        },
{
    let mut emitted: Vec<EventEnum> = Vec::new();
    let previous_transition = events.latest_transition().unwrap();
    proof {
        assert(latest_tile(events.events()) == previous_transition.model());
    }
    match Tile::try_from_ram(tiles, ram, &previous_transition) {
        Ok(mut current_tile) => {
            if current_tile.name != previous_transition.name {
                current_tile.timestamp = Some(time_of_read);
                let copy = current_tile.deep_clone();
                let e = EventEnum::Transition(current_tile);
                events.push(e);
                emitted.push(EventEnum::Transition(copy));
                assert(crate::event::event_models(emitted@) =~= seq![e.model()]);
            }
        },
        Err(_) => {},
    }
    emitted
}

/// Whether the read shows the objective that starts (or continues) a segment run: a
/// transition into a tile with its name, or a check, item, event or action whose conditions
/// all hold; a location check without conditions also counts when its value changed since the
/// latest read and has a bit of its mask set.
pub open spec fn objective_reached(
    objective: EventModel,
    tiles: Seq<Tile>,
    log: Seq<EventModel>,
    ram: SnesRam,
    history: Seq<SnesRam>,
) -> bool {
    match objective {
        EventModel::Transition(tile) => {
            let previous = latest_tile(log);
            match tile_for_ram(tiles, previous.id, &ram) {
                Some(i) => tiles[i].name@ != previous.name && tiles[i].name@ == tile.name,
                None => false,
            }
        },
        EventModel::LocationCheck(c) => match c.conditions {
            Some(cs) => all_hold(cs, log, ram, history),
            None => {
                let value = ram.byte_at(offset_of(c));
                history.len() > 0 && last_byte(history, offset_of(c)) != value && (value & mask_of(c))
                    != 0
            },
        },
        EventModel::ItemGet(c) | EventModel::Other(c) | EventModel::Action(c) => match c.conditions {
            Some(cs) => all_hold(cs, log, ram, history),
            None => false,
        },
        _ => false,
    }
}

/// The objective can be tested against the read: it is no command or composite, a transition
/// meets a log with a transition and readable tiles, and a check's conditions (or, for a
/// location check without conditions, its address) can be evaluated.
pub open spec fn objective_testable(
    objective: EventModel,
    tiles: Seq<Tile>,
    log: Seq<EventModel>,
    ram: SnesRam,
    history: Seq<SnesRam>,
) -> bool {
    match objective {
        EventModel::Transition(_) => has_transition(log) && tiles_readable(tiles, latest_tile(log).id, &ram),
        EventModel::LocationCheck(c) => match c.conditions {
            Some(cs) => all_safe(cs, log, ram, history),
            None => offset_readable(history, &ram, offset_of(c)),
        },
        EventModel::ItemGet(c) | EventModel::Other(c) | EventModel::Action(c) => match c.conditions {
            Some(cs) => all_safe(cs, log, ram, history),
            None => true,
        },
        _ => false,
    }
}

/// Whether the read shows the given segment objective.
pub fn check_for_segment_run_start(
    ram: &SnesRam,
    ram_history: &mut VecDeque<SnesRam>,
    start_event: &EventEnum,
    events: &EventTracker,
    tiles: &Vec<Tile>,
) -> (reached: bool)
    requires
        objective_testable(start_event.model(), tiles@, events.events(), *ram, old(ram_history)@),
    ensures
        final(ram_history)@ == old(ram_history)@,
        reached == objective_reached(start_event.model(), tiles@, events.events(), *ram, old(ram_history)@),
{
    match start_event {
        EventEnum::Transition(tile) => {
            let previous_transition = events.latest_transition().unwrap();
            proof {
                assert(latest_tile(events.events()) == previous_transition.model());
            }
            match Tile::try_from_ram(tiles, ram, &previous_transition) {
                Ok(current_tile) => current_tile.name != previous_transition.name
                    && current_tile.name == tile.name,
                Err(_) => false,
            }
        },
        EventEnum::LocationCheck(check) => match &check.conditions {
            Some(conditions) => all_conditions_met(conditions, events, ram, ram_history),
            None => {
                let offset = read_offset(check);
                let value = ram.get_byte(offset);
                ram_history.len() > 0 && ram_history[ram_history.len() - 1].get_byte(offset) != value
                    && value & read_mask(check) != 0
            },
        },
        EventEnum::ItemGet(check) | EventEnum::Other(check) | EventEnum::Action(check) => match &check.conditions {
            Some(conditions) => all_conditions_met(conditions, events, ram, ram_history),
            None => false,
        },
        _ => {
            proof {
                assert(false);
            }
            false
        },
    }
}

} // verus!
