//! The log of what happened during a run, and the queries that conditions and statistics make
//! of it.
use crate::check::{Check, CheckModel};
use crate::condition::{Conditions, ConditionsModel, Coordinate, Value, conditions_models};
use crate::tile::{Tile, TileModel};
use vstd::prelude::*;

verus! {

#[derive(Debug, PartialEq)]
pub enum EventEnum {
    Transition(Tile),
    LocationCheck(Check),
    ItemGet(Check),
    Other(Check),
    Action(Check),
    Command(Check),
    Composite((String, Check, Check)),
}

/// The mathematical value of an `EventEnum`.
pub enum EventModel {
    Transition(TileModel),
    LocationCheck(CheckModel),
    ItemGet(CheckModel),
    Other(CheckModel),
    Action(CheckModel),
    Command(CheckModel),
    Composite(Seq<char>, CheckModel, CheckModel),
}

/// The models of a sequence of events.
pub open spec fn event_models(s: Seq<EventEnum>) -> Seq<EventModel> {
    Seq::new(s.len(), |i: int| s[i].model())
}

/// The models of a sequence of checks.
pub open spec fn check_models(s: Seq<Check>) -> Seq<CheckModel> {
    Seq::new(s.len(), |i: int| s[i].model())
}

/// The check that an event of one of the check kinds carries.
pub open spec fn check_of(e: EventModel) -> CheckModel {
    match e {
        EventModel::LocationCheck(c) => c,
        EventModel::ItemGet(c) => c,
        EventModel::Other(c) => c,
        EventModel::Action(c) => c,
        EventModel::Command(c) => c,
        EventModel::Composite(_, c, _) => c,
        EventModel::Transition(_) => crate::check::default_check_model(),
    }
}

impl EventEnum {
    pub open spec fn model(&self) -> EventModel {
        match self {
            EventEnum::Transition(t) => EventModel::Transition(t.model()),
            EventEnum::LocationCheck(c) => EventModel::LocationCheck(c.model()),
            EventEnum::ItemGet(c) => EventModel::ItemGet(c.model()),
            EventEnum::Other(c) => EventModel::Other(c.model()),
            EventEnum::Action(c) => EventModel::Action(c.model()),
            EventEnum::Command(c) => EventModel::Command(c.model()),
            EventEnum::Composite(c) => EventModel::Composite(c.0@, c.1.model(), c.2.model()),
        }
    }

    /// Whether the event can be written as a record: see `recordable`.
    pub fn is_recordable(&self) -> (r: bool)
        ensures
            r == recordable(self.model()),
    {
        match self {
            EventEnum::Transition(t) => t.timestamp.is_some(),
            EventEnum::Composite(_) => false,
            EventEnum::LocationCheck(c) | EventEnum::ItemGet(c) | EventEnum::Other(c)
            | EventEnum::Action(c) | EventEnum::Command(c) => c.time_of_check.is_some(),
        }
    }

    /// A copy with the same model.
    pub fn deep_clone(&self) -> (r: EventEnum)
        ensures
            r.model() == self.model(),
    {
        match self {
            EventEnum::Transition(t) => EventEnum::Transition(t.deep_clone()),
            EventEnum::LocationCheck(c) => EventEnum::LocationCheck(c.deep_clone()),
            EventEnum::ItemGet(c) => EventEnum::ItemGet(c.deep_clone()),
            EventEnum::Other(c) => EventEnum::Other(c.deep_clone()),
            EventEnum::Action(c) => EventEnum::Action(c.deep_clone()),
            EventEnum::Command(c) => EventEnum::Command(c.deep_clone()),
            EventEnum::Composite(c) => EventEnum::Composite(
                (c.0.clone(), c.1.deep_clone(), c.2.deep_clone()),
            ),
        }
    }

    /// The name of the tile or check; for a composite, that of its first check.
    pub open spec fn spec_name(&self) -> Seq<char> {
        match self {
            EventEnum::Transition(t) => t.name@,
            EventEnum::LocationCheck(c) => c.name@,
            EventEnum::ItemGet(c) => c.name@,
            EventEnum::Other(c) => c.name@,
            EventEnum::Action(c) => c.name@,
            EventEnum::Command(c) => c.name@,
            EventEnum::Composite(c) => c.1.name@,
        }
    }

    pub fn name(&self) -> (n: &str)
        ensures
            n@ == self.spec_name(),
    {
        match self {
            EventEnum::Transition(t) => t.name.as_str(),
            EventEnum::LocationCheck(c) => c.name.as_str(),
            EventEnum::ItemGet(c) => c.name.as_str(),
            EventEnum::Other(c) => c.name.as_str(),
            EventEnum::Action(c) => c.name.as_str(),
            EventEnum::Command(c) => c.name.as_str(),
            EventEnum::Composite(c) => c.1.name.as_str(),
        }
    }
}

/// States of the segment recorder.
#[derive(Debug, PartialEq)]
pub enum CommandState {
    StartRecording,
    RecordingInProgress(Check),
    RunStarted(usize),
    SegmentRecorded,
    RunFinished,
    ClearEventLog,
    /// Nothing is being recorded.
    Idle,
}

// ---------------------------------------------------------------------------------------------
// Equality by model
// ---------------------------------------------------------------------------------------------

fn opt_string_equal(a: &Option<String>, b: &Option<String>) -> (r: bool)
    ensures
        r == (crate::check::opt_string_model(*a) == crate::check::opt_string_model(*b)),
{
    match (a, b) {
        (Some(x), Some(y)) => *x == *y,
        (None, None) => true,
        _ => false,
    }
}

fn coordinates_equal(a: &Vec<Coordinate>, b: &Vec<Coordinate>) -> (r:
    bool)
    ensures
        r == (a@ == b@),
{
    if a.len() != b.len() {
        return false;
    }
    let mut i: usize = 0;
    while i < a.len()
        invariant
            i <= a@.len(),
            a@.len() == b@.len(),
            forall|j: int| 0 <= j < i ==> a@[j] == b@[j],
        decreases a@.len() - i,
    {
        if !coordinate_equal(&a[i], &b[i]) {
            return false;
        }
        i = i + 1;
    }
    assert(a@ =~= b@);
    true
}

fn coordinate_equal(a: &Coordinate, b: &Coordinate) -> (r: bool)
    ensures
        r == (*a == *b),
{
    match (a, b) {
        (Coordinate::Pair { x: ax, y: ay }, Coordinate::Pair { x: bx, y: by }) => *ax == *bx && *ay
            == *by,
        (Coordinate::Range { x: ax, y: ay }, Coordinate::Range { x: bx, y: by }) => ax.0 == bx.0
            && ax.1 == bx.1 && ay.0 == by.0 && ay.1 == by.1,
        (Coordinate::Chest { x: ax, y: ay }, Coordinate::Chest { x: bx, y: by }) => *ax == *bx
            && *ay == *by,
        (Coordinate::BigChest { x: ax, y: ay }, Coordinate::BigChest { x: bx, y: by }) => *ax
            == *bx && *ay == *by,
        (Coordinate::Stairs { x: ax, y: ay }, Coordinate::Stairs { x: bx, y: by }) => *ax == *bx
            && *ay == *by,
        _ => false,
    }
}

fn value_equal(a: &Value, b: &Value) -> (r: bool)
    ensures
        r == (*a == *b),
{
    match (a, b) {
        (Value::ValueOfAddress(x), Value::ValueOfAddress(y)) => *x == *y,
        (Value::CheckCount(x), Value::CheckCount(y)) => *x == *y,
        (Value::ItemCount(x), Value::ItemCount(y)) => *x == *y,
        (Value::EventCount(x), Value::EventCount(y)) => *x == *y,
        _ => false,
    }
}

fn transition_condition_equal(
    a: &crate::condition::ConditionTransition,
    b: &crate::condition::ConditionTransition,
) -> (r: bool)
    ensures
        r == (*a == *b),
{
    let same_value = match (a.address_value, b.address_value) {
        (Some(x), Some(y)) => x == y,
        (None, None) => true,
        _ => false,
    };
    let same_indoors = match (a.indoors, b.indoors) {
        (Some(x), Some(y)) => x == y,
        (None, None) => true,
        _ => false,
    };
    a.id == b.id && same_value && same_indoors
}

/// Two conditions have the same model.
pub fn conditions_equal(a: &Conditions, b: &Conditions) -> (r: bool)
    ensures
        r == (a.model() == b.model()),
    decreases a,
{
    match (a, b) {
        (Conditions::PreviousTile(x), Conditions::PreviousTile(y)) => transition_condition_equal(x, y),
        (Conditions::CurrentTile(x), Conditions::CurrentTile(y)) => transition_condition_equal(x, y),
        (Conditions::PreviousEvent { id: x }, Conditions::PreviousEvent { id: y }) => *x == *y,
        (Conditions::Coordinates { coordinates: x }, Conditions::Coordinates { coordinates: y }) =>
            coordinates_equal(x, y),
        (Conditions::Underworld, Conditions::Underworld) => true,
        (
            Conditions::DungeonCounterIncreased { sram_offset: x },
            Conditions::DungeonCounterIncreased { sram_offset: y },
        ) => *x == *y,
        (
            Conditions::BitWiseTrue { sram_offset: xo, sram_mask: xm },
            Conditions::BitWiseTrue { sram_offset: yo, sram_mask: ym },
        ) => *xo == *yo && *xm == *ym,
        (Conditions::ValueChanged { sram_offset: x }, Conditions::ValueChanged { sram_offset: y }) =>
            *x == *y,
        (
            Conditions::ValueEq { sram_offset: xo, sram_value: xv },
            Conditions::ValueEq { sram_offset: yo, sram_value: yv },
        ) => *xo == *yo && *xv == *yv,
        (
            Conditions::ValueGreaterThan { sram_offset: xo, other: xv },
            Conditions::ValueGreaterThan { sram_offset: yo, other: yv },
        ) => *xo == *yo && value_equal(xv, yv),
        (
            Conditions::PreviousValueEq { sram_offset: xo, sram_value: xv },
            Conditions::PreviousValueEq { sram_offset: yo, sram_value: yv },
        ) => *xo == *yo && *xv == *yv,
        (Conditions::Any { subconditions: x }, Conditions::Any { subconditions: y }) => {
            let r = conditions_vec_equal(x, y);
            proof {
                assert(a.model() == (ConditionsModel::Any { subconditions: conditions_models(x@) }));
                assert(b.model() == (ConditionsModel::Any { subconditions: conditions_models(y@) }));
            }
            r
        },
        (Conditions::Not { subconditions: x }, Conditions::Not { subconditions: y }) => {
            let r = conditions_vec_equal(x, y);
            proof {
                assert(a.model() == (ConditionsModel::Not { subconditions: conditions_models(x@) }));
                assert(b.model() == (ConditionsModel::Not { subconditions: conditions_models(y@) }));
            }
            r
        },
        (Conditions::All { subconditions: x }, Conditions::All { subconditions: y }) => {
            let r = conditions_vec_equal(x, y);
            proof {
                assert(a.model() == (ConditionsModel::All { subconditions: conditions_models(x@) }));
                assert(b.model() == (ConditionsModel::All { subconditions: conditions_models(y@) }));
            }
            r
        },
        (Conditions::CheckMade { id: x }, Conditions::CheckMade { id: y }) => *x == *y,
        _ => false,
    }
}

/// Two lists of conditions have the same models.
pub fn conditions_vec_equal(a: &Vec<Conditions>, b: &Vec<Conditions>) -> (r: bool)
    ensures
        r == (conditions_models(a@) == conditions_models(b@)),
    decreases a,
{
    if a.len() != b.len() {
        assert(conditions_models(a@).len() != conditions_models(b@).len());
        return false;
    }
    let mut i: usize = 0;
    while i < a.len()
        invariant
            i <= a@.len(),
            a@.len() == b@.len(),
            forall|j: int| 0 <= j < i ==> #[trigger] a@[j].model() == b@[j].model(),
        decreases a@.len() - i,
    {
        proof {
            broadcast use vstd::std_specs::vec::axiom_vec_index_decreases;
        }
        if !conditions_equal(&a[i], &b[i]) {
            assert(conditions_models(a@)[i as int] != conditions_models(b@)[i as int]);
            return false;
        }
        i = i + 1;
    }
    assert forall|j: int| 0 <= j < a@.len() implies conditions_models(a@)[j] == conditions_models(
        b@,
    )[j] by {
        assert(a@[j].model() == b@[j].model());
    }
    assert(conditions_models(a@) =~= conditions_models(b@));
    true
}

fn opt_conditions_equal(a: &Option<Vec<Conditions>>, b: &Option<Vec<Conditions>>) -> (r: bool)
    ensures
        r == (crate::check::opt_conditions_model(*a) == crate::check::opt_conditions_model(*b)),
{
    match (a, b) {
        (Some(x), Some(y)) => conditions_vec_equal(x, y),
        (None, None) => true,
        _ => false,
    }
}

fn words_equal(a: &Vec<u16>, b: &Vec<u16>) -> (r: bool)
    ensures
        r == (a@ == b@),
{
    if a.len() != b.len() {
        return false;
    }
    let mut i: usize = 0;
    while i < a.len()
        invariant
            i <= a@.len(),
            a@.len() == b@.len(),
            forall|j: int| 0 <= j < i ==> a@[j] == b@[j],
        decreases a@.len() - i,
    {
        if a[i] != b[i] {
            return false;
        }
        i = i + 1;
    }
    assert(a@ =~= b@);
    true
}

/// Two checks have the same model.
pub fn check_equal(a: &Check, b: &Check) -> (r: bool)
    ensures
        r == (a.model() == b.model()),
{
    a.id == b.id && a.name == b.name && a.sram_offset == b.sram_offset && a.sram_mask
        == b.sram_mask && a.is_checked == b.is_checked && a.time_of_check == b.time_of_check
        && opt_string_equal(&a.item, &b.item) && a.is_progressive == b.is_progressive
        && a.progressive_level == b.progressive_level && a.snes_value == b.snes_value && a.is_item
        == b.is_item && opt_conditions_equal(&a.conditions, &b.conditions)
}

/// Two tiles have the same model.
pub fn tile_equal(a: &Tile, b: &Tile) -> (r: bool)
    ensures
        r == (a.model() == b.model()),
{
    a.id == b.id && a.name == b.name && words_equal(&a.address_value, &b.address_value)
        && a.timestamp == b.timestamp && a.indoors == b.indoors && opt_conditions_equal(
        &a.conditions,
        &b.conditions,
    ) && a.region == b.region
}

/// Two events have the same model.
pub fn event_equal(a: &EventEnum, b: &EventEnum) -> (r: bool)
    ensures
        r == (a.model() == b.model()),
{
    match (a, b) {
        (EventEnum::Transition(x), EventEnum::Transition(y)) => tile_equal(x, y),
        (EventEnum::LocationCheck(x), EventEnum::LocationCheck(y)) => check_equal(x, y),
        (EventEnum::ItemGet(x), EventEnum::ItemGet(y)) => check_equal(x, y),
        (EventEnum::Other(x), EventEnum::Other(y)) => check_equal(x, y),
        (EventEnum::Action(x), EventEnum::Action(y)) => check_equal(x, y),
        (EventEnum::Command(x), EventEnum::Command(y)) => check_equal(x, y),
        (EventEnum::Composite(x), EventEnum::Composite(y)) => x.0 == y.0 && check_equal(&x.1, &y.1)
            && check_equal(&x.2, &y.2),
        _ => false,
    }
}


// ---------------------------------------------------------------------------------------------
// Searching the log
// ---------------------------------------------------------------------------------------------

/// `k` is the last position in `log` whose event satisfies `p`.
pub open spec fn is_last_where(log: Seq<EventModel>, p: spec_fn(EventModel) -> bool, k: int) -> bool {
    &&& 0 <= k < log.len()
    &&& p(log[k])
    &&& forall|j: int| k < j < log.len() ==> !p(#[trigger] log[j])
}

/// The last position in `log` whose event satisfies `p`, if there is one.
pub open spec fn last_where(log: Seq<EventModel>, p: spec_fn(EventModel) -> bool) -> Option<int> {
    if exists|k: int| is_last_where(log, p, k) {
        Some(choose|k: int| is_last_where(log, p, k))
    } else {
        None
    }
}

/// `k` is the first position in `log` whose event satisfies `p`.
pub open spec fn is_first_where(log: Seq<EventModel>, p: spec_fn(EventModel) -> bool, k: int) -> bool {
    &&& 0 <= k < log.len()
    &&& p(log[k])
    &&& forall|j: int| 0 <= j < k ==> !p(#[trigger] log[j])
}

/// The first position in `log` whose event satisfies `p`, if there is one.
pub open spec fn first_where(log: Seq<EventModel>, p: spec_fn(EventModel) -> bool) -> Option<int> {
    if exists|k: int| is_first_where(log, p, k) {
        Some(choose|k: int| is_first_where(log, p, k))
    } else {
        None
    }
}

pub proof fn lemma_last_where_found(log: Seq<EventModel>, p: spec_fn(EventModel) -> bool, k: int)
    requires
        is_last_where(log, p, k),
    ensures
        last_where(log, p) == Some(k),
{
    let c = choose|c: int| is_last_where(log, p, c);
    if c < k {
        assert(!p(log[k]));
    }
    if c > k {
        assert(!p(log[c]));
    }
}

pub proof fn lemma_last_where_none(log: Seq<EventModel>, p: spec_fn(EventModel) -> bool)
    requires
        forall|j: int| 0 <= j < log.len() ==> !p(#[trigger] log[j]),
    ensures
        last_where(log, p) is None,
{
}

pub proof fn lemma_first_where_found(log: Seq<EventModel>, p: spec_fn(EventModel) -> bool, k: int)
    requires
        is_first_where(log, p, k),
    ensures
        first_where(log, p) == Some(k),
{
    let c = choose|c: int| is_first_where(log, p, c);
    if c < k {
        assert(!p(log[c]));
    }
    if c > k {
        assert(!p(log[k]));
    }
}

pub proof fn lemma_first_where_none(log: Seq<EventModel>, p: spec_fn(EventModel) -> bool)
    requires
        forall|j: int| 0 <= j < log.len() ==> !p(#[trigger] log[j]),
    ensures
        first_where(log, p) is None,
{
}

pub open spec fn transitions() -> spec_fn(EventModel) -> bool {
    |e: EventModel| is_transition(e)
}

pub open spec fn is_transition(e: EventModel) -> bool {
    e is Transition
}

pub open spec fn location_checks() -> spec_fn(EventModel) -> bool {
    |e: EventModel| is_location_check(e)
}

pub open spec fn is_location_check(e: EventModel) -> bool {
    e is LocationCheck
}

pub open spec fn item_gets() -> spec_fn(EventModel) -> bool {
    |e: EventModel| is_item_get(e)
}

pub open spec fn is_item_get(e: EventModel) -> bool {
    e is ItemGet
}

pub open spec fn other_events() -> spec_fn(EventModel) -> bool {
    |e: EventModel| is_other(e)
}

pub open spec fn is_other(e: EventModel) -> bool {
    e is Other
}

pub open spec fn actions() -> spec_fn(EventModel) -> bool {
    |e: EventModel| is_action(e)
}

pub open spec fn is_action(e: EventModel) -> bool {
    e is Action
}

/// Transitions, location checks, item pickups and other events: what a segment is made of.
pub open spec fn objectives() -> spec_fn(EventModel) -> bool {
    |e: EventModel| is_objective(e)
}

pub open spec fn is_objective(e: EventModel) -> bool {
    e is Transition || e is LocationCheck || e is ItemGet || e is Other
}

/// Everything but actions and commands.
pub open spec fn is_kept_between(e: EventModel) -> bool {
    !(e is Action || e is Command)
}

pub open spec fn is_other_with(id: usize) -> spec_fn(EventModel) -> bool {
    |e: EventModel| e is Other && check_of(e).id == id
}

pub open spec fn is_location_check_with(id: usize) -> spec_fn(EventModel) -> bool {
    |e: EventModel| e is LocationCheck && check_of(e).id == id
}

pub open spec fn is_item_get_with(id: usize) -> spec_fn(EventModel) -> bool {
    |e: EventModel| e is ItemGet && check_of(e).id == id
}

pub open spec fn is_command_with(id: usize) -> spec_fn(EventModel) -> bool {
    |e: EventModel| e is Command && check_of(e).id == id
}

pub open spec fn equals_event(x: EventModel) -> spec_fn(EventModel) -> bool {
    |e: EventModel| e == x
}

/// The checks of the events of `log` that satisfy `p`, in log order.
pub open spec fn checks_where(log: Seq<EventModel>, p: spec_fn(EventModel) -> bool) -> Seq<CheckModel>
    decreases log.len(),
{
    if log.len() == 0 {
        Seq::empty()
    } else if p(log.last()) {
        checks_where(log.drop_last(), p).push(check_of(log.last()))
    } else {
        checks_where(log.drop_last(), p)
    }
}

/// The events of `s` that are neither actions nor commands, in order.
pub open spec fn kept_between(s: Seq<EventModel>) -> Seq<EventModel>
    decreases s.len(),
{
    if s.len() == 0 {
        Seq::empty()
    } else if is_kept_between(s.last()) {
        kept_between(s.drop_last()).push(s.last())
    } else {
        kept_between(s.drop_last())
    }
}

/// From the first event equal to `start` on (nothing when there is none), the events that are
/// neither actions nor commands; with an `end`, only those before the first of them equal to
/// `end`.
pub open spec fn spec_objectives_between(
    log: Seq<EventModel>,
    start: EventModel,
    end: Option<EventModel>,
) -> Seq<EventModel> {
    let tail = match first_where(log, equals_event(start)) {
        Some(k) => log.subrange(k, log.len() as int),
        None => Seq::empty(),
    };
    let kept = kept_between(tail);
    match end {
        Some(e) => match first_where(kept, equals_event(e)) {
            Some(m) => kept.take(m),
            None => kept,
        },
        None => kept,
    }
}

/// No composite comes after the last objective of the log (or anywhere, when there is no
/// objective): the search for the latest objective meets none.
pub open spec fn objective_search_defined(log: Seq<EventModel>) -> bool {
    forall|j: int|
        0 <= j < log.len() && (match last_where(log, objectives()) {
            Some(k) => k < j,
            None => true,
        }) ==> !(#[trigger] log[j] is Composite)
}

/// The log holds a transition.
pub open spec fn has_transition(log: Seq<EventModel>) -> bool {
    exists|j: int| 0 <= j < log.len() && (#[trigger] log[j]) is Transition
}

/// A log that holds a transition still does after more events are appended.
pub proof fn lemma_has_transition_extend(log: Seq<EventModel>, more: Seq<EventModel>)
    requires
        has_transition(log),
    ensures
        has_transition(log + more),
{
    let j = choose|j: int| 0 <= j < log.len() && (#[trigger] log[j]) is Transition;
    assert((log + more)[j] == log[j]);
}

/// The log that a tracker starts with: the start transition, `AUTO_TIMER_START`, stamped with
/// `time`.
pub open spec fn start_log(time: i64) -> Seq<EventModel> {
    seq![
        EventModel::Transition(
            TileModel {
                id: 9000,
                name: "AUTO_TIMER_START"@,
                address_value: seq![0u16],
                timestamp: Some(time),
                indoors: false,
                conditions: None,
                region: "START"@,
            },
        ),
    ]
}

/// The log of events of a run.
pub struct EventTracker {
    log: Vec<EventEnum>,
}

impl EventTracker {
    /// The models of the logged events, oldest first.
    pub closed spec fn events(&self) -> Seq<EventModel> {
        event_models(self.log@)
    }

    /// A log holding only the start transition, `AUTO_TIMER_START` (id 9000, address value 0,
    /// outdoors, region `START`), stamped with the current time; the first transition check
    /// needs a transition to compare to.
    pub fn new() -> (t: Self)
        ensures
            exists|time: i64| t.events() == start_log(time),
            t.events().len() == 1,
            t.events()[0] matches EventModel::Transition(start) && start.id == 9000 && start.name
                == "AUTO_TIMER_START"@ && start.address_value == seq![0u16] && start.timestamp is Some
                && !start.indoors && start.conditions is None && start.region == "START"@,
    {
        EventTracker::starting_at(crate::clock::now_millis())
    }

    /// A log holding only the start transition, stamped with `time`.
    pub fn starting_at(time: i64) -> (t: Self)
        ensures
            t.events() == start_log(time),
    {
        let mut address_value: Vec<u16> = Vec::new();
        address_value.push(0);
        let start = Tile {
            id: 9000,
            name: String::from_str("AUTO_TIMER_START"),
            address_value,
            timestamp: Some(time),
            indoors: false,
            conditions: None,
            region: String::from_str("START"),
        };
        let mut log: Vec<EventEnum> = Vec::new();
        log.push(EventEnum::Transition(start));
        let t = EventTracker { log };
        assert(t.events()[0] == log@[0].model());
        assert(start.address_value@ =~= seq![0u16]);
        assert(t.events() =~= start_log(time));
        t
    }

    pub fn push(&mut self, event: EventEnum)
        ensures
            final(self).events() == old(self).events().push(event.model()),
    {
        let ghost before = self.log@;
        self.log.push(event);
        assert(event_models(self.log@) =~= event_models(before).push(event.model()));
    }
}

impl From<Vec<EventEnum>> for EventTracker {
    fn from(log: Vec<EventEnum>) -> (t: Self)
        ensures
            t.events() == event_models(log@),
    {
        EventTracker { log }
    }
}

impl vstd::std_specs::convert::FromSpecImpl<Vec<EventEnum>> for EventTracker {
    open spec fn obeys_from_spec() -> bool {
        false
    }

    closed spec fn from_spec(v: Vec<EventEnum>) -> Self {
        EventTracker { log: v }
    }
}

/// Queries of the event log.
pub trait EventLog {
    /// The models of the logged events, oldest first.
    spec fn log_models(&self) -> Seq<EventModel>;

    fn latest_transition(&self) -> Option<Tile>;

    fn latest_location_check(&self) -> Option<Check>;

    fn latest_item_get(&self) -> Option<Check>;

    fn latest_other_event(&self) -> Option<Check>;

    fn latest_action(&self) -> Option<Check>;

    fn latest_objective(&self) -> Option<EventEnum>
        requires
            objective_search_defined(self.log_models()),
    ;

    fn objectives_between(&self, start: EventEnum, end: Option<EventEnum>) -> Vec<EventEnum>;

    fn find_other_event(&self, id: usize) -> Option<Check>;

    fn find_location_check(&self, id: usize) -> Option<Check>;

    fn find_latest_command_by(&self, id: usize) -> Option<Check>;

    fn others_with_id(&self, id: usize) -> Vec<Check>;

    fn items_with_id(&self, id: usize) -> Vec<Check>;

    fn location_checks_with_id(&self, id: usize) -> Vec<Check>;
}

/// The check of the latest event satisfying `p`, copied.
pub open spec fn latest_check_result(log: Seq<EventModel>, p: spec_fn(EventModel) -> bool, r: Option<Check>) -> bool {
    match last_where(log, p) {
        Some(k) => r matches Some(c) && c.model() == check_of(log[k]),
        None => r is None,
    }
}

/// The check of the first event satisfying `p`, copied.
pub open spec fn first_check_result(log: Seq<EventModel>, p: spec_fn(EventModel) -> bool, r: Option<Check>) -> bool {
    match first_where(log, p) {
        Some(k) => r matches Some(c) && c.model() == check_of(log[k]),
        None => r is None,
    }
}

fn event_check(e: &EventEnum) -> (c: Option<&Check>)
    ensures
        c is Some <==> !(e is Transition),
        c matches Some(c) ==> c.model() == check_of(e.model()),
{
    match e {
        EventEnum::LocationCheck(c) => Some(c),
        EventEnum::ItemGet(c) => Some(c),
        EventEnum::Other(c) => Some(c),
        EventEnum::Action(c) => Some(c),
        EventEnum::Command(c) => Some(c),
        EventEnum::Composite(c) => Some(&c.1),
        EventEnum::Transition(_) => None,
    }
}

/// Whether an event is of the kind selected by `kind`: 0 transition, 1 location check, 2 item
/// pickup, 3 other event, 4 action, 5 command; with `id`, it must also carry a check with
/// that id.
pub open spec fn kind_matches(e: EventModel, kind: u8, id: Option<usize>) -> bool {
    &&& match kind {
        0 => e is Transition,
        1 => e is LocationCheck,
        2 => e is ItemGet,
        3 => e is Other,
        4 => e is Action,
        _ => e is Command,
    }
    &&& match id {
        Some(i) => check_of(e).id == i,
        None => true,
    }
}

pub open spec fn of_kind(kind: u8, id: Option<usize>) -> spec_fn(EventModel) -> bool {
    |e: EventModel| kind_matches(e, kind, id)
}

fn test_kind(e: &EventEnum, kind: u8, id: Option<usize>) -> (m: bool)
    requires
        kind <= 5,
        kind == 0 ==> id is None,
    ensures
        m == kind_matches(e.model(), kind, id),
{
    let k = match e {
        EventEnum::Transition(_) => kind == 0,
        EventEnum::LocationCheck(_) => kind == 1,
        EventEnum::ItemGet(_) => kind == 2,
        EventEnum::Other(_) => kind == 3,
        EventEnum::Action(_) => kind == 4,
        EventEnum::Command(_) => kind == 5,
        EventEnum::Composite(_) => false,
    };
    if !k {
        return false;
    }
    match id {
        Some(i) => event_check(e).unwrap().id == i,
        None => true,
    }
}

impl EventTracker {
    /// Index of the latest event of the given kind (and id), searching from the end.
    fn last_index(&self, kind: u8, id: Option<usize>) -> (r: Option<usize>)
        requires
            kind <= 5,
            kind == 0 ==> id is None,
        ensures
            match last_where(self.events(), of_kind(kind, id)) {
                Some(k) => r == Some(k as usize),
                None => r is None,
            },
            r matches Some(k) ==> k < self.log@.len() && kind_matches(self.events()[k as int], kind, id)
                && is_last_where(self.events(), of_kind(kind, id), k as int),
            r is None ==> forall|j: int| 0 <= j < self.events().len() ==> !of_kind(kind, id)(#[trigger] self.events()[j]),
    {
        let ghost p = of_kind(kind, id);
        let mut i: usize = self.log.len();
        while i > 0
            invariant
                i <= self.log@.len(),
                kind <= 5,
                kind == 0 ==> id is None,
                p == of_kind(kind, id),
                forall|j: int| i <= j < self.log@.len() ==> !p(#[trigger] self.events()[j]),
            decreases i,
        {
            i = i - 1;
            assert(self.events()[i as int] == self.log@[i as int].model());
            if test_kind(&self.log[i], kind, id) {
                proof {
                    lemma_last_where_found(self.events(), p, i as int);
                }
                return Some(i);
            }
        }
        proof {
            lemma_last_where_none(self.events(), p);
        }
        None
    }

    /// Index of the first event of the given kind (and id).
    fn first_index(&self, kind: u8, id: Option<usize>) -> (r: Option<usize>)
        requires
            kind <= 5,
            kind == 0 ==> id is None,
        ensures
            match first_where(self.events(), of_kind(kind, id)) {
                Some(k) => r == Some(k as usize),
                None => r is None,
            },
            r matches Some(k) ==> k < self.log@.len() && kind_matches(self.events()[k as int], kind, id)
                && is_first_where(self.events(), of_kind(kind, id), k as int),
            r is None ==> forall|j: int| 0 <= j < self.events().len() ==> !of_kind(kind, id)(#[trigger] self.events()[j]),
    {
        let ghost p = of_kind(kind, id);
        let mut i: usize = 0;
        while i < self.log.len()
            invariant
                i <= self.log@.len(),
                kind <= 5,
                kind == 0 ==> id is None,
                p == of_kind(kind, id),
                forall|j: int| 0 <= j < i ==> !p(#[trigger] self.events()[j]),
            decreases self.log@.len() - i,
        {
            assert(self.events()[i as int] == self.log@[i as int].model());
            if test_kind(&self.log[i], kind, id) {
                proof {
                    lemma_first_where_found(self.events(), p, i as int);
                }
                return Some(i);
            }
            i = i + 1;
        }
        proof {
            lemma_first_where_none(self.events(), p);
        }
        None
    }

    /// Copies of the checks of all events of the given kind and id, in log order.
    fn checks_with(&self, kind: u8, id: usize) -> (r: Vec<Check>)
        requires
            1 <= kind <= 5,
        ensures
            check_models(r@) == checks_where(self.events(), of_kind(kind, Some(id))),
    {
        let ghost p = of_kind(kind, Some(id));
        let mut out: Vec<Check> = Vec::new();
        let mut i: usize = 0;
        while i < self.log.len()
            invariant
                i <= self.log@.len(),
                1 <= kind <= 5,
                p == of_kind(kind, Some(id)),
                check_models(out@) == checks_where(self.events().take(i as int), p),
            decreases self.log@.len() - i,
        {
            let ghost before = out@;
            assert(self.events().take(i + 1).drop_last() =~= self.events().take(i as int));
            assert(self.events()[i as int] == self.log@[i as int].model());
            if test_kind(&self.log[i], kind, Some(id)) {
                let c = event_check(&self.log[i]).unwrap().deep_clone();
                out.push(c);
                assert(check_models(out@) =~= check_models(before).push(c.model()));
            }
            i = i + 1;
        }
        assert(self.events().take(self.log@.len() as int) =~= self.events());
        out
    }
}

impl EventLog for EventTracker {
    open spec fn log_models(&self) -> Seq<EventModel> {
        self.events()
    }

    fn latest_transition(&self) -> (r: Option<Tile>)
        ensures
            match last_where(self.events(), transitions()) {
                Some(k) => r matches Some(t) && self.events()[k] == EventModel::Transition(t.model()),
                None => r is None,
            },
            r is Some <==> has_transition(self.events()),
    {
        let found = self.last_index(0, None);
        assert(of_kind(0, None) =~= transitions());
        proof {
            match found {
                Some(k) => lemma_last_where_found(self.events(), transitions(), k as int),
                None => lemma_last_where_none(self.events(), transitions()),
            }
        }
        match found {
            Some(k) => {
                assert(self.events()[k as int] == self.log@[k as int].model());
                match &self.log[k] {
                    EventEnum::Transition(t) => Some(t.deep_clone()),
                    _ => {
                        proof {
                            assert(false);
                        }
                        None
                    },
                }
            },
            None => None,
        }
    }

    fn latest_location_check(&self) -> (r: Option<Check>)
        ensures
            latest_check_result(self.events(), location_checks(), r),
    {
        let found = self.last_index(1, None);
        assert(of_kind(1, None) =~= location_checks());
        proof {
            match found {
                Some(k) => lemma_last_where_found(self.events(), location_checks(), k as int),
                None => lemma_last_where_none(self.events(), location_checks()),
            }
        }
        match found {
            Some(k) => {
                assert(self.events()[k as int] == self.log@[k as int].model());
                Some(event_check(&self.log[k]).unwrap().deep_clone())
            },
            None => None,
        }
    }

    fn latest_item_get(&self) -> (r: Option<Check>)
        ensures
            latest_check_result(self.events(), item_gets(), r),
    {
        let found = self.last_index(2, None);
        assert(of_kind(2, None) =~= item_gets());
        proof {
            match found {
                Some(k) => lemma_last_where_found(self.events(), item_gets(), k as int),
                None => lemma_last_where_none(self.events(), item_gets()),
            }
        }
        match found {
            Some(k) => {
                assert(self.events()[k as int] == self.log@[k as int].model());
                Some(event_check(&self.log[k]).unwrap().deep_clone())
            },
            None => None,
        }
    }

    fn latest_other_event(&self) -> (r: Option<Check>)
        ensures
            latest_check_result(self.events(), other_events(), r),
    {
        let found = self.last_index(3, None);
        assert(of_kind(3, None) =~= other_events());
        proof {
            match found {
                Some(k) => lemma_last_where_found(self.events(), other_events(), k as int),
                None => lemma_last_where_none(self.events(), other_events()),
            }
        }
        match found {
            Some(k) => {
                assert(self.events()[k as int] == self.log@[k as int].model());
                Some(event_check(&self.log[k]).unwrap().deep_clone())
            },
            None => None,
        }
    }

    fn latest_action(&self) -> (r: Option<Check>)
        ensures
            latest_check_result(self.events(), actions(), r),
    {
        let found = self.last_index(4, None);
        assert(of_kind(4, None) =~= actions());
        proof {
            match found {
                Some(k) => lemma_last_where_found(self.events(), actions(), k as int),
                None => lemma_last_where_none(self.events(), actions()),
            }
        }
        match found {
            Some(k) => {
                assert(self.events()[k as int] == self.log@[k as int].model());
                Some(event_check(&self.log[k]).unwrap().deep_clone())
            },
            None => None,
        }
    }

    fn latest_objective(&self) -> (r: Option<EventEnum>)
        ensures
            match last_where(self.events(), objectives()) {
                Some(k) => r matches Some(e) && e.model() == self.events()[k],
                None => r is None,
            },
    {
        let ghost p = objectives();
        let mut i: usize = self.log.len();
        while i > 0
            invariant
                i <= self.log@.len(),
                p == (objectives()),
                forall|j: int| i <= j < self.log@.len() ==> !p(#[trigger] self.events()[j]),
            decreases i,
        {
            i = i - 1;
            assert(self.events()[i as int] == self.log@[i as int].model());
            let hit = match &self.log[i] {
                EventEnum::Transition(_) => true,
                EventEnum::LocationCheck(_) => true,
                EventEnum::ItemGet(_) => true,
                EventEnum::Other(_) => true,
                _ => false,
            };
            if hit {
                proof {
                    lemma_last_where_found(self.events(), p, i as int);
                }
                return Some(self.log[i].deep_clone());
            }
        }
        proof {
            lemma_last_where_none(self.events(), p);
        }
        None
    }

    fn objectives_between(&self, start: EventEnum, end: Option<EventEnum>) -> (r: Vec<EventEnum>)
        ensures
            event_models(r@) == spec_objectives_between(
                self.events(),
                start.model(),
                match end {
                    Some(e) => Some(e.model()),
                    None => None,
                },
            ),
    {
        let ghost log = self.events();
        let ghost ps = equals_event(start.model());
        // Skip up to the first event equal to `start`.
        let mut k: usize = 0;
        while k < self.log.len() && !event_equal(&self.log[k], &start)
            invariant
                k <= self.log@.len(),
                log == self.events(),
                ps == equals_event(start.model()),
                forall|j: int| 0 <= j < k ==> !ps(#[trigger] log[j]),
            decreases self.log@.len() - k,
        {
            assert(log[k as int] == self.log@[k as int].model());
            k = k + 1;
        }
        let ghost tail: Seq<EventModel> = if k < self.log@.len() {
            log.subrange(k as int, log.len() as int)
        } else {
            Seq::empty()
        };
        proof {
            if k < self.log@.len() {
                assert(log[k as int] == self.log@[k as int].model());
                lemma_first_where_found(log, ps, k as int);
            } else {
                lemma_first_where_none(log, ps);
            }
        }
        // Keep everything but actions and commands.
        let mut kept: Vec<EventEnum> = Vec::new();
        let mut i: usize = k;
        while i < self.log.len()
            invariant
                k <= i <= self.log@.len(),
                log == self.events(),
                event_models(kept@) == kept_between(log.subrange(k as int, i as int)),
            decreases self.log@.len() - i,
        {
            let ghost before = kept@;
            assert(log.subrange(k as int, i + 1).drop_last() =~= log.subrange(k as int, i as int));
            assert(log[i as int] == self.log@[i as int].model());
            let keep = match &self.log[i] {
                EventEnum::Action(_) => false,
                EventEnum::Command(_) => false,
                _ => true,
            };
            if keep {
                let e = self.log[i].deep_clone();
                kept.push(e);
                assert(event_models(kept@) =~= event_models(before).push(e.model()));
            }
            i = i + 1;
        }
        assert(tail =~= log.subrange(k as int, log.len() as int) || k == log.len());
        if k == self.log.len() {
            assert(log.subrange(k as int, k as int) =~= Seq::<EventModel>::empty());
        }
        assert(event_models(kept@) == kept_between(tail));
        match end {
            None => kept,
            Some(end) => {
                let ghost kept_models = event_models(kept@);
                let ghost pe = equals_event(end.model());
                let mut m: usize = 0;
                while m < kept.len() && !event_equal(&kept[m], &end)
                    invariant
                        m <= kept@.len(),
                        kept_models == event_models(kept@),
                        pe == equals_event(end.model()),
                        forall|j: int| 0 <= j < m ==> !pe(#[trigger] kept_models[j]),
                    decreases kept@.len() - m,
                {
                    assert(kept_models[m as int] == kept@[m as int].model());
                    m = m + 1;
                }
                if m < kept.len() {
                    assert(kept_models[m as int] == kept@[m as int].model());
                    proof {
                        lemma_first_where_found(kept_models, pe, m as int);
                    }
                    let ghost full = kept@;
                    kept.truncate(m);
                    assert(event_models(kept@) =~= kept_models.take(m as int));
                } else {
                    proof {
                        lemma_first_where_none(kept_models, pe);
                    }
                }
                kept
            },
        }
    }

    fn find_other_event(&self, id: usize) -> (r: Option<Check>)
        ensures
            first_check_result(self.events(), is_other_with(id), r),
    {
        let found = self.first_index(3, Some(id));
        assert(of_kind(3, Some(id)) =~= is_other_with(id));
        proof {
            match found {
                Some(k) => lemma_first_where_found(self.events(), is_other_with(id), k as int),
                None => lemma_first_where_none(self.events(), is_other_with(id)),
            }
        }
        match found {
            Some(k) => {
                assert(self.events()[k as int] == self.log@[k as int].model());
                Some(event_check(&self.log[k]).unwrap().deep_clone())
            },
            None => None,
        }
    }

    fn find_location_check(&self, id: usize) -> (r: Option<Check>)
        ensures
            first_check_result(self.events(), is_location_check_with(id), r),
    {
        let found = self.first_index(1, Some(id));
        assert(of_kind(1, Some(id)) =~= is_location_check_with(id));
        proof {
            match found {
                Some(k) => lemma_first_where_found(self.events(), is_location_check_with(id), k as int),
                None => lemma_first_where_none(self.events(), is_location_check_with(id)),
            }
        }
        match found {
            Some(k) => {
                assert(self.events()[k as int] == self.log@[k as int].model());
                Some(event_check(&self.log[k]).unwrap().deep_clone())
            },
            None => None,
        }
    }

    fn find_latest_command_by(&self, id: usize) -> (r: Option<Check>)
        ensures
            latest_check_result(self.events(), is_command_with(id), r),
    {
        let found = self.last_index(5, Some(id));
        assert(of_kind(5, Some(id)) =~= is_command_with(id));
        proof {
            match found {
                Some(k) => lemma_last_where_found(self.events(), is_command_with(id), k as int),
                None => lemma_last_where_none(self.events(), is_command_with(id)),
            }
        }
        match found {
            Some(k) => {
                assert(self.events()[k as int] == self.log@[k as int].model());
                Some(event_check(&self.log[k]).unwrap().deep_clone())
            },
            None => None,
        }
    }

    fn others_with_id(&self, id: usize) -> (r: Vec<Check>)
        ensures
            check_models(r@) == checks_where(self.events(), is_other_with(id)),
    {
        assert(of_kind(3, Some(id)) =~= is_other_with(id));
        self.checks_with(3, id)
    }

    fn items_with_id(&self, id: usize) -> (r: Vec<Check>)
        ensures
            check_models(r@) == checks_where(self.events(), is_item_get_with(id)),
    {
        assert(of_kind(2, Some(id)) =~= is_item_get_with(id));
        self.checks_with(2, id)
    }

    fn location_checks_with_id(&self, id: usize) -> (r: Vec<Check>)
        ensures
            check_models(r@) == checks_where(self.events(), is_location_check_with(id)),
    {
        assert(of_kind(1, Some(id)) =~= is_location_check_with(id));
        self.checks_with(1, id)
    }
}


// ---------------------------------------------------------------------------------------------
// Compacting a segment
// ---------------------------------------------------------------------------------------------

/// Location checks, item pickups and other events.
pub open spec fn is_check_event(e: EventModel) -> bool {
    e is LocationCheck || e is ItemGet || e is Other
}

/// One step of compacting: commands are dropped; a check event made at the same time as the
/// check event just before it replaces that one with a composite of both, named
/// "<first> & <second>"; any other event is kept. The second component is the latest check
/// event, which actions, transitions and composites forget.
pub open spec fn compact_step(
    state: (Seq<EventModel>, Option<CheckModel>),
    e: EventModel,
) -> (Seq<EventModel>, Option<CheckModel>) {
    if e is Command {
        state
    } else if is_check_event(e) {
        let c = check_of(e);
        match state.1 {
            Some(pc) => if pc.time_of_check == c.time_of_check {
                (
                    state.0.drop_last().push(
                        EventModel::Composite(pc.name + " & "@ + c.name, pc, c),
                    ),
                    Some(c),
                )
            } else {
                (state.0.push(e), Some(c))
            },
            None => (state.0.push(e), Some(c)),
        }
    } else {
        (state.0.push(e), None)
    }
}

/// Compacting the events in order.
pub open spec fn compact_fold(s: Seq<EventModel>) -> (Seq<EventModel>, Option<CheckModel>)
    decreases s.len(),
{
    if s.len() == 0 {
        (Seq::empty(), None)
    } else {
        compact_step(compact_fold(s.drop_last()), s.last())
    }
}

/// Every check event that follows another check event carries a time, and so does the one it
/// follows: these are the times that compacting compares.
pub open spec fn compact_defined(s: Seq<EventModel>) -> bool {
    forall|i: int|
        0 <= i < s.len() && is_check_event(#[trigger] s[i]) && compact_fold(s.take(i)).1 is Some
            ==> compact_fold(s.take(i)).1->0.time_of_check is Some && check_of(s[i]).time_of_check is Some
}

/// While compacting, a remembered check event is the last one kept.
proof fn lemma_compact_fold_nonempty(s: Seq<EventModel>)
    ensures
        compact_fold(s).1 is Some ==> compact_fold(s).0.len() > 0,
    decreases s.len(),
{
    if s.len() > 0 {
        lemma_compact_fold_nonempty(s.drop_last());
    }
}

/// Compacting drops every command: none is left in the result.
pub proof fn law_compact_drops_commands(s: Seq<EventModel>)
    ensures
        forall|i: int| 0 <= i < compact_fold(s).0.len() ==> !(#[trigger] compact_fold(s).0[i] is Command),
    decreases s.len(),
{
    if s.len() > 0 {
        law_compact_drops_commands(s.drop_last());
        let st = compact_fold(s.drop_last());
        let prev = st.0;
        let out = compact_fold(s).0;
        let e = s.last();
        lemma_compact_fold_nonempty(s.drop_last());
        if !(e is Command) {
            let merged = is_check_event(e) && st.1 is Some && st.1->0.time_of_check == check_of(
                e,
            ).time_of_check;
            if merged {
                assert(out == prev.drop_last().push(
                    EventModel::Composite(st.1->0.name + " & "@ + check_of(e).name, st.1->0, check_of(e)),
                ));
            } else {
                assert(out == prev.push(e));
            }
            assert forall|i: int| 0 <= i < out.len() implies !(#[trigger] out[i] is Command) by {
                if i < out.len() - 1 {
                    assert(out[i] == prev[i]);
                }
            }
        }
    }
}


/// A log that compacting leaves as it is: it holds no command, and no check event directly
/// follows another made at the same time.
pub open spec fn compacted(s: Seq<EventModel>) -> bool {
    &&& forall|i: int| 0 <= i < s.len() ==> !(#[trigger] s[i] is Command)
    &&& forall|i: int|
        0 < i < s.len() && is_check_event(#[trigger] s[i]) && is_check_event(s[i - 1])
            ==> check_of(s[i - 1]).time_of_check != check_of(s[i]).time_of_check
}

/// The check of the last event, when that is a check event.
pub open spec fn last_check(s: Seq<EventModel>) -> Option<CheckModel> {
    if s.len() > 0 && is_check_event(s.last()) {
        Some(check_of(s.last()))
    } else {
        None
    }
}

proof fn lemma_compacted_prefix(s: Seq<EventModel>)
    requires
        compacted(s),
        s.len() > 0,
    ensures
        compacted(s.drop_last()),
{
    let p = s.drop_last();
    assert forall|i: int| 0 < i < p.len() && is_check_event(#[trigger] p[i]) && is_check_event(p[i - 1])
        implies check_of(p[i - 1]).time_of_check != check_of(p[i]).time_of_check by {
        assert(p[i] == s[i] && p[i - 1] == s[i - 1]);
    }
    assert forall|i: int| 0 <= i < p.len() implies !(#[trigger] p[i] is Command) by {
        assert(p[i] == s[i]);
    }
}

/// Compacting goes through a compacted log keeping every event.
proof fn lemma_compact_fold_of_compacted(s: Seq<EventModel>)
    requires
        compacted(s),
    ensures
        compact_fold(s) == (s, last_check(s)),
    decreases s.len(),
{
    if s.len() > 0 {
        let p = s.drop_last();
        lemma_compacted_prefix(s);
        lemma_compact_fold_of_compacted(p);
        let e = s.last();
        assert(!(s[s.len() - 1] is Command));
        if is_check_event(e) && p.len() > 0 && is_check_event(p.last()) {
            assert(s[s.len() - 2] == p.last());
            assert(is_check_event(s[s.len() - 1]));
        }
        assert(p.push(e) =~= s);
    }
}

/// What compacting gives is compacted and no longer than the log, and the check it remembers
/// is that of the last event kept, when that is a check event.
proof fn lemma_compact_fold_compacted(s: Seq<EventModel>)
    ensures
        compacted(compact_fold(s).0),
        compact_fold(s).0.len() <= s.len(),
        last_check(compact_fold(s).0) is Some ==> compact_fold(s).1 == last_check(compact_fold(s).0),
        compact_fold(s).1 is Some ==> compact_fold(s).0.len() > 0,
    decreases s.len(),
{
    if s.len() > 0 {
        lemma_compact_fold_compacted(s.drop_last());
        let st = compact_fold(s.drop_last());
        let prev = st.0;
        let out = compact_fold(s).0;
        let e = s.last();
        if !(e is Command) {
            let merged = is_check_event(e) && st.1 is Some && st.1->0.time_of_check == check_of(
                e,
            ).time_of_check;
            if merged {
                let comp = EventModel::Composite(st.1->0.name + " & "@ + check_of(e).name, st.1->0, check_of(e));
                let kept = prev.drop_last();
                assert(out == kept.push(comp));
                lemma_compacted_prefix(prev);
                assert forall|i: int| 0 <= i < out.len() implies !(#[trigger] out[i] is Command) by {
                    if i < out.len() - 1 {
                        assert(out[i] == kept[i]);
                    }
                }
                assert forall|i: int|
                    0 < i < out.len() && is_check_event(#[trigger] out[i]) && is_check_event(out[i - 1])
                    implies check_of(out[i - 1]).time_of_check != check_of(out[i]).time_of_check by {
                    assert(i < out.len() - 1);
                    assert(out[i] == kept[i] && out[i - 1] == kept[i - 1]);
                }
            } else {
                assert(out == prev.push(e));
                assert forall|i: int| 0 <= i < out.len() implies !(#[trigger] out[i] is Command) by {
                    if i < out.len() - 1 {
                        assert(out[i] == prev[i]);
                    }
                }
                assert forall|i: int|
                    0 < i < out.len() && is_check_event(#[trigger] out[i]) && is_check_event(out[i - 1])
                    implies check_of(out[i - 1]).time_of_check != check_of(out[i]).time_of_check by {
                    assert(out[i - 1] == prev[i - 1]);
                    if i < out.len() - 1 {
                        assert(out[i] == prev[i]);
                    } else {
                        assert(prev[i - 1] == prev.last());
                    }
                }
            }
        }
    }
}

/// Compacting a compacted log leaves it as it is: a log without commands in which no check
/// event directly follows another made at the same time comes out unchanged.
pub proof fn law_compact_keeps_compacted(s: Seq<EventModel>)
    requires
        compacted(s),
    ensures
        compact_fold(s).0 == s,
{
    lemma_compact_fold_of_compacted(s);
}

/// Compacting twice is compacting once, and compacting never makes a log longer.
pub proof fn law_compact_idempotent(s: Seq<EventModel>)
    ensures
        compact_fold(compact_fold(s).0).0 == compact_fold(s).0,
        compact_fold(s).0.len() <= s.len(),
{
    lemma_compact_fold_compacted(s);
    lemma_compact_fold_of_compacted(compact_fold(s).0);
}

/// Merging of check events that happened at the same time.
pub trait EventCompactor {
    /// The times that compacting compares are there.
    spec fn compactable(&self) -> bool;

    fn compact(self) -> Self
        requires
            self.compactable(),
    ;
}

impl EventCompactor for Vec<EventEnum> {
    open spec fn compactable(&self) -> bool {
        compact_defined(event_models(self@))
    }

    fn compact(self) -> (r: Self)
        ensures
            event_models(r@) == compact_fold(event_models(self@)).0,
    {
        let ghost s = event_models(self@);
        let mut previous_val: Option<Check> = None;
        let mut new: Vec<EventEnum> = Vec::new();
        let mut i: usize = 0;
        while i < self.len()
            invariant
                i <= self@.len(),
                s == event_models(self@),
                compact_defined(s),
                event_models(new@) == compact_fold(s.take(i as int)).0,
                match previous_val {
                    Some(c) => compact_fold(s.take(i as int)).1 == Some(c.model()),
                    None => compact_fold(s.take(i as int)).1 is None,
                },
            decreases self@.len() - i,
        {
            proof {
                assert(s.take(i + 1).drop_last() =~= s.take(i as int));
                assert(s.take(i + 1).last() == s[i as int]);
                assert(s[i as int] == self@[i as int].model());
                lemma_compact_fold_nonempty(s.take(i as int));
            }
            let ghost before = new@;
            let event = &self[i];
            match event {
                EventEnum::Command(_) => {},
                EventEnum::LocationCheck(check) | EventEnum::ItemGet(check) | EventEnum::Other(
                    check,
                ) => {
                    assert(check.model() == check_of(s[i as int]));
                    match previous_val {
                        Some(previous_check) => {
                            assert(is_check_event(s[i as int]));
                            let previous_time = previous_check.time_of_check.unwrap();
                            if previous_time == check.time_of_check.unwrap() {
                                let mut name = previous_check.name.clone();
                                name.append(" & ");
                                name.append(check.name.as_str());
                                let _ = new.pop();
                                let composite = EventEnum::Composite(
                                    (name, previous_check, check.deep_clone()),
                                );
                                let ghost popped = new@;
                                new.push(composite);
                                assert(event_models(popped) =~= event_models(before).drop_last());
                                assert(event_models(new@) =~= event_models(popped).push(
                                    composite.model(),
                                ));
                            } else {
                                let e = event.deep_clone();
                                new.push(e);
                                assert(event_models(new@) =~= event_models(before).push(e.model()));
                            }
                        },
                        None => {
                            let e = event.deep_clone();
                            new.push(e);
                            assert(event_models(new@) =~= event_models(before).push(e.model()));
                        },
                    }
                    previous_val = Some(check.deep_clone());
                },
                EventEnum::Action(_) | EventEnum::Transition(_) | EventEnum::Composite(_) => {
                    let e = event.deep_clone();
                    new.push(e);
                    assert(event_models(new@) =~= event_models(before).push(e.model()));
                    previous_val = None;
                },
            }
            i = i + 1;
        }
        assert(s.take(self@.len() as int) =~= s);
        new
    }
}

// ---------------------------------------------------------------------------------------------
// Records written per event
// ---------------------------------------------------------------------------------------------

/// One record of the log that is written out: the time and the id of whatever happened, in
/// the column of its kind.
#[derive(Debug, PartialEq, Eq)]
pub struct Event {
    /// Milliseconds since the Unix epoch.
    pub timestamp: i64,
    /// Not written out.
    pub indoors: Option<bool>,
    pub tile_id: Option<usize>,
    pub location_id: Option<usize>,
    pub item_id: Option<usize>,
    pub event_id: Option<usize>,
    pub action_id: Option<usize>,
    pub command_id: Option<usize>,
}

/// A record at the epoch with nothing set.
pub open spec fn empty_record() -> Event {
    Event {
        timestamp: 0,
        indoors: None,
        tile_id: None,
        location_id: None,
        item_id: None,
        event_id: None,
        action_id: None,
        command_id: None,
    }
}

impl Default for Event {
    fn default() -> (e: Self)
        ensures
            e == empty_record(),
    {
        Event {
            timestamp: 0,
            indoors: None,
            tile_id: None,
            location_id: None,
            item_id: None,
            event_id: None,
            action_id: None,
            command_id: None,
        }
    }
}

/// The record of a logged event: transitions in the tile column (with the indoors flag), the
/// check kinds each in their own column.
pub open spec fn record_of(e: EventModel) -> Event {
    match e {
        EventModel::Transition(t) => Event {
            timestamp: t.timestamp->0,
            indoors: Some(t.indoors),
            tile_id: Some(t.id),
            ..empty_record()
        },
        EventModel::LocationCheck(c) => Event {
            timestamp: c.time_of_check->0,
            location_id: Some(c.id),
            ..empty_record()
        },
        EventModel::ItemGet(c) => Event {
            timestamp: c.time_of_check->0,
            item_id: Some(c.id),
            ..empty_record()
        },
        EventModel::Other(c) => Event {
            timestamp: c.time_of_check->0,
            event_id: Some(c.id),
            ..empty_record()
        },
        EventModel::Action(c) => Event {
            timestamp: c.time_of_check->0,
            action_id: Some(c.id),
            ..empty_record()
        },
        EventModel::Command(c) => Event {
            timestamp: c.time_of_check->0,
            command_id: Some(c.id),
            ..empty_record()
        },
        EventModel::Composite(..) => empty_record(),
    }
}

/// A logged event can be written: it is no composite and carries its time.
pub open spec fn recordable(e: EventModel) -> bool {
    match e {
        EventModel::Transition(t) => t.timestamp is Some,
        EventModel::Composite(..) => false,
        _ => check_of(e).time_of_check is Some,
    }
}

impl Event {
    /// The record of a transition.
    pub fn from_tile(transition: &Tile) -> (e: Event)
        requires
            transition.timestamp is Some,
        ensures
            e == record_of(EventModel::Transition(transition.model())),
    {
        Event {
            timestamp: transition.timestamp.unwrap(),
            indoors: Some(transition.indoors),
            tile_id: Some(transition.id),
            location_id: None,
            item_id: None,
            ..Event::default()
        }
    }

    /// The record of a check: items go in the item column, everything else in the location
    /// column.
    pub fn from_check(check: &Check) -> (e: Event)
        requires
            check.time_of_check is Some,
        ensures
            e == (if check.is_item {
                Event { timestamp: check.time_of_check->0, item_id: Some(check.id), ..empty_record() }
            } else {
                Event {
                    timestamp: check.time_of_check->0,
                    location_id: Some(check.id),
                    ..empty_record()
                }
            }),
    {
        let timestamp = check.time_of_check.unwrap();
        if check.is_item {
            Event { timestamp, item_id: Some(check.id), ..Event::default() }
        } else {
            Event { timestamp, location_id: Some(check.id), ..Event::default() }
        }
    }

    /// The record of a logged event.
    pub fn from_event(event: &EventEnum) -> (e: Event)
        requires
            recordable(event.model()),
        ensures
            e == record_of(event.model()),
    {
        match event {
            EventEnum::Transition(t) => Event::from_tile(t),
            EventEnum::LocationCheck(check) => Event {
                timestamp: check.time_of_check.unwrap(),
                location_id: Some(check.id),
                ..Event::default()
            },
            EventEnum::ItemGet(check) => Event {
                timestamp: check.time_of_check.unwrap(),
                item_id: Some(check.id),
                ..Event::default()
            },
            EventEnum::Other(check) => Event {
                timestamp: check.time_of_check.unwrap(),
                event_id: Some(check.id),
                ..Event::default()
            },
            EventEnum::Action(check) => Event {
                timestamp: check.time_of_check.unwrap(),
                action_id: Some(check.id),
                ..Event::default()
            },
            EventEnum::Command(check) => Event {
                timestamp: check.time_of_check.unwrap(),
                command_id: Some(check.id),
                ..Event::default()
            },
            EventEnum::Composite(_) => Event::default(),
        }
    }
}

} // verus!
