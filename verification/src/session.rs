//! One timer session: the state that is kept from one RAM read to the next, and what a read
//! does to it. The caller reads the RAM, hands each read to `Session::process_read`, writes
//! and prints what it returns, and stops when the game is finished.
use crate::check::{Check, CheckModel, default_check_model};
use crate::evaluable::{objective_evaluable, tiles_evaluable};
use crate::event::{
    CommandState, EventCompactor, EventEnum, EventLog, EventModel, EventTracker, check_of,
    check_models, compact_defined, compact_fold, event_models, has_transition, is_check_event,
    spec_objectives_between, start_log,
};
use crate::parse_ram::{
    CheckKind, check_for_segment_run_start, check_for_transitions, latest_tile, latest_tile_id,
    lemma_command_stop, objective_reached, objective_testable, offset_of, previous_event_is,
    run_check_list, run_checks, run_safe, stopping_command, tiles_readable, transition_for,
};
use crate::snes::{GAME_STATE_ADDRESS, SnesRam};
use crate::tile::Tile;
use crate::time::{
    RunStatistics, SingleRunStats, TimeVerdict, fits_i64, lemma_objective_spans_bounded,
    lemma_seq_min_bounded, objective_span, objective_spans, opt_min, runs_times, seq_min, span,
    spans, spans_sum_fits, spec_time_verdict, sum, sums_fit, times_of, trunc_div,
};
use std::collections::VecDeque;
use vstd::prelude::*;

verus! {

/// How many earlier reads are kept.
pub const HISTORY_LEN: usize = 60;

/// The largest magnitude, in milliseconds from the Unix epoch, of a time of a read: beyond the
/// range of the calendar that the clock reads.
pub const MAX_TIME_MILLIS: i64 = 0x20_0000_0000_0000;

/// How many runs the rolling average is taken over: the first ones finished.
pub const ROLLING_RUNS: usize = 5;

// ---------------------------------------------------------------------------------------------
// Tracked locations
// ---------------------------------------------------------------------------------------------

/// A location check is tracked when it has an address other than zero or conditions; the others
/// have no known address yet.
pub open spec fn is_trackable(c: CheckModel) -> bool {
    offset_of(c) != 0 || c.conditions is Some
}

/// The tracked checks, in order.
pub open spec fn trackable(s: Seq<CheckModel>) -> Seq<CheckModel>
    decreases s.len(),
{
    if s.len() == 0 {
        Seq::empty()
    } else if is_trackable(s.last()) {
        trackable(s.drop_last()).push(s.last())
    } else {
        trackable(s.drop_last())
    }
}

/// The location checks that are tracked: those with an address other than zero or with
/// conditions, in order.
pub fn trackable_locations(checks: &Vec<Check>) -> (r: Vec<Check>)
    ensures
        check_models(r@) == trackable(check_models(checks@)),
{
    let ghost s = check_models(checks@);
    let mut r: Vec<Check> = Vec::new();
    let mut i: usize = 0;
    while i < checks.len()
        invariant
            i <= checks@.len(),
            s == check_models(checks@),
            check_models(r@) == trackable(s.take(i as int)),
        decreases checks@.len() - i,
    {
        proof {
            assert(s.take(i + 1).drop_last() =~= s.take(i as int));
            assert(s.take(i + 1).last() == checks@[i as int].model());
        }
        let offset: u32 = match checks[i].sram_offset {
            Some(o) => o,
            None => 0,
        };
        if offset != 0 || checks[i].conditions.is_some() {
            let ghost before = r@;
            let c = checks[i].deep_clone();
            r.push(c);
            assert(check_models(r@) =~= check_models(before).push(c.model()));
        }
        i = i + 1;
    }
    assert(s.take(checks@.len() as int) =~= s);
    r
}

// ---------------------------------------------------------------------------------------------
// Models
// ---------------------------------------------------------------------------------------------

/// The mathematical value of a `CommandState`.
pub enum PhaseModel {
    StartRecording,
    RecordingInProgress(CheckModel),
    RunStarted(usize),
    SegmentRecorded,
    RunFinished,
    ClearEventLog,
    Idle,
}

pub open spec fn phase_of(s: CommandState) -> PhaseModel {
    match s {
        CommandState::StartRecording => PhaseModel::StartRecording,
        CommandState::RecordingInProgress(c) => PhaseModel::RecordingInProgress(c.model()),
        CommandState::RunStarted(k) => PhaseModel::RunStarted(k),
        CommandState::SegmentRecorded => PhaseModel::SegmentRecorded,
        CommandState::RunFinished => PhaseModel::RunFinished,
        CommandState::ClearEventLog => PhaseModel::ClearEventLog,
        CommandState::Idle => PhaseModel::Idle,
    }
}

/// Objectives with the times they were reached.
pub open spec fn stamped_models(s: Seq<(EventEnum, i64)>) -> Seq<(EventModel, i64)> {
    Seq::new(s.len(), |i: int| (s[i].0.model(), s[i].1))
}

pub open spec fn runs_models(s: Seq<Vec<(EventEnum, i64)>>) -> Seq<Seq<(EventModel, i64)>> {
    Seq::new(s.len(), |i: int| stamped_models(s[i]@))
}

/// The times of stamped objectives.
pub open spec fn stamp_times(s: Seq<(EventModel, i64)>) -> Seq<i64> {
    Seq::new(s.len(), |i: int| s[i].1)
}

/// The times of each run.
pub open spec fn run_stamp_times(runs: Seq<Seq<(EventModel, i64)>>) -> Seq<Seq<i64>> {
    Seq::new(runs.len(), |i: int| stamp_times(runs[i]))
}

/// The mathematical value of the state of a session.
pub struct SessionModel {
    /// The event log.
    pub log: Seq<EventModel>,
    /// The earlier reads, latest last.
    pub history: Seq<SnesRam>,
    pub game_started: bool,
    /// The state of the segment recorder.
    pub phase: PhaseModel,
    /// The objectives of the recorded segment.
    pub segment: Seq<EventModel>,
    /// The objectives reached in the current run.
    pub finished: Seq<(EventModel, i64)>,
    /// The finished runs.
    pub runs: Seq<Seq<(EventModel, i64)>>,
    pub subscribed_events: Seq<CheckModel>,
    pub locations: Seq<CheckModel>,
    pub items: Seq<CheckModel>,
    pub actions: Seq<CheckModel>,
    pub commands: Seq<CheckModel>,
}

/// What a session reports besides events, for printing.
pub enum SegmentNotice {
    /// A segment was recorded, with these objectives.
    SegmentRecorded(Vec<EventEnum>),
    /// The first objective of the segment was reached.
    RunStarted,
    /// The run was stopped by a command.
    RunStopped,
    /// Objective `index` of the segment (of `last_index` after the first) was reached; it took
    /// `time` milliseconds since the one before it.
    ObjectiveReached { index: usize, last_index: usize, objective: EventEnum, time: i64, verdict: TimeVerdict },
    /// The run finished in `time` milliseconds; the averages are over the finished runs.
    RunFinished { time: i64, verdict: TimeVerdict, avg: i64, rolling_avg: i64 },
}

pub enum NoticeModel {
    SegmentRecorded(Seq<EventModel>),
    RunStarted,
    RunStopped,
    ObjectiveReached(usize, usize, EventModel, i64, TimeVerdict),
    RunFinished(i64, TimeVerdict, i64, i64),
}

impl SegmentNotice {
    pub open spec fn model(&self) -> NoticeModel {
        match self {
            SegmentNotice::SegmentRecorded(v) => NoticeModel::SegmentRecorded(
                crate::event::event_models(v@),
            ),
            SegmentNotice::RunStarted => NoticeModel::RunStarted,
            SegmentNotice::RunStopped => NoticeModel::RunStopped,
            SegmentNotice::ObjectiveReached { index, last_index, objective, time, verdict } =>
                NoticeModel::ObjectiveReached(*index, *last_index, objective.model(), *time, *verdict),
            SegmentNotice::RunFinished { time, verdict, avg, rolling_avg } =>
                NoticeModel::RunFinished(*time, *verdict, *avg, *rolling_avg),
        }
    }
}

pub open spec fn notice_models(s: Seq<SegmentNotice>) -> Seq<NoticeModel> {
    Seq::new(s.len(), |i: int| s[i].model())
}

/// Events logged by a read, each with whether it is shown.
pub open spec fn shown_models(s: Seq<(EventEnum, bool)>) -> Seq<(EventModel, bool)> {
    Seq::new(s.len(), |i: int| (s[i].0.model(), s[i].1))
}

pub open spec fn shown(events: Seq<EventModel>, show: bool) -> Seq<(EventModel, bool)> {
    Seq::new(events.len(), |i: int| (events[i], show))
}

/// What a read reports: the events logged, each with whether it is shown, the notices of the
/// segment recorder, and whether the game is finished.
pub struct OutcomeModel {
    pub logged: Seq<(EventModel, bool)>,
    pub notices: Seq<NoticeModel>,
    pub game_finished: bool,
}

// ---------------------------------------------------------------------------------------------
// What a read does
// ---------------------------------------------------------------------------------------------

/// Running a list of checks against the read, when each check that the run reaches can be
/// processed against the log as it then stands.
pub open spec fn checks_stage(
    kind: CheckKind,
    checks: Seq<CheckModel>,
    log: Seq<EventModel>,
    ram: SnesRam,
    history: Seq<SnesRam>,
    time: i64,
) -> Option<(Seq<CheckModel>, Seq<EventModel>, Option<bool>)> {
    if run_safe(kind, checks, log, ram, history, time) {
        Some(run_checks(kind, checks, log, ram, history, time))
    } else {
        None
    }
}

/// The game is finished: the latest other event is Ganon's defeat (id 5), or the latest
/// transition is into the triforce room (id 556).
pub open spec fn game_finished(log: Seq<EventModel>) -> bool {
    previous_event_is(log, 5) || latest_tile_id(log) == 556
}

/// In segment mode, the commands that the read shows are run first; the command that stops
/// the run is the one given to the segment recorder. Commands are always shown.
pub open spec fn command_stage(m: SessionModel, ram: SnesRam, time: i64) -> Option<
    (SessionModel, Seq<(EventModel, bool)>, Option<CheckModel>),
> {
    match checks_stage(CheckKind::Command, m.commands, m.log, ram, m.history, time) {
        Some(run) => Some(
            (
                SessionModel { commands: run.0, log: m.log + run.1, ..m },
                shown(run.1, true),
                if run.2 is Some {
                    Some(check_of(run.1.last()))
                } else {
                    None
                },
            ),
        ),
        None => None,
    }
}

pub open spec fn opt_check_model(c: Option<Check>) -> Option<CheckModel> {
    match c {
        Some(k) => Some(k.model()),
        None => None,
    }
}

/// Every check event of the sequence carries its time.
pub open spec fn all_timed(s: Seq<EventModel>) -> bool {
    forall|i: int| 0 <= i < s.len() && is_check_event(#[trigger] s[i]) ==> check_of(s[i]).time_of_check is Some
}

/// The objective, tested against the read, when it can be.
pub open spec fn objective_test(
    objective: EventModel,
    tiles: Seq<Tile>,
    m: SessionModel,
    ram: SnesRam,
) -> Option<bool> {
    if objective_testable(objective, tiles, m.log, ram, m.history) {
        Some(objective_reached(objective, tiles, m.log, ram, m.history))
    } else {
        None
    }
}

/// The best earlier time of objective `k` decides how a new one is judged; the first time is a
/// best by zero.
pub open spec fn objective_verdict(runs: Seq<Seq<(EventModel, i64)>>, k: int, d: int) -> TimeVerdict {
    match opt_min(objective_spans(run_stamp_times(runs), k)) {
        Some(best) => spec_time_verdict(best, d),
        None => TimeVerdict::Best(0),
    }
}

/// The best earlier run decides how a new run time is judged; the first run is a best by zero.
pub open spec fn run_verdict(runs: Seq<Seq<(EventModel, i64)>>, d: int) -> TimeVerdict {
    match opt_min(spans(run_stamp_times(runs))) {
        Some(best) => spec_time_verdict(best, d),
        None => TimeVerdict::Best(0),
    }
}

pub open spec fn rolling_count(len: nat) -> int {
    if ROLLING_RUNS < len {
        ROLLING_RUNS as int
    } else {
        len as int
    }
}

/// During a run at objective `k`: reaching it records its time, judged against the best
/// earlier time for it, and moves on to the next.
pub open spec fn objective_stage(
    m: SessionModel,
    k: usize,
    ram: SnesRam,
    time: i64,
    tiles: Seq<Tile>,
) -> Option<(SessionModel, Seq<NoticeModel>)> {
    let objective = m.segment[k as int];
    match objective_test(objective, tiles, m, ram) {
        Some(true) => {
            let finished = m.finished.push((objective, time));
            let d = stamp_times(finished)[k as int] - stamp_times(finished)[k - 1];
            Some(
                (
                    SessionModel { finished, phase: PhaseModel::RunStarted((k + 1) as usize), ..m },
                    seq![
                        NoticeModel::ObjectiveReached(
                            k,
                            (m.segment.len() - 1) as usize,
                            objective,
                            d as i64,
                            objective_verdict(m.runs, k as int, d),
                        ),
                    ],
                ),
            )
        },
        Some(false) => Some((m, Seq::empty())),
        None => None,
    }
}

/// A finished run joins the finished runs; its time is judged against the best earlier run,
/// the averages are taken over all runs and over the first `ROLLING_RUNS`, and the log starts
/// afresh, stamped with `restart`, the clock's reading at that moment. `None` when a sum of
/// durations leaves `i64`.
pub open spec fn finish_stage(m: SessionModel, restart: i64) -> Option<(SessionModel, Seq<NoticeModel>)> {
    let d = span(stamp_times(m.finished));
    let runs = m.runs.push(m.finished);
    let times = run_stamp_times(runs);
    let n = rolling_count(runs.len());
    if runs.len() <= i64::MAX && sums_fit(spans(times)) && sums_fit(spans(times.take(n))) {
        Some(
            (
                SessionModel {
                    runs,
                    finished: Seq::empty(),
                    phase: PhaseModel::SegmentRecorded,
                    log: start_log(restart),
                    ..m
                },
                seq![
                    NoticeModel::RunFinished(
                        d as i64,
                        run_verdict(m.runs, d),
                        trunc_div(sum(spans(times)), runs.len() as int) as i64,
                        trunc_div(sum(spans(times.take(n))), n) as i64,
                    ),
                ],
            ),
        )
    } else {
        None
    }
}

/// The segment recorder's step, given the command that the read shows (if any). `id` is the
/// command's id, zero when there is none.
///
/// * Idle: command 1 starts recording.
/// * Recording from command `start`: command 1 restarts recording; command 2, when recording
///   was started by command 1, records the objectives logged in between (compacted) as the
///   segment.
/// * Segment recorded, with objectives: command 1 starts recording again; otherwise reaching
///   the first objective starts a run, forgetting the earlier reads and resetting the item and
///   location lists. Without objectives: back to idle.
/// * Run started, at objective `k`: command 1 drops the run and starts recording; command 2
///   stops the run; past the last objective the run is finished; otherwise reaching objective
///   `k` records its time and moves on.
/// * Run finished: the run is added to the finished runs, and the log starts afresh, stamped
///   with `restart`, the clock's reading at that moment.
pub open spec fn segment_stage(
    m: SessionModel,
    cmd: Option<CheckModel>,
    ram: SnesRam,
    time: i64,
    restart: i64,
    tiles: Seq<Tile>,
    location_table: Seq<CheckModel>,
    item_table: Seq<CheckModel>,
) -> Option<(SessionModel, Seq<NoticeModel>)> {
    let id = match cmd {
        Some(c) => c.id,
        None => 0,
    };
    let input = match cmd {
        Some(c) => c,
        None => CheckModel { id: 0, ..default_check_model() },
    };
    match m.phase {
        PhaseModel::Idle => if id == 1 {
            Some((SessionModel { phase: PhaseModel::RecordingInProgress(input), ..m }, Seq::empty()))
        } else {
            Some((m, Seq::empty()))
        },
        PhaseModel::RecordingInProgress(start) => if id == 1 {
            Some((SessionModel { phase: PhaseModel::RecordingInProgress(input), ..m }, Seq::empty()))
        } else if id == 2 && start.id == 1 {
            let between = spec_objectives_between(
                m.log,
                EventModel::Command(start),
                Some(EventModel::Command(input)),
            );
            if all_timed(between) && compact_fold(between).0.len() <= usize::MAX {
                let segment = compact_fold(between).0;
                Some(
                    (
                        SessionModel { segment, phase: PhaseModel::SegmentRecorded, ..m },
                        seq![NoticeModel::SegmentRecorded(segment)],
                    ),
                )
            } else {
                None
            }
        } else {
            Some((m, Seq::empty()))
        },
        PhaseModel::SegmentRecorded => if m.segment.len() > 0 {
            if id == 1 {
                Some((SessionModel { phase: PhaseModel::RecordingInProgress(input), ..m }, Seq::empty()))
            } else {
                let objective = m.segment[0];
                match objective_test(objective, tiles, m, ram) {
                    Some(true) => Some(
                        (
                            SessionModel {
                                history: Seq::empty(),
                                items: item_table,
                                locations: trackable(location_table),
                                finished: m.finished.push((objective, time)),
                                phase: PhaseModel::RunStarted(1),
                                ..m
                            },
                            seq![NoticeModel::RunStarted],
                        ),
                    ),
                    Some(false) => Some((m, Seq::empty())),
                    None => None,
                }
            }
        } else {
            Some((SessionModel { phase: PhaseModel::Idle, ..m }, Seq::empty()))
        },
        PhaseModel::RunStarted(k) => if id == 1 {
            Some(
                (
                    SessionModel {
                        finished: Seq::empty(),
                        phase: PhaseModel::RecordingInProgress(input),
                        ..m
                    },
                    Seq::empty(),
                ),
            )
        } else if id == 2 {
            Some(
                (
                    SessionModel {
                        finished: Seq::empty(),
                        phase: PhaseModel::SegmentRecorded,
                        ..m
                    },
                    seq![NoticeModel::RunStopped],
                ),
            )
        } else if m.segment.len() <= k {
            Some((SessionModel { phase: PhaseModel::RunFinished, ..m }, Seq::empty()))
        } else {
            objective_stage(m, k, ram, time, tiles)
        },
        PhaseModel::RunFinished => finish_stage(m, restart),
        _ => Some((m, Seq::empty())),
    }
}

/// The read is run against the event checks; when the game still counts as started, against
/// the actions (with verbosity above 1), the tiles, the location checks and the items, in
/// that order. Events, transitions, location checks and items are shown when `show` is set or
/// the verbosity is above 0; actions when `show` is set.
pub open spec fn play_stage(
    m: SessionModel,
    ram: SnesRam,
    time: i64,
    verbosity: u64,
    show: bool,
    tiles: Seq<Tile>,
) -> Option<(SessionModel, Seq<(EventModel, bool)>)> {
    match checks_stage(CheckKind::Other, m.subscribed_events, m.log, ram, m.history, time) {
        None => None,
        Some(ev) => {
            let started = match ev.2 {
                Some(b) => b,
                None => true,
            };
            let m1 = SessionModel {
                subscribed_events: ev.0,
                log: m.log + ev.1,
                game_started: started,
                ..m
            };
            let out1 = shown(ev.1, show || verbosity > 0);
            if !started {
                Some((m1, out1))
            } else {
                match in_game_stage(m1, ram, time, verbosity, show, tiles) {
                    None => None,
                    Some(g) => Some((g.0, out1 + g.1)),
                }
            }
        },
    }
}

/// While the game counts as started: the actions (with verbosity above 1), then
/// `tracked_stage`.
pub open spec fn in_game_stage(
    m: SessionModel,
    ram: SnesRam,
    time: i64,
    verbosity: u64,
    show: bool,
    tiles: Seq<Tile>,
) -> Option<(SessionModel, Seq<(EventModel, bool)>)> {
    let acts = if verbosity > 1 {
        checks_stage(CheckKind::Action, m.actions, m.log, ram, m.history, time)
    } else {
        Some((m.actions, Seq::empty(), None))
    };
    match acts {
        None => None,
        Some(a) => {
            let m2 = SessionModel { actions: a.0, log: m.log + a.1, ..m };
            match tracked_stage(m2, ram, time, show || verbosity > 0, tiles) {
                None => None,
                Some(t) => Some((t.0, shown(a.1, show) + t.1)),
            }
        },
    }
}

/// The transition, the location checks and the items that the read shows, in that order.
pub open spec fn tracked_stage(
    m: SessionModel,
    ram: SnesRam,
    time: i64,
    show: bool,
    tiles: Seq<Tile>,
) -> Option<(SessionModel, Seq<(EventModel, bool)>)> {
    if !tiles_readable(tiles, latest_tile(m.log).id, &ram) {
        None
    } else {
        let tr = match transition_for(tiles, m.log, &ram, time) {
            Some(t) => seq![EventModel::Transition(t)],
            None => Seq::empty(),
        };
        let log3 = m.log + tr;
        match checks_stage(CheckKind::Location, m.locations, log3, ram, m.history, time) {
            None => None,
            Some(l) => {
                let log4 = log3 + l.1;
                match checks_stage(CheckKind::Item, m.items, log4, ram, m.history, time) {
                    None => None,
                    Some(it) => Some(
                        (
                            SessionModel { locations: l.0, items: it.0, log: log4 + it.1, ..m },
                            shown(tr, show) + shown(l.1, show) + shown(it.1, show),
                        ),
                    ),
                }
            },
        }
    }
}

/// The earlier reads keep at most `HISTORY_LEN` entries: one over, the oldest goes.
pub open spec fn trimmed(h: Seq<SnesRam>) -> Seq<SnesRam> {
    if h.len() > HISTORY_LEN {
        h.drop_first()
    } else {
        h
    }
}

/// What a read does to the session, and what it reports; `None` when some part of it cannot
/// be evaluated on the read. `restart` is the clock's reading that the fresh log of a run that
/// finishes is stamped with.
///
/// Before the game has started, the read only tells whether it now has. Once it has, the read
/// goes (in segment mode) through the commands and the segment recorder, then through the
/// checks of `play_stage`, and is added to the earlier reads. Outside a run the segment
/// recorder shows events; during a run, and when it has just finished, only commands are
/// shown unless the verbosity is above 0.
pub open spec fn read_step(
    m: SessionModel,
    segment_run_mode: bool,
    verbosity: u64,
    ram: SnesRam,
    time: i64,
    restart: i64,
    tiles: Seq<Tile>,
    location_table: Seq<CheckModel>,
    item_table: Seq<CheckModel>,
) -> Option<(SessionModel, OutcomeModel)> {
    if !m.game_started {
        if GAME_STATE_ADDRESS < ram.tile_info_chunk@.len() {
            let m1 = SessionModel {
                game_started: ram.spec_game_has_started(),
                history: trimmed(m.history),
                ..m
            };
            Some(
                (
                    m1,
                    OutcomeModel {
                        logged: Seq::empty(),
                        notices: Seq::empty(),
                        game_finished: game_finished(m1.log),
                    },
                ),
            )
        } else {
            None
        }
    } else {
        match started_step(m, segment_run_mode, verbosity, ram, time, restart, tiles, location_table, item_table) {
            None => None,
            Some(t) => {
                let m1 = SessionModel { history: trimmed(t.0.history.push(ram)), ..t.0 };
                Some(
                    (
                        m1,
                        OutcomeModel {
                            logged: t.1,
                            notices: t.2,
                            game_finished: game_finished(m1.log),
                        },
                    ),
                )
            },
        }
    }
}

/// A read once the game has started, before it joins the earlier reads: in segment mode the
/// commands and the segment recorder, then the checks of `play_stage`. Gives the events
/// logged, each with whether it is shown, and the notices of the segment recorder.
pub open spec fn started_step(
    m: SessionModel,
    segment_run_mode: bool,
    verbosity: u64,
    ram: SnesRam,
    time: i64,
    restart: i64,
    tiles: Seq<Tile>,
    location_table: Seq<CheckModel>,
    item_table: Seq<CheckModel>,
) -> Option<(SessionModel, Seq<(EventModel, bool)>, Seq<NoticeModel>)> {
    let cmds = if segment_run_mode {
        command_stage(m, ram, time)
    } else {
        Some((m, Seq::empty(), None))
    };
    match cmds {
        None => None,
        Some(c) => {
            let seg = if segment_run_mode {
                segment_stage(c.0, c.2, ram, time, restart, tiles, location_table, item_table)
            } else {
                Some((c.0, Seq::empty()))
            };
            match seg {
                None => None,
                Some(g) => {
                    let show = !(g.0.phase is RunStarted || g.0.phase is RunFinished);
                    match play_stage(g.0, ram, time, verbosity, show, tiles) {
                        None => None,
                        Some(p) => Some((p.0, c.1 + p.1, g.1)),
                    }
                },
            }
        },
    }
}

// ---------------------------------------------------------------------------------------------
// The session
// ---------------------------------------------------------------------------------------------

/// A time that the clock can give: within `MAX_TIME_MILLIS` of the epoch.
pub open spec fn time_ok(t: i64) -> bool {
    -MAX_TIME_MILLIS <= t <= MAX_TIME_MILLIS
}

/// What holds of every session between reads: few enough earlier reads, a log with a
/// transition, times from the clock, runs with objectives, and as many reached objectives as
/// the segment recorder's state says.
pub open spec fn session_wf(m: SessionModel) -> bool {
    &&& m.history.len() <= HISTORY_LEN
    &&& m.segment.len() <= usize::MAX
    &&& has_transition(m.log)
    &&& forall|i: int| 0 <= i < m.finished.len() ==> time_ok(#[trigger] m.finished[i].1)
    &&& forall|r: int, i: int|
        0 <= r < m.runs.len() && 0 <= i < m.runs[r].len() ==> time_ok(#[trigger] m.runs[r][i].1)
    &&& forall|r: int| 0 <= r < m.runs.len() ==> #[trigger] m.runs[r].len() > 0
    &&& match m.phase {
        PhaseModel::RunStarted(k) => 1 <= k && m.finished.len() == k && k <= m.segment.len(),
        PhaseModel::RunFinished => m.finished.len() >= 1,
        _ => m.finished.len() == 0,
    }
}

/// Why a read could not be processed: something it is checked against cannot be evaluated
/// on it, or a statistic of the runs leaves `i64`.
#[derive(Debug, PartialEq, Eq)]
pub enum ReadError {
    Unevaluable,
}

/// What a read reports.
pub struct ReadOutcome {
    /// The events logged, in order, each with whether it is to be shown.
    pub logged: Vec<(EventEnum, bool)>,
    /// What the segment recorder reports.
    pub notices: Vec<SegmentNotice>,
    /// The game is finished: the timer can stop.
    pub game_finished: bool,
}

impl ReadOutcome {
    pub open spec fn model(&self) -> OutcomeModel {
        OutcomeModel {
            logged: shown_models(self.logged@),
            notices: notice_models(self.notices@),
            game_finished: self.game_finished,
        }
    }
}

/// The state of a timer session.
pub struct Session {
    events: EventTracker,
    ram_history: VecDeque<SnesRam>,
    game_started: bool,
    command_state: CommandState,
    segment_objectives: Vec<EventEnum>,
    finished_objectives: Vec<(EventEnum, i64)>,
    finished_runs: Vec<Vec<(EventEnum, i64)>>,
    subscribed_events: Vec<Check>,
    locations: Vec<Check>,
    items: Vec<Check>,
    actions: Vec<Check>,
    commands: Vec<Check>,
    location_table: Vec<Check>,
    item_table: Vec<Check>,
    tiles: Vec<Tile>,
}

/// The checks with the same models.
pub fn clone_checks(v: &Vec<Check>) -> (r: Vec<Check>)
    ensures
        check_models(r@) == check_models(v@),
{
    let mut r: Vec<Check> = Vec::new();
    let mut i: usize = 0;
    while i < v.len()
        invariant
            i <= v@.len(),
            check_models(r@) == check_models(v@).take(i as int),
        decreases v@.len() - i,
    {
        let ghost before = r@;
        let c = v[i].deep_clone();
        r.push(c);
        assert(check_models(r@) =~= check_models(before).push(c.model()));
        assert(check_models(v@).take(i + 1) =~= check_models(v@).take(i as int).push(v@[i as int].model()));
        i = i + 1;
    }
    assert(check_models(v@).take(v@.len() as int) =~= check_models(v@));
    r
}

/// The events with the same models.
pub fn clone_events(v: &Vec<EventEnum>) -> (r: Vec<EventEnum>)
    ensures
        event_models(r@) == event_models(v@),
{
    let mut r: Vec<EventEnum> = Vec::new();
    let mut i: usize = 0;
    while i < v.len()
        invariant
            i <= v@.len(),
            event_models(r@) == event_models(v@).take(i as int),
        decreases v@.len() - i,
    {
        let ghost before = r@;
        let e = v[i].deep_clone();
        r.push(e);
        assert(event_models(r@) =~= event_models(before).push(e.model()));
        assert(event_models(v@).take(i + 1) =~= event_models(v@).take(i as int).push(v@[i as int].model()));
        i = i + 1;
    }
    assert(event_models(v@).take(v@.len() as int) =~= event_models(v@));
    r
}

/// Appends the events, each marked with `show`.
fn append_shown(logged: &mut Vec<(EventEnum, bool)>, events: Vec<EventEnum>, show: bool)
    ensures
        shown_models(final(logged)@) == shown_models(old(logged)@) + shown(event_models(events@), show),
{
    let ghost start = old(logged)@;
    let mut i: usize = 0;
    while i < events.len()
        invariant
            i <= events@.len(),
            shown_models(logged@) == shown_models(start) + shown(event_models(events@).take(i as int), show),
        decreases events@.len() - i,
    {
        let ghost before = logged@;
        let e = events[i].deep_clone();
        logged.push((e, show));
        assert(shown_models(logged@) =~= shown_models(before).push((e.model(), show)));
        assert(shown(event_models(events@).take(i + 1), show) =~= shown(
            event_models(events@).take(i as int),
            show,
        ).push((events@[i as int].model(), show)));
        i = i + 1;
    }
    assert(event_models(events@).take(events@.len() as int) =~= event_models(events@));
}

/// Whether every check event of the list carries its time.
fn events_timed(v: &Vec<EventEnum>) -> (r: bool)
    ensures
        r == all_timed(event_models(v@)),
{
    let ghost s = event_models(v@);
    let mut i: usize = 0;
    while i < v.len()
        invariant
            i <= v@.len(),
            s == event_models(v@),
            forall|j: int| 0 <= j < i && is_check_event(#[trigger] s[j]) ==> check_of(s[j]).time_of_check is Some,
        decreases v@.len() - i,
    {
        assert(s[i as int] == v@[i as int].model());
        let timed = match &v[i] {
            EventEnum::LocationCheck(c) | EventEnum::ItemGet(c) | EventEnum::Other(c) => c.time_of_check.is_some(),
            _ => true,
        };
        if !timed {
            return false;
        }
        i = i + 1;
    }
    true
}

/// While compacting events that all carry their times, the remembered check event carries
/// its time.
proof fn lemma_timed_fold(s: Seq<EventModel>)
    requires
        all_timed(s),
    ensures
        compact_fold(s).1 matches Some(c) ==> c.time_of_check is Some,
    decreases s.len(),
{
    if s.len() > 0 {
        assert(all_timed(s.drop_last()));
        lemma_timed_fold(s.drop_last());
    }
}

/// Events that all carry their times can be compacted.
proof fn lemma_timed_compactable(s: Seq<EventModel>)
    requires
        all_timed(s),
    ensures
        compact_defined(s),
{
    assert forall|i: int| 0 <= i < s.len() && is_check_event(#[trigger] s[i]) && compact_fold(s.take(i)).1 is Some implies
        compact_fold(s.take(i)).1->0.time_of_check is Some && check_of(s[i]).time_of_check is Some by {
        assert(all_timed(s.take(i)));
        lemma_timed_fold(s.take(i));
    }
}

/// A log that holds a transition still does when it is the start of a longer one.
proof fn lemma_prefix_transition(a: Seq<EventModel>, b: Seq<EventModel>)
    requires
        has_transition(a),
        a.len() <= b.len(),
        b.subrange(0, a.len() as int) == a,
    ensures
        has_transition(b),
{
    let j = choose|j: int| 0 <= j < a.len() && (#[trigger] a[j]) is Transition;
    assert(b.subrange(0, a.len() as int)[j] == b[j]);
}

proof fn lemma_times_of(v: Seq<(EventEnum, i64)>)
    ensures
        times_of(v) == stamp_times(stamped_models(v)),
{
    assert(times_of(v) =~= stamp_times(stamped_models(v)));
}

proof fn lemma_runs_times(v: Seq<Vec<(EventEnum, i64)>>)
    ensures
        runs_times(v) == run_stamp_times(runs_models(v)),
{
    assert forall|i: int| 0 <= i < v.len() implies #[trigger] runs_times(v)[i] == run_stamp_times(
        runs_models(v),
    )[i] by {
        lemma_times_of(v[i]@);
    }
    assert(runs_times(v) =~= run_stamp_times(runs_models(v)));
}

/// Times within `bound` of the epoch are at most twice `bound` apart: every duration of runs
/// whose times are within `bound` is within twice `bound`.
proof fn lemma_spans_bounded(runs: Seq<Seq<i64>>, bound: int)
    requires
        forall|r: int| 0 <= r < runs.len() ==> #[trigger] runs[r].len() > 0,
        forall|r: int, i: int|
            0 <= r < runs.len() && 0 <= i < runs[r].len() ==> -bound <= #[trigger] runs[r][i] <= bound,
    ensures
        forall|j: int| 0 <= j < spans(runs).len() ==> -2 * bound <= #[trigger] spans(runs)[j] <= 2 * bound,
{
    assert forall|j: int| 0 <= j < spans(runs).len() implies -2 * bound <= #[trigger] spans(runs)[j] <= 2
        * bound by {
        assert(runs[j].len() > 0);
        assert(-bound <= runs[j][0] <= bound);
        assert(-bound <= runs[j][runs[j].len() - 1] <= bound);
    }
}

proof fn lemma_append_transition(log: Seq<EventModel>, more: Seq<EventModel>)
    requires
        has_transition(log),
    ensures
        has_transition(log + more),
{
    crate::event::lemma_has_transition_extend(log, more);
}

/// The commands keep a session well-formed.
proof fn lemma_command_keeps(m: SessionModel, ram: SnesRam, time: i64)
    requires
        session_wf(m),
    ensures
        command_stage(m, ram, time) matches Some(c) ==> session_wf(c.0),
{
    if let Some(run) = checks_stage(CheckKind::Command, m.commands, m.log, ram, m.history, time) {
        lemma_append_transition(m.log, run.1);
    }
}

/// The checks of a read keep a session well-formed; they leave the earlier reads, the segment
/// recorder and the runs as they are.
proof fn lemma_play_keeps(m: SessionModel, ram: SnesRam, time: i64, verbosity: u64, show: bool, tiles: Seq<Tile>)
    requires
        session_wf(m),
    ensures
        play_stage(m, ram, time, verbosity, show, tiles) matches Some(p) ==> {
            &&& session_wf(p.0)
            &&& p.0.history == m.history
            &&& p.0.phase == m.phase
        },
{
    if let Some(ev) = checks_stage(CheckKind::Other, m.subscribed_events, m.log, ram, m.history, time) {
        let started = match ev.2 {
            Some(b) => b,
            None => true,
        };
        let m1 = SessionModel {
            subscribed_events: ev.0,
            log: m.log + ev.1,
            game_started: started,
            ..m
        };
        lemma_append_transition(m.log, ev.1);
        if started {
            let acts = if verbosity > 1 {
                checks_stage(CheckKind::Action, m1.actions, m1.log, ram, m1.history, time)
            } else {
                Some((m1.actions, Seq::empty(), None))
            };
            if let Some(a) = acts {
                let m2 = SessionModel { actions: a.0, log: m1.log + a.1, ..m1 };
                lemma_append_transition(m1.log, a.1);
                if tiles_readable(tiles, latest_tile(m2.log).id, &ram) {
                    let tr = match transition_for(tiles, m2.log, &ram, time) {
                        Some(t) => seq![EventModel::Transition(t)],
                        None => Seq::empty(),
                    };
                    let log3 = m2.log + tr;
                    lemma_append_transition(m2.log, tr);
                    if let Some(l) = checks_stage(CheckKind::Location, m2.locations, log3, ram, m2.history, time) {
                        let log4 = log3 + l.1;
                        lemma_append_transition(log3, l.1);
                        if let Some(it) = checks_stage(CheckKind::Item, m2.items, log4, ram, m2.history, time) {
                            lemma_append_transition(log4, it.1);
                        }
                    }
                }
            }
        }
    }
}

/// The segment recorder keeps a session well-formed: a run holds as many reached objectives
/// as its state says, with times from the clock, and a finished run has objectives.
proof fn lemma_segment_keeps(
    m: SessionModel,
    cmd: Option<CheckModel>,
    ram: SnesRam,
    time: i64,
    restart: i64,
    tiles: Seq<Tile>,
    location_table: Seq<CheckModel>,
    item_table: Seq<CheckModel>,
)
    requires
        session_wf(m),
        time_ok(time),
    ensures
        segment_stage(m, cmd, ram, time, restart, tiles, location_table, item_table) matches Some(g) ==> session_wf(g.0),
{
    match m.phase {
        PhaseModel::RunStarted(k) => {
            if let Some(g) = segment_stage(m, cmd, ram, time, restart, tiles, location_table, item_table) {
                if g.0.finished.len() == k + 1 {
                    assert forall|i: int| 0 <= i < g.0.finished.len() implies time_ok(#[trigger] g.0.finished[i].1) by {
                        if i < k {
                            assert(g.0.finished[i] == m.finished[i]);
                        }
                    }
                }
            }
        },
        PhaseModel::RunFinished => {
            if let Some(g) = segment_stage(m, cmd, ram, time, restart, tiles, location_table, item_table) {
                let runs = m.runs.push(m.finished);
                assert(g.0.runs == runs);
                assert forall|r: int, i: int| 0 <= r < runs.len() && 0 <= i < runs[r].len() implies time_ok(
                    #[trigger] runs[r][i].1,
                ) by {
                    if r < m.runs.len() {
                        assert(runs[r] == m.runs[r]);
                    } else {
                        assert(runs[r] == m.finished);
                    }
                }
                assert forall|r: int| 0 <= r < runs.len() implies #[trigger] runs[r].len() > 0 by {
                    if r < m.runs.len() {
                        assert(runs[r] == m.runs[r]);
                    }
                }
                assert(start_log(restart)[0] is Transition);
            }
        },
        PhaseModel::SegmentRecorded => {
            if let Some(g) = segment_stage(m, cmd, ram, time, restart, tiles, location_table, item_table) {
                if g.0.phase is RunStarted {
                    assert(g.0.finished =~= seq![(m.segment[0], time)]);
                }
            }
        },
        _ => {},
    }
}

/// Every read keeps a session well-formed: at most `HISTORY_LEN` earlier reads, a log with a
/// transition, times from the clock, runs with objectives, and as many reached objectives as
/// the segment recorder's state says.
pub proof fn law_read_keeps_session_wf(
    m: SessionModel,
    segment_run_mode: bool,
    verbosity: u64,
    ram: SnesRam,
    time: i64,
    restart: i64,
    tiles: Seq<Tile>,
    location_table: Seq<CheckModel>,
    item_table: Seq<CheckModel>,
)
    requires
        session_wf(m),
        time_ok(time),
    ensures
        read_step(m, segment_run_mode, verbosity, ram, time, restart, tiles, location_table, item_table) matches Some(
            s,
        ) ==> session_wf(s.0),
{
    if m.game_started {
        lemma_started_keeps(m, segment_run_mode, verbosity, ram, time, restart, tiles, location_table, item_table);
    }
}

/// A read once the game has started keeps a session well-formed, but for the read that joins
/// the earlier reads.
proof fn lemma_started_keeps(
    m: SessionModel,
    segment_run_mode: bool,
    verbosity: u64,
    ram: SnesRam,
    time: i64,
    restart: i64,
    tiles: Seq<Tile>,
    location_table: Seq<CheckModel>,
    item_table: Seq<CheckModel>,
)
    requires
        session_wf(m),
        time_ok(time),
    ensures
        started_step(m, segment_run_mode, verbosity, ram, time, restart, tiles, location_table, item_table) matches Some(
            t,
        ) ==> session_wf(t.0),
{
    lemma_command_keeps(m, ram, time);
    let cmds = if segment_run_mode {
        command_stage(m, ram, time)
    } else {
        Some((m, Seq::empty(), None))
    };
    if let Some(c) = cmds {
        lemma_segment_keeps(c.0, c.2, ram, time, restart, tiles, location_table, item_table);
        let seg = if segment_run_mode {
            segment_stage(c.0, c.2, ram, time, restart, tiles, location_table, item_table)
        } else {
            Some((c.0, Seq::empty()))
        };
        if let Some(g) = seg {
            let show = !(g.0.phase is RunStarted || g.0.phase is RunFinished);
            lemma_play_keeps(g.0, ram, time, verbosity, show, tiles);
        }
    }
}

/// The events of what a read reports, in order.
pub open spec fn logged_events(out: Seq<(EventModel, bool)>) -> Seq<EventModel> {
    Seq::new(out.len(), |i: int| out[i].0)
}

proof fn lemma_logged_shown(x: Seq<EventModel>, show: bool)
    ensures
        logged_events(shown(x, show)) == x,
{
    assert(logged_events(shown(x, show)) =~= x);
}

proof fn lemma_logged_concat(a: Seq<(EventModel, bool)>, b: Seq<(EventModel, bool)>)
    ensures
        logged_events(a + b) == logged_events(a) + logged_events(b),
{
    assert(logged_events(a + b) =~= logged_events(a) + logged_events(b));
}

/// The checks of a read append to the log exactly the events that they report.
#[verifier::rlimit(40)]
proof fn lemma_play_appends(m: SessionModel, ram: SnesRam, time: i64, verbosity: u64, show: bool, tiles: Seq<Tile>)
    ensures
        play_stage(m, ram, time, verbosity, show, tiles) matches Some(p) ==> p.0.log == m.log
            + logged_events(p.1),
{
    if let Some(ev) = checks_stage(CheckKind::Other, m.subscribed_events, m.log, ram, m.history, time) {
        let started = match ev.2 {
            Some(b) => b,
            None => true,
        };
        let out1 = shown(ev.1, show || verbosity > 0);
        lemma_logged_shown(ev.1, show || verbosity > 0);
        if started {
            let m1 = SessionModel {
                subscribed_events: ev.0,
                log: m.log + ev.1,
                game_started: started,
                ..m
            };
            let acts = if verbosity > 1 {
                checks_stage(CheckKind::Action, m1.actions, m1.log, ram, m1.history, time)
            } else {
                Some((m1.actions, Seq::empty(), None))
            };
            if let Some(a) = acts {
                let m2 = SessionModel { actions: a.0, log: m1.log + a.1, ..m1 };
                lemma_logged_shown(a.1, show);
                if tiles_readable(tiles, latest_tile(m2.log).id, &ram) {
                    let tr = match transition_for(tiles, m2.log, &ram, time) {
                        Some(t) => seq![EventModel::Transition(t)],
                        None => Seq::empty(),
                    };
                    let log3 = m2.log + tr;
                    let sh = show || verbosity > 0;
                    if let Some(l) = checks_stage(CheckKind::Location, m2.locations, log3, ram, m2.history, time) {
                        let log4 = log3 + l.1;
                        if let Some(it) = checks_stage(CheckKind::Item, m2.items, log4, ram, m2.history, time) {
                            lemma_logged_shown(tr, sh);
                            lemma_logged_shown(l.1, sh);
                            lemma_logged_shown(it.1, sh);
                            lemma_logged_concat(shown(tr, sh), shown(l.1, sh));
                            lemma_logged_concat(shown(tr, sh) + shown(l.1, sh), shown(it.1, sh));
                            let t_out = shown(tr, sh) + shown(l.1, sh) + shown(it.1, sh);
                            lemma_logged_concat(shown(a.1, show), t_out);
                            lemma_logged_concat(out1, shown(a.1, show) + t_out);
                            assert(log4 + it.1 =~= m.log + (ev.1 + (a.1 + (tr + l.1 + it.1))));
                        }
                    }
                }
            }
        }
    }
}

/// A read once the game has started, outside the end of a run in segment mode, appends to the
/// log exactly the events it reports, in order.
pub proof fn law_logged_events_are_appended(
    m: SessionModel,
    segment_run_mode: bool,
    verbosity: u64,
    ram: SnesRam,
    time: i64,
    restart: i64,
    tiles: Seq<Tile>,
    location_table: Seq<CheckModel>,
    item_table: Seq<CheckModel>,
)
    requires
        !(segment_run_mode && m.phase is RunFinished),
    ensures
        read_step(m, segment_run_mode, verbosity, ram, time, restart, tiles, location_table, item_table) matches Some(
            s,
        ) ==> s.0.log == m.log + logged_events(s.1.logged),
{
    if m.game_started {
        let cmds = if segment_run_mode {
            command_stage(m, ram, time)
        } else {
            Some((m, Seq::empty(), None))
        };
        if let Some(c) = cmds {
            if segment_run_mode {
                if let Some(run) = checks_stage(CheckKind::Command, m.commands, m.log, ram, m.history, time) {
                    lemma_logged_shown(run.1, true);
                }
            } else {
                assert(logged_events(c.1) =~= Seq::<EventModel>::empty());
                assert(m.log + Seq::<EventModel>::empty() =~= m.log);
            }
            let seg = if segment_run_mode {
                segment_stage(c.0, c.2, ram, time, restart, tiles, location_table, item_table)
            } else {
                Some((c.0, Seq::empty()))
            };
            if let Some(g) = seg {
                assert(g.0.log == c.0.log);
                let show = !(g.0.phase is RunStarted || g.0.phase is RunFinished);
                lemma_play_appends(g.0, ram, time, verbosity, show, tiles);
                if let Some(p) = play_stage(g.0, ram, time, verbosity, show, tiles) {
                    lemma_logged_concat(c.1, p.1);
                    assert(p.0.log =~= m.log + logged_events(c.1 + p.1));
                }
            }
        }
    } else {
        assert(logged_events(Seq::empty()) =~= Seq::<EventModel>::empty());
        assert(m.log + Seq::<EventModel>::empty() =~= m.log);
    }
}

/// A read reports the game finished exactly when, in the log as the read leaves it, the last
/// other event is Ganon's defeat (id 5) or the last transition is into the triforce room
/// (id 556); `k` is the position of that last event.
pub proof fn law_read_reports_finished(
    m: SessionModel,
    segment_run_mode: bool,
    verbosity: u64,
    ram: SnesRam,
    time: i64,
    restart: i64,
    tiles: Seq<Tile>,
    location_table: Seq<CheckModel>,
    item_table: Seq<CheckModel>,
    k: int,
)
    ensures
        read_step(m, segment_run_mode, verbosity, ram, time, restart, tiles, location_table, item_table) matches Some(s)
            ==> {
            let log = s.0.log;
            &&& (0 <= k < log.len() && log[k] is Other && check_of(log[k]).id == 5 && (forall|j: int|
                k < j < log.len() ==> !(#[trigger] log[j] is Other))) ==> s.1.game_finished
            &&& (0 <= k < log.len() && (log[k] matches EventModel::Transition(t) && t.id == 556) && (forall|j: int|
                k < j < log.len() ==> !(#[trigger] log[j] is Transition))) ==> s.1.game_finished
            &&& s.1.game_finished ==> (exists|i: int|
                0 <= i < log.len() && #[trigger] log[i] is Other && check_of(log[i]).id == 5 && (forall|j: int|
                    i < j < log.len() ==> !(#[trigger] log[j] is Other))) || (exists|i: int|
                0 <= i < log.len() && (#[trigger] log[i] matches EventModel::Transition(t) && t.id == 556)
                    && (forall|j: int| i < j < log.len() ==> !(#[trigger] log[j] is Transition)))
        },
{
    if let Some(s) = read_step(m, segment_run_mode, verbosity, ram, time, restart, tiles, location_table, item_table) {
        let log = s.0.log;
        if 0 <= k < log.len() && log[k] is Other && (forall|j: int| k < j < log.len() ==> !(#[trigger] log[j] is Other)) {
            crate::event::lemma_last_where_found(log, crate::event::other_events(), k);
        }
        if 0 <= k < log.len() && log[k] is Transition && (forall|j: int| k < j < log.len() ==> !(#[trigger] log[j] is Transition)) {
            crate::event::lemma_last_where_found(log, crate::event::transitions(), k);
        }
        if s.1.game_finished {
            if let Some(i) = crate::event::last_where(log, crate::event::other_events()) {
                if check_of(log[i]).id == 5 {
                    assert(crate::event::is_last_where(log, crate::event::other_events(), i));
                }
            }
            if let Some(i) = crate::event::last_where(log, crate::event::transitions()) {
                assert(crate::event::is_last_where(log, crate::event::transitions(), i));
            }
        }
    }
}

/// The segment recorder's commands: command 1 starts recording from that command when idle,
/// recording, during a run, or with a recorded segment that has objectives;
/// command 2 during a run stops it, dropping the objectives reached and going back to the
/// recorded segment; command 2 while recording from command 1 records, as the segment, what
/// was logged in between, compacted.
pub proof fn law_segment_commands(
    m: SessionModel,
    cmd: CheckModel,
    ram: SnesRam,
    time: i64,
    restart: i64,
    tiles: Seq<Tile>,
    location_table: Seq<CheckModel>,
    item_table: Seq<CheckModel>,
)
    ensures
        segment_stage(m, Some(cmd), ram, time, restart, tiles, location_table, item_table) matches Some(g) ==> {
            &&& cmd.id == 1 && (m.phase is Idle || m.phase is RecordingInProgress || m.phase is RunStarted || (
            m.phase is SegmentRecorded && m.segment.len() > 0)) ==> g.0.phase == PhaseModel::RecordingInProgress(cmd) && g.1.len() == 0
            &&& cmd.id == 1 && m.phase is RunStarted ==> g.0.finished.len() == 0
            &&& cmd.id == 2 && m.phase is RunStarted ==> g.0.phase == PhaseModel::SegmentRecorded
                && g.0.finished.len() == 0 && g.1 == seq![NoticeModel::RunStopped]
            &&& cmd.id == 2 && (m.phase matches PhaseModel::RecordingInProgress(start) && start.id == 1)
                ==> g.0.phase == PhaseModel::SegmentRecorded && g.0.segment == compact_fold(
                spec_objectives_between(
                    m.log,
                    EventModel::Command(m.phase->RecordingInProgress_0),
                    Some(EventModel::Command(cmd)),
                ),
            ).0 && g.1 == seq![NoticeModel::SegmentRecorded(g.0.segment)]
        },
{
}

/// During a run, with no command: at objective `k` (not past the last), when the read shows
/// the objective it is recorded with the time of the read and the run moves to the next one,
/// reporting the objective's time since the one before; otherwise nothing changes. Past the
/// last objective the run is finished. With a recorded segment, a read that shows its first
/// objective starts a run at that time, forgetting the earlier reads and resetting the
/// location and item lists.
pub proof fn law_run_progress(
    m: SessionModel,
    ram: SnesRam,
    time: i64,
    restart: i64,
    tiles: Seq<Tile>,
    location_table: Seq<CheckModel>,
    item_table: Seq<CheckModel>,
)
    requires
        session_wf(m),
    ensures
        segment_stage(m, None, ram, time, restart, tiles, location_table, item_table) matches Some(g) ==> {
            &&& (m.phase matches PhaseModel::RunStarted(k) && k < m.segment.len()) ==> {
                let k = m.phase->RunStarted_0;
                ||| g.0 == m && g.1.len() == 0
                ||| {
                    &&& g.0.finished == m.finished.push((m.segment[k as int], time))
                    &&& g.0.phase == PhaseModel::RunStarted((k + 1) as usize)
                    &&& g.1.len() == 1
                    &&& g.1[0] matches NoticeModel::ObjectiveReached(index, last, objective, split, _)
                    &&& index == k && last == m.segment.len() - 1 && objective == m.segment[k as int]
                    &&& split == (time - m.finished[k - 1].1) as i64
                }
            }
            &&& (m.phase matches PhaseModel::RunStarted(k) && m.segment.len() <= k) ==> g.0.phase
                == PhaseModel::RunFinished && g.0.finished == m.finished && g.1.len() == 0
            &&& (m.phase is SegmentRecorded && m.segment.len() > 0) ==> {
                ||| g.0 == m && g.1.len() == 0
                ||| {
                    &&& g.0.finished == seq![(m.segment[0], time)]
                    &&& g.0.phase == PhaseModel::RunStarted(1)
                    &&& g.0.history.len() == 0
                    &&& g.0.items == item_table
                    &&& g.1 == seq![NoticeModel::RunStarted]
                }
            }
        },
{
    if let PhaseModel::RunStarted(k) = m.phase {
        if k < m.segment.len() {
            if let Some(g) = segment_stage(m, None, ram, time, restart, tiles, location_table, item_table) {
                if g.1.len() > 0 {
                    let finished = m.finished.push((m.segment[k as int], time));
                    assert(stamp_times(finished)[k as int] == time);
                    assert(stamp_times(finished)[k - 1] == m.finished[k - 1].1);
                }
            }
        }
    }
    if m.phase is SegmentRecorded && m.segment.len() > 0 {
        if let Some(g) = segment_stage(m, None, ram, time, restart, tiles, location_table, item_table) {
            if g.1.len() > 0 {
                assert(Seq::<(EventModel, i64)>::empty().push((m.segment[0], time)) =~= seq![(m.segment[0], time)]);
            }
        }
    }
}

/// A finished run joins the finished runs; it is reported with its time, from its first
/// objective to its last, and the average time of all runs, rounded toward zero; the
/// recorder goes back to the segment and the log starts afresh, stamped with `restart`.
pub proof fn law_run_finished(
    m: SessionModel,
    cmd: Option<CheckModel>,
    ram: SnesRam,
    time: i64,
    restart: i64,
    tiles: Seq<Tile>,
    location_table: Seq<CheckModel>,
    item_table: Seq<CheckModel>,
)
    requires
        session_wf(m),
        m.phase is RunFinished,
    ensures
        segment_stage(m, cmd, ram, time, restart, tiles, location_table, item_table) matches Some(g) ==> {
            let runs = m.runs.push(m.finished);
            &&& g.0.runs == runs
            &&& g.0.finished.len() == 0
            &&& g.0.phase == PhaseModel::SegmentRecorded
            &&& g.0.log == start_log(restart)
            &&& g.1.len() == 1
            &&& g.1[0] matches NoticeModel::RunFinished(d, _, avg, _)
            &&& d == (m.finished.last().1 - m.finished[0].1) as i64
            &&& avg == trunc_div(
                sum(Seq::new(runs.len(), |r: int| runs[r].last().1 - runs[r][0].1)),
                runs.len() as int,
            ) as i64
        },
{
    let runs = m.runs.push(m.finished);
    let times = run_stamp_times(runs);
    assert(spans(times) =~= Seq::new(runs.len(), |r: int| runs[r].last().1 - runs[r][0].1)) by {
        assert forall|r: int| 0 <= r < runs.len() implies spans(times)[r] == runs[r].last().1 - runs[r][0].1 by {
            assert(times[r] == stamp_times(runs[r]));
            if r < m.runs.len() {
                assert(runs[r] == m.runs[r]);
                assert(m.runs[r].len() > 0);
            } else {
                assert(runs[r] == m.finished);
            }
            assert(runs[r].len() > 0);
            assert(stamp_times(runs[r]).last() == runs[r].last().1);
            assert(stamp_times(runs[r])[0] == runs[r][0].1);
        }
    }
    let fin = stamp_times(m.finished);
    assert(fin.last() == m.finished.last().1);
    assert(fin[0] == m.finished[0].1);
}

/// How a run's time and an objective's time are judged: against the best earlier one (the
/// least of the earlier runs' times, or of the times of the earlier runs that reached the
/// objective); with no earlier one, the time is a best by zero.
pub proof fn law_verdicts_against_best(runs: Seq<Seq<(EventModel, i64)>>, k: int, d: int)
    ensures
        runs.len() == 0 ==> run_verdict(runs, d) == TimeVerdict::Best(0),
        runs.len() > 0 ==> exists|r: int|
            0 <= r < runs.len() && (forall|q: int|
                0 <= q < runs.len() ==> span(#[trigger] run_stamp_times(runs)[q]) >= span(run_stamp_times(runs)[r]))
                && run_verdict(runs, d) == spec_time_verdict(span(run_stamp_times(runs)[r]), d),
        objective_spans(run_stamp_times(runs), k).len() == 0 ==> objective_verdict(runs, k, d)
            == TimeVerdict::Best(0),
        objective_spans(run_stamp_times(runs), k).len() > 0 ==> ({
            let ks = objective_spans(run_stamp_times(runs), k);
            exists|i: int|
                0 <= i < ks.len() && (forall|j: int| 0 <= j < ks.len() ==> #[trigger] ks[j] >= ks[i])
                    && objective_verdict(runs, k, d) == spec_time_verdict(ks[i], d)
        }),
{
    let all = spans(run_stamp_times(runs));
    if runs.len() > 0 {
        crate::time::law_min_is_least(all);
        let r = choose|i: int| 0 <= i < all.len() && all[i] == seq_min(all);
        assert forall|q: int| 0 <= q < runs.len() implies span(#[trigger] run_stamp_times(runs)[q]) >= span(
            run_stamp_times(runs)[r],
        ) by {
            assert(all[q] == span(run_stamp_times(runs)[q]));
            assert(seq_min(all) <= all[q]);
        }
    }
    let ks = objective_spans(run_stamp_times(runs), k);
    if ks.len() > 0 {
        crate::time::law_min_is_least(ks);
        let i = choose|i: int| 0 <= i < ks.len() && ks[i] == seq_min(ks);
        assert(forall|j: int| 0 <= j < ks.len() ==> #[trigger] ks[j] >= ks[i]);
    }
}

/// Once the game has started (outside segment mode), a read first runs the subscribed events;
/// the game still counts as started unless the event that stopped them answered otherwise
/// (a reset or save and quit). When it no longer counts as started, nothing else is looked
/// for: the actions, the locations and the items stay as they were, and only the events are
/// logged.
pub proof fn law_events_pause_the_game(
    m: SessionModel,
    verbosity: u64,
    ram: SnesRam,
    time: i64,
    restart: i64,
    tiles: Seq<Tile>,
    location_table: Seq<CheckModel>,
    item_table: Seq<CheckModel>,
)
    requires
        m.game_started,
    ensures
        read_step(m, false, verbosity, ram, time, restart, tiles, location_table, item_table) matches Some(s) ==> {
            let ev = run_checks(CheckKind::Other, m.subscribed_events, m.log, ram, m.history, time);
            &&& s.0.game_started == match ev.2 {
                Some(b) => b,
                None => true,
            }
            &&& ev.2 == Some(false) ==> s.0.locations == m.locations && s.0.items == m.items && s.0.actions
                == m.actions && s.0.log == m.log + ev.1 && s.0.subscribed_events == ev.0
        },
{
}

/// Before the game has started, a read decides whether it now has by the game state byte
/// (0x10): any value from 0x06 to 0x0b means in game. Once it has, every read processed joins
/// the earlier reads as the latest, and at most 60 earlier reads are kept.
pub proof fn law_read_start_and_history(
    m: SessionModel,
    segment_run_mode: bool,
    verbosity: u64,
    ram: SnesRam,
    time: i64,
    restart: i64,
    tiles: Seq<Tile>,
    location_table: Seq<CheckModel>,
    item_table: Seq<CheckModel>,
)
    requires
        session_wf(m),
        time_ok(time),
    ensures
        read_step(m, segment_run_mode, verbosity, ram, time, restart, tiles, location_table, item_table) matches Some(s)
            ==> {
            &&& !m.game_started ==> s.0.game_started == (0x06 <= ram.tile_info_chunk@[0x10] <= 0x0b)
                && s.0.history == m.history && s.0.log == m.log && s.1.logged.len() == 0
            &&& m.game_started ==> s.0.history.len() > 0 && s.0.history.last() == ram
            &&& s.0.history.len() <= 60
        },
{
    law_read_keeps_session_wf(m, segment_run_mode, verbosity, ram, time, restart, tiles, location_table, item_table);
    if m.game_started {
        lemma_started_keeps(m, segment_run_mode, verbosity, ram, time, restart, tiles, location_table, item_table);
    }
}

/// Before the game has started, a read only tells whether it now has: nothing else changes
/// and nothing is reported. A read too short to hold the game state cannot be processed.
pub proof fn law_read_before_start(
    m: SessionModel,
    segment_run_mode: bool,
    verbosity: u64,
    ram: SnesRam,
    time: i64,
    restart: i64,
    tiles: Seq<Tile>,
    location_table: Seq<CheckModel>,
    item_table: Seq<CheckModel>,
)
    requires
        session_wf(m),
        !m.game_started,
    ensures
        read_step(m, segment_run_mode, verbosity, ram, time, restart, tiles, location_table, item_table) is None
            <==> ram.tile_info_chunk@.len() <= GAME_STATE_ADDRESS,
        read_step(m, segment_run_mode, verbosity, ram, time, restart, tiles, location_table, item_table) matches Some(
            s,
        ) ==> s.0 == (SessionModel { game_started: ram.spec_game_has_started(), ..m })
            && s.1.logged.len() == 0 && s.1.notices.len() == 0,
{
}

impl Session {
    pub closed spec fn model(&self) -> SessionModel {
        SessionModel {
            log: self.events.events(),
            history: self.ram_history@,
            game_started: self.game_started,
            phase: phase_of(self.command_state),
            segment: event_models(self.segment_objectives@),
            finished: stamped_models(self.finished_objectives@),
            runs: runs_models(self.finished_runs@),
            subscribed_events: check_models(self.subscribed_events@),
            locations: check_models(self.locations@),
            items: check_models(self.items@),
            actions: check_models(self.actions@),
            commands: check_models(self.commands@),
        }
    }

    /// The table of tiles that transitions are told from.
    pub closed spec fn tiles(&self) -> Seq<Tile> {
        self.tiles@
    }

    /// The location checks as loaded; a run starts from the tracked ones.
    pub closed spec fn location_table(&self) -> Seq<CheckModel> {
        check_models(self.location_table@)
    }

    /// The items as loaded; a run starts from them.
    pub closed spec fn item_table(&self) -> Seq<CheckModel> {
        check_models(self.item_table@)
    }

    pub open spec fn wf(&self) -> bool {
        session_wf(self.model())
    }

    /// A session before the game has started: a fresh log, no earlier reads, the segment
    /// recorder idle, and the given lists; of the location checks, only the tracked ones.
    pub fn new(
        subscribed_events: Vec<Check>,
        locations: Vec<Check>,
        items: Vec<Check>,
        actions: Vec<Check>,
        commands: Vec<Check>,
        tiles: Vec<Tile>,
    ) -> (s: Self)
        ensures
            s.wf(),
            exists|t: i64| s.model().log == start_log(t),
            s.model().history.len() == 0,
            !s.model().game_started,
            s.model().phase == PhaseModel::Idle,
            s.model().segment.len() == 0,
            s.model().finished.len() == 0,
            s.model().runs.len() == 0,
            s.model().subscribed_events == check_models(subscribed_events@),
            s.model().locations == trackable(check_models(locations@)),
            s.model().items == check_models(items@),
            s.model().actions == check_models(actions@),
            s.model().commands == check_models(commands@),
            s.tiles() == tiles@,
            s.location_table() == check_models(locations@),
            s.item_table() == check_models(items@),
    {
        let tracked_locations = trackable_locations(&locations);
        let item_list = clone_checks(&items);
        let s = Session {
            events: EventTracker::new(),
            ram_history: VecDeque::new(),
            game_started: false,
            command_state: CommandState::Idle,
            segment_objectives: Vec::new(),
            finished_objectives: Vec::new(),
            finished_runs: Vec::new(),
            subscribed_events,
            locations: tracked_locations,
            items: item_list,
            actions,
            commands,
            location_table: locations,
            item_table: items,
            tiles,
        };
        proof {
            let t = choose|t: i64| s.events.events() == start_log(t);
            assert(start_log(t)[0] is Transition);
            assert(s.model().finished =~= Seq::<(EventModel, i64)>::empty());
            assert(s.model().runs =~= Seq::<Seq<(EventModel, i64)>>::empty());
            assert(s.model().segment =~= Seq::<EventModel>::empty());
        }
        s
    }

    /// The event log.
    pub fn event_log(&self) -> (t: &EventTracker)
        ensures
            t.events() == self.model().log,
    {
        &self.events
    }

    /// How many earlier reads are kept.
    pub fn history_len(&self) -> (n: usize)
        ensures
            n == self.model().history.len(),
    {
        self.ram_history.len()
    }

    pub fn game_started(&self) -> (b: bool)
        ensures
            b == self.model().game_started,
    {
        self.game_started
    }

    /// The state of the segment recorder.
    pub fn command_state(&self) -> (s: &CommandState)
        ensures
            phase_of(*s) == self.model().phase,
    {
        &self.command_state
    }

    /// The objectives of the recorded segment.
    pub fn segment_objectives(&self) -> (v: &Vec<EventEnum>)
        ensures
            event_models(v@) == self.model().segment,
    {
        &self.segment_objectives
    }

    /// The finished runs, each with the times its objectives were reached.
    pub fn finished_runs(&self) -> (v: &Vec<Vec<(EventEnum, i64)>>)
        ensures
            runs_models(v@) == self.model().runs,
    {
        &self.finished_runs
    }

    /// The read run against a list of checks: an error at the first check reached that cannot
    /// be processed against the log as it then stands.
    fn run_stage(
        kind: &CheckKind,
        ram: &SnesRam,
        history: &mut VecDeque<SnesRam>,
        checks: &mut Vec<Check>,
        events: &mut EventTracker,
        time: i64,
    ) -> (r: Result<(Vec<EventEnum>, Option<bool>), ReadError>)
        ensures
            final(history)@ == old(history)@,
            match checks_stage(*kind, check_models(old(checks)@), old(events).events(), *ram, old(history)@, time) {
                Some(run) => r matches Ok(o) && check_models(final(checks)@) == run.0
                    && final(events).events() == old(events).events() + run.1
                    && event_models(o.0@) == run.1 && o.1 == run.2,
                None => r is Err,
            },
    {
        match run_check_list(kind, ram, history, checks, events, time, true) {
            Some(o) => Ok(o),
            None => Err(ReadError::Unevaluable),
        }
    }

    /// The read run against the event checks and, while the game counts as started, the
    /// actions, the tiles, the location checks and the items: see `play_stage`.
    #[verifier::rlimit(40)]
    fn run_play(
        &mut self,
        ram: &SnesRam,
        time: i64,
        verbosity: u64,
        show: bool,
        logged: &mut Vec<(EventEnum, bool)>,
    ) -> (r: Result<(), ReadError>)
        requires
            has_transition(old(self).model().log),
        ensures
            final(self).tiles() == old(self).tiles(),
            final(self).location_table() == old(self).location_table(),
            final(self).item_table() == old(self).item_table(),
            match play_stage(old(self).model(), *ram, time, verbosity, show, old(self).tiles()) {
                Some(p) => r is Ok && final(self).model() == p.0 && shown_models(final(logged)@)
                    == shown_models(old(logged)@) + p.1,
                None => r is Err,
            },
    {
        let ghost m = self.model();
        let ghost logged0 = shown_models(logged@);
        let (started, emitted) = match Session::run_stage(
            &CheckKind::Other,
            ram,
            &mut self.ram_history,
            &mut self.subscribed_events,
            &mut self.events,
            time,
        ) {
            Ok((emitted, stop)) => {
                let started = match stop {
                    Some(b) => b,
                    None => true,
                };
                (started, emitted)
            },
            Err(e) => {
                return Err(e);
            },
        };
        append_shown(logged, emitted, show || verbosity > 0);
        self.game_started = started;
        if !started {
            return Ok(());
        }
        proof {
            assert(self.events.events().subrange(0, m.log.len() as int) =~= m.log);
            lemma_prefix_transition(m.log, self.events.events());
        }
        let ghost logged1 = shown_models(logged@);
        let r = self.run_in_game(ram, time, verbosity, show, logged);
        proof {
            if r is Ok {
                assert(shown_models(logged@) =~= logged0 + (shown_models(logged@).subrange(
                    logged0.len() as int,
                    shown_models(logged@).len() as int,
                )));
            }
        }
        r
    }

    /// While the game counts as started: see `in_game_stage`.
    #[verifier::rlimit(30)]
    fn run_in_game(
        &mut self,
        ram: &SnesRam,
        time: i64,
        verbosity: u64,
        show: bool,
        logged: &mut Vec<(EventEnum, bool)>,
    ) -> (r: Result<(), ReadError>)
        requires
            has_transition(old(self).model().log),
        ensures
            final(self).tiles() == old(self).tiles(),
            final(self).location_table() == old(self).location_table(),
            final(self).item_table() == old(self).item_table(),
            match in_game_stage(old(self).model(), *ram, time, verbosity, show, old(self).tiles()) {
                Some(p) => r is Ok && final(self).model() == p.0 && shown_models(final(logged)@)
                    == shown_models(old(logged)@) + p.1,
                None => r is Err,
            },
    {
        let ghost log1 = self.events.events();
        if verbosity > 1 {
            match Session::run_stage(
                &CheckKind::Action,
                ram,
                &mut self.ram_history,
                &mut self.actions,
                &mut self.events,
                time,
            ) {
                Ok((emitted, _)) => {
                    append_shown(logged, emitted, show);
                },
                Err(e) => {
                    return Err(e);
                },
            }
            proof {
                assert(self.events.events().subrange(0, log1.len() as int) =~= log1);
                lemma_prefix_transition(log1, self.events.events());
            }
        } else {
            proof {
                assert(log1 + Seq::<EventModel>::empty() =~= log1);
                assert(shown_models(logged@) + shown(Seq::<EventModel>::empty(), show) =~= shown_models(logged@));
            }
        }
        self.run_tracked(ram, time, show || verbosity > 0, logged)
    }

    /// The transition, the location checks and the items: see `tracked_stage`.
    fn run_tracked(
        &mut self,
        ram: &SnesRam,
        time: i64,
        show: bool,
        logged: &mut Vec<(EventEnum, bool)>,
    ) -> (r: Result<(), ReadError>)
        requires
            has_transition(old(self).model().log),
        ensures
            final(self).tiles() == old(self).tiles(),
            final(self).location_table() == old(self).location_table(),
            final(self).item_table() == old(self).item_table(),
            match tracked_stage(old(self).model(), *ram, time, show, old(self).tiles()) {
                Some(p) => r is Ok && final(self).model() == p.0 && shown_models(final(logged)@)
                    == shown_models(old(logged)@) + p.1,
                None => r is Err,
            },
    {
        let ghost log2 = self.events.events();
        let ghost logged0 = shown_models(logged@);
        let latest_id = match self.events.latest_transition() {
            Some(t) => {
                assert(latest_tile(log2) == t.model());
                t.id
            },
            None => {
                return Err(ReadError::Unevaluable);
            },
        };
        if !tiles_evaluable(&self.tiles, latest_id, ram) {
            return Err(ReadError::Unevaluable);
        }
        let emitted = check_for_transitions(ram, &mut self.events, time, &self.tiles);
        let ghost tr = match transition_for(self.tiles@, log2, ram, time) {
            Some(t) => seq![EventModel::Transition(t)],
            None => Seq::empty(),
        };
        proof {
            assert(self.events.events() =~= log2 + tr);
            assert(event_models(emitted@) =~= tr);
        }
        append_shown(logged, emitted, show);
        let ghost log3 = self.events.events();
        let ghost logged1 = shown_models(logged@);
        match Session::run_stage(
            &CheckKind::Location,
            ram,
            &mut self.ram_history,
            &mut self.locations,
            &mut self.events,
            time,
        ) {
            Ok((emitted, _)) => {
                append_shown(logged, emitted, show);
            },
            Err(e) => {
                return Err(e);
            },
        }
        let ghost logged2 = shown_models(logged@);
        match Session::run_stage(
            &CheckKind::Item,
            ram,
            &mut self.ram_history,
            &mut self.items,
            &mut self.events,
            time,
        ) {
            Ok((emitted, _)) => {
                append_shown(logged, emitted, show);
            },
            Err(e) => {
                return Err(e);
            },
        }
        proof {
            let l = run_checks(CheckKind::Location, check_models(old(self).locations@), log3, *ram, old(self).ram_history@, time);
            let it = run_checks(CheckKind::Item, check_models(old(self).items@), log3 + l.1, *ram, old(self).ram_history@, time);
            assert(shown_models(logged@) =~= logged0 + (shown(tr, show) + shown(l.1, show) + shown(it.1, show)));
        }
        Ok(())
    }

    /// In segment mode, the commands that the read shows: see `command_stage`.
    fn run_commands(
        &mut self,
        ram: &SnesRam,
        time: i64,
        logged: &mut Vec<(EventEnum, bool)>,
    ) -> (r: Result<Option<Check>, ReadError>)
        ensures
            final(self).tiles() == old(self).tiles(),
            final(self).location_table() == old(self).location_table(),
            final(self).item_table() == old(self).item_table(),
            match command_stage(old(self).model(), *ram, time) {
                Some(c) => r matches Ok(cmd) && final(self).model() == c.0 && shown_models(
                    final(logged)@,
                ) == shown_models(old(logged)@) + c.1 && match cmd {
                    Some(k) => c.2 == Some(k.model()),
                    None => c.2 is None,
                },
                None => r is Err,
            },
    {
        let ghost models = check_models(self.commands@);
        let ghost log = self.events.events();
        let ghost history = self.ram_history@;
        let (emitted, stop) = match Session::run_stage(
            &CheckKind::Command,
            ram,
            &mut self.ram_history,
            &mut self.commands,
            &mut self.events,
            time,
        ) {
            Ok(o) => o,
            Err(e) => {
                return Err(e);
            },
        };
        proof {
            lemma_command_stop(models, log, *ram, history, time);
        }
        let cmd = stopping_command(&emitted, stop);
        append_shown(logged, emitted, true);
        Ok(cmd)
    }

    /// The segment recorder's step: see `segment_stage`. When a run is finished, the fresh log
    /// is stamped with the clock's reading, which is returned with the result.
    fn run_segment(
        &mut self,
        cmd: Option<Check>,
        ram: &SnesRam,
        time: i64,
        notices: &mut Vec<SegmentNotice>,
    ) -> (r: (Result<(), ReadError>, Ghost<i64>))
        requires
            session_wf(old(self).model()),
            time_ok(time),
        ensures
            final(self).tiles() == old(self).tiles(),
            final(self).location_table() == old(self).location_table(),
            final(self).item_table() == old(self).item_table(),
            match segment_stage(
                old(self).model(),
                opt_check_model(cmd),
                *ram,
                time,
                r.1@,
                old(self).tiles(),
                old(self).location_table(),
                old(self).item_table(),
            ) {
                Some(g) => r.0 is Ok && final(self).model() == g.0 && notice_models(final(notices)@)
                    == notice_models(old(notices)@) + g.1,
                None => r.0 is Err,
            },
    {
        match self.command_state {
            CommandState::RunFinished => self.finish_run(notices),
            _ => (self.segment_step(cmd, ram, time, notices), Ghost(0)),
        }
    }

    /// The segment recorder's step outside a finished run: see `segment_stage`.
    #[verifier::rlimit(40)]
    fn segment_step(
        &mut self,
        cmd: Option<Check>,
        ram: &SnesRam,
        time: i64,
        notices: &mut Vec<SegmentNotice>,
    ) -> (r: Result<(), ReadError>)
        requires
            session_wf(old(self).model()),
            time_ok(time),
            !(old(self).model().phase is RunFinished),
        ensures
            final(self).tiles() == old(self).tiles(),
            final(self).location_table() == old(self).location_table(),
            final(self).item_table() == old(self).item_table(),
            match segment_stage(
                old(self).model(),
                opt_check_model(cmd),
                *ram,
                time,
                0,
                old(self).tiles(),
                old(self).location_table(),
                old(self).item_table(),
            ) {
                Some(g) => r is Ok && final(self).model() == g.0 && notice_models(final(notices)@)
                    == notice_models(old(notices)@) + g.1,
                None => r is Err,
            },
    {
        let ghost m = self.model();
        let ghost notices0 = notice_models(notices@);
        let id: usize = match &cmd {
            Some(c) => c.id,
            None => 0,
        };
        let input = match cmd {
            Some(c) => c,
            None => Check::new(0),
        };
        proof {
            lemma_runs_times(self.finished_runs@);
            lemma_times_of(self.finished_objectives@);
        }
        match &self.command_state {
            CommandState::Idle => {
                if id == 1 {
                    self.command_state = CommandState::RecordingInProgress(input);
                }
                Ok(())
            },
            CommandState::RecordingInProgress(start) => {
                if id == 1 {
                    self.command_state = CommandState::RecordingInProgress(input);
                    Ok(())
                } else if id == 2 && start.id == 1 {
                    let start_event = EventEnum::Command(start.deep_clone());
                    let between = self.events.objectives_between(
                        start_event,
                        Some(EventEnum::Command(input)),
                    );
                    if !events_timed(&between) {
                        return Err(ReadError::Unevaluable);
                    }
                    proof {
                        lemma_timed_compactable(event_models(between@));
                    }
                    let segment = between.compact();
                    let _ = segment.len();
                    let ghost before = notices@;
                    notices.push(SegmentNotice::SegmentRecorded(clone_events(&segment)));
                    assert(notice_models(notices@) =~= notice_models(before).push(
                        notices@[before.len() as int].model(),
                    ));
                    self.segment_objectives = segment;
                    self.command_state = CommandState::SegmentRecorded;
                    Ok(())
                } else {
                    Ok(())
                }
            },
            CommandState::SegmentRecorded => {
                if self.segment_objectives.len() == 0 {
                    self.command_state = CommandState::Idle;
                    return Ok(());
                }
                if id == 1 {
                    self.command_state = CommandState::RecordingInProgress(input);
                    return Ok(());
                }
                let objective = self.segment_objectives[0].deep_clone();
                if !objective_evaluable(&objective, &self.tiles, &self.events, ram, &mut self.ram_history) {
                    return Err(ReadError::Unevaluable);
                }
                if check_for_segment_run_start(
                    ram,
                    &mut self.ram_history,
                    &objective,
                    &self.events,
                    &self.tiles,
                ) {
                    self.ram_history = VecDeque::new();
                    self.items = clone_checks(&self.item_table);
                    self.locations = trackable_locations(&self.location_table);
                    let ghost fin = self.finished_objectives@;
                    self.finished_objectives.push((objective, time));
                    assert(stamped_models(self.finished_objectives@) =~= stamped_models(fin).push(
                        (objective.model(), time),
                    ));
                    let ghost before = notices@;
                    notices.push(SegmentNotice::RunStarted);
                    assert(notice_models(notices@) =~= notice_models(before).push(NoticeModel::RunStarted));
                    self.command_state = CommandState::RunStarted(1);
                }
                Ok(())
            },
            CommandState::RunStarted(k) => {
                let k = *k;
                if id == 1 {
                    self.finished_objectives = Vec::new();
                    self.command_state = CommandState::RecordingInProgress(input);
                    assert(stamped_models(self.finished_objectives@) =~= Seq::empty());
                    return Ok(());
                }
                if id == 2 {
                    let ghost before = notices@;
                    notices.push(SegmentNotice::RunStopped);
                    assert(notice_models(notices@) =~= notice_models(before).push(NoticeModel::RunStopped));
                    self.finished_objectives = Vec::new();
                    self.command_state = CommandState::SegmentRecorded;
                    assert(stamped_models(self.finished_objectives@) =~= Seq::empty());
                    return Ok(());
                }
                if self.segment_objectives.len() <= k {
                    self.command_state = CommandState::RunFinished;
                    return Ok(());
                }
                self.objective_step(k, ram, time, notices)
            },
            CommandState::RunFinished => {
                proof {
                    assert(false);
                }
                Ok(())
            },
            _ => Ok(()),
        }
    }

    /// During a run at objective `k`: see `objective_stage`.
    fn objective_step(
        &mut self,
        k: usize,
        ram: &SnesRam,
        time: i64,
        notices: &mut Vec<SegmentNotice>,
    ) -> (r: Result<(), ReadError>)
        requires
            session_wf(old(self).model()),
            time_ok(time),
            old(self).model().phase == PhaseModel::RunStarted(k),
            k < old(self).model().segment.len(),
        ensures
            final(self).tiles() == old(self).tiles(),
            final(self).location_table() == old(self).location_table(),
            final(self).item_table() == old(self).item_table(),
            match objective_stage(old(self).model(), k, *ram, time, old(self).tiles()) {
                Some(g) => r is Ok && final(self).model() == g.0 && notice_models(final(notices)@)
                    == notice_models(old(notices)@) + g.1,
                None => r is Err,
            },
    {
        let ghost m = self.model();
        let objective = self.segment_objectives[k].deep_clone();
        assert(objective.model() == m.segment[k as int]);
        if !objective_evaluable(&objective, &self.tiles, &self.events, ram, &mut self.ram_history) {
            return Err(ReadError::Unevaluable);
        }
        if !check_for_segment_run_start(ram, &mut self.ram_history, &objective, &self.events, &self.tiles) {
            return Ok(());
        }
        let ghost fin = self.finished_objectives@;
        self.finished_objectives.push((objective.deep_clone(), time));
        proof {
            assert(stamped_models(self.finished_objectives@) =~= stamped_models(fin).push(
                (objective.model(), time),
            ));
            lemma_times_of(self.finished_objectives@);
            lemma_runs_times(self.finished_runs@);
            assert(time_ok(m.finished[k - 1].1));
            let runs = runs_times(self.finished_runs@);
            assert forall|r: int, i: int| 0 <= r < runs.len() && 0 <= i < runs[r].len() implies -MAX_TIME_MILLIS
                <= #[trigger] runs[r][i] <= MAX_TIME_MILLIS by {
                assert(runs[r][i] == m.runs[r][i].1);
                assert(time_ok(m.runs[r][i].1));
            }
            lemma_objective_spans_bounded(runs, k as int, MAX_TIME_MILLIS as int);
            let all = objective_spans(runs, k as int);
            if all.len() > 0 {
                lemma_seq_min_bounded(all, -2 * MAX_TIME_MILLIS, 2 * MAX_TIME_MILLIS);
            }
        }
        let otime = match self.finished_objectives.objective_duration(k) {
            Some(d) => d,
            None => {
                proof {
                    assert(false);
                }
                0
            },
        };
        let verdict = self.finished_runs.objective_time_verdict(k, &otime);
        let ghost before = notices@;
        notices.push(
            SegmentNotice::ObjectiveReached {
                index: k,
                last_index: self.segment_objectives.len() - 1,
                objective,
                time: otime,
                verdict,
            },
        );
        assert(notice_models(notices@) =~= notice_models(before).push(notices@[before.len() as int].model()));
        self.command_state = CommandState::RunStarted(k + 1);
        Ok(())
    }

    /// The run is finished: see `finish_stage`. The fresh log is stamped with the clock's
    /// reading at this moment, which is returned with the result.
    fn finish_run(&mut self, notices: &mut Vec<SegmentNotice>) -> (r: (Result<(), ReadError>, Ghost<i64>))
        requires
            session_wf(old(self).model()),
            old(self).model().phase == PhaseModel::RunFinished,
        ensures
            final(self).tiles() == old(self).tiles(),
            final(self).location_table() == old(self).location_table(),
            final(self).item_table() == old(self).item_table(),
            match finish_stage(old(self).model(), r.1@) {
                Some(g) => r.0 is Ok && final(self).model() == g.0 && notice_models(final(notices)@)
                    == notice_models(old(notices)@) + g.1,
                None => r.0 is Err,
            },
    {
        let ghost m = self.model();
        proof {
            lemma_times_of(self.finished_objectives@);
            lemma_runs_times(self.finished_runs@);
            let runs = runs_times(self.finished_runs@);
            assert forall|r: int, i: int| 0 <= r < runs.len() && 0 <= i < runs[r].len() implies -MAX_TIME_MILLIS
                <= #[trigger] runs[r][i] <= MAX_TIME_MILLIS by {
                assert(runs[r][i] == m.runs[r][i].1);
                assert(time_ok(m.runs[r][i].1));
            }
            assert forall|r: int| 0 <= r < runs.len() implies #[trigger] runs[r].len() > 0 by {
                assert(m.runs[r].len() > 0);
            }
            lemma_spans_bounded(runs, MAX_TIME_MILLIS as int);
            if spans(runs).len() > 0 {
                lemma_seq_min_bounded(spans(runs), -2 * MAX_TIME_MILLIS, 2 * MAX_TIME_MILLIS);
            }
            assert(time_ok(m.finished[0].1));
            assert(time_ok(m.finished[m.finished.len() - 1].1));
        }
        let d = self.finished_objectives.to_duration();
        let verdict = self.finished_runs.run_time_verdict(&d);
        let mut finished: Vec<(EventEnum, i64)> = Vec::new();
        std::mem::swap(&mut finished, &mut self.finished_objectives);
        let ghost runs0 = self.finished_runs@;
        self.finished_runs.push(finished);
        proof {
            assert(runs_models(self.finished_runs@) =~= runs_models(runs0).push(stamped_models(finished@)));
            lemma_runs_times(self.finished_runs@);
            let runs = runs_times(self.finished_runs@);
            assert forall|r: int| 0 <= r < runs.len() implies #[trigger] runs[r].len() > 0 && fits_i64(span(runs[r])) by {
                let mr = runs_models(self.finished_runs@)[r];
                assert(mr.len() > 0);
                assert(time_ok(mr[0].1));
                assert(time_ok(mr[mr.len() - 1].1));
            }
        }
        let len = self.finished_runs.len();
        let n = if ROLLING_RUNS < len {
            ROLLING_RUNS
        } else {
            len
        };
        if len as u128 > i64::MAX as u128 {
            return (Err(ReadError::Unevaluable), Ghost(0));
        }
        proof {
            let runs = runs_times(self.finished_runs@);
            assert(runs.take(len as int) =~= runs);
        }
        if !spans_sum_fits(&self.finished_runs, len) || !spans_sum_fits(&self.finished_runs, n) {
            return (Err(ReadError::Unevaluable), Ghost(0));
        }
        let avg = self.finished_runs.avg();
        let rolling_avg = self.finished_runs.rolling_avg(ROLLING_RUNS);
        let ghost before = notices@;
        notices.push(SegmentNotice::RunFinished { time: d, verdict, avg, rolling_avg });
        assert(notice_models(notices@) =~= notice_models(before).push(notices@[before.len() as int].model()));
        self.command_state = CommandState::SegmentRecorded;
        self.events = EventTracker::new();
        let restart = Ghost(choose|t: i64| self.events.events() == start_log(t));
        assert(stamped_models(self.finished_objectives@) =~= Seq::empty());
        (Ok(()), restart)
    }

    /// The game is finished: see `game_finished`.
    fn game_is_finished(&self) -> (r: bool)
        ensures
            r == game_finished(self.model().log),
    {
        let ganon = match self.events.latest_other_event() {
            Some(e) => e.id == 5,
            None => false,
        };
        let triforce = match self.events.latest_transition() {
            Some(t) => t.id == 556,
            None => false,
        };
        ganon || triforce
    }

    /// A read once the game has started, before it joins the earlier reads: see
    /// `started_step`. Returns, with the result, the clock's reading that a finished run's
    /// fresh log is stamped with.
    fn process_started(
        &mut self,
        segment_run_mode: bool,
        verbosity: u64,
        time_of_read: i64,
        ram: &SnesRam,
        logged: &mut Vec<(EventEnum, bool)>,
        notices: &mut Vec<SegmentNotice>,
    ) -> (r: (Result<(), ReadError>, Ghost<i64>))
        requires
            session_wf(old(self).model()),
            time_ok(time_of_read),
            old(logged)@.len() == 0,
            old(notices)@.len() == 0,
        ensures
            final(self).tiles() == old(self).tiles(),
            final(self).location_table() == old(self).location_table(),
            final(self).item_table() == old(self).item_table(),
            match started_step(
                old(self).model(),
                segment_run_mode,
                verbosity,
                *ram,
                time_of_read,
                r.1@,
                old(self).tiles(),
                old(self).location_table(),
                old(self).item_table(),
            ) {
                Some(t) => r.0 is Ok && final(self).model() == t.0 && shown_models(final(logged)@) == t.1
                    && notice_models(final(notices)@) == t.2,
                None => r.0 is Err,
            },
    {
        let ghost m0 = self.model();
        let ghost mut restart: i64 = 0;
        proof {
            lemma_command_keeps(m0, *ram, time_of_read);
            assert(shown_models(logged@) =~= Seq::empty());
            assert(notice_models(notices@) =~= Seq::empty());
        }
        if segment_run_mode {
            let cmd = match self.run_commands(ram, time_of_read, logged) {
                Ok(c) => c,
                Err(e) => {
                    return (Err(e), Ghost(0));
                },
            };
            let ghost m1 = self.model();
            let ghost cmd_model = opt_check_model(cmd);
            proof {
                assert(shown_models(logged@) =~= Seq::empty() + shown_models(logged@));
            }
            let (seg, stamp) = self.run_segment(cmd, ram, time_of_read, notices);
            proof {
                restart = stamp@;
            }
            match seg {
                Ok(()) => {},
                Err(e) => {
                    return (Err(e), Ghost(restart));
                },
            }
            proof {
                lemma_segment_keeps(
                    m1,
                    cmd_model,
                    *ram,
                    time_of_read,
                    restart,
                    self.tiles(),
                    self.location_table(),
                    self.item_table(),
                );
                assert(notice_models(notices@) =~= Seq::empty() + notice_models(notices@));
            }
        }
        let show = match self.command_state {
            CommandState::RunStarted(_) => false,
            CommandState::RunFinished => false,
            _ => true,
        };
        let ghost logged1 = shown_models(logged@);
        match self.run_play(ram, time_of_read, verbosity, show, logged) {
            Ok(()) => {},
            Err(e) => {
                return (Err(e), Ghost(restart));
            },
        }
        proof {
            if !segment_run_mode {
                assert(logged1 =~= Seq::empty());
                assert(shown_models(logged@) =~= Seq::empty() + shown_models(logged@));
            }
        }
        (Ok(()), Ghost(restart))
    }

    /// Processes one RAM read, taken at `time_of_read`: see `read_step`. In segment mode the
    /// commands and the segment recorder take part; `verbosity` decides which events are shown
    /// and whether actions are looked for. An error means that something the read is checked
    /// against cannot be evaluated on it; the session is then not to be used further.
    pub fn process_read(
        &mut self,
        segment_run_mode: bool,
        verbosity: u64,
        time_of_read: i64,
        ram: SnesRam,
    ) -> (r: Result<ReadOutcome, ReadError>)
        requires
            old(self).wf(),
            time_ok(time_of_read),
        ensures
            final(self).tiles() == old(self).tiles(),
            final(self).location_table() == old(self).location_table(),
            final(self).item_table() == old(self).item_table(),
            exists|restart: i64|
                match #[trigger] read_step(
                    old(self).model(),
                    segment_run_mode,
                    verbosity,
                    ram,
                    time_of_read,
                    restart,
                    old(self).tiles(),
                    old(self).location_table(),
                    old(self).item_table(),
                ) {
                    Some(s) => r matches Ok(o) && final(self).model() == s.0 && o.model() == s.1,
                    None => r is Err,
                },
            r is Ok ==> final(self).wf(),
    {
        let ghost m0 = self.model();
        let ghost mut restart: i64 = 0;
        let mut logged: Vec<(EventEnum, bool)> = Vec::new();
        let mut notices: Vec<SegmentNotice> = Vec::new();
        if !self.game_started {
            if ram.tile_info_chunk.len() <= GAME_STATE_ADDRESS {
                assert(read_step(m0, segment_run_mode, verbosity, ram, time_of_read, restart, self.tiles(), self.location_table(), self.item_table()) is None);
                return Err(ReadError::Unevaluable);
            }
            self.game_started = ram.game_has_started();
            assert(shown_models(logged@) =~= Seq::empty());
            assert(notice_models(notices@) =~= Seq::empty());
        } else {
            let (res, stamp) = self.process_started(
                segment_run_mode,
                verbosity,
                time_of_read,
                &ram,
                &mut logged,
                &mut notices,
            );
            proof {
                restart = stamp@;
            }
            match res {
                Ok(()) => {},
                Err(e) => {
                    assert(read_step(m0, segment_run_mode, verbosity, ram, time_of_read, restart, self.tiles(), self.location_table(), self.item_table()) is None);
                    return Err(e);
                },
            }
            self.ram_history.push_back(ram);
        }
        let ghost h = self.ram_history@;
        if self.ram_history.len() > HISTORY_LEN {
            let _ = self.ram_history.pop_front();
        }
        assert(self.ram_history@ =~= trimmed(h));
        let game_finished = self.game_is_finished();
        proof {
            law_read_keeps_session_wf(
                m0,
                segment_run_mode,
                verbosity,
                ram,
                time_of_read,
                restart,
                self.tiles(),
                self.location_table(),
                self.item_table(),
            );
        }
        Ok(ReadOutcome { logged, notices, game_finished })
    }
}

} // verus!
