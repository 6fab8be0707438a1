use lttp_autotimer::check::Check;
use lttp_autotimer::condition::Conditions;
use lttp_autotimer::event::{CommandState, EventEnum, EventLog};
use lttp_autotimer::session::{trackable_locations, ReadError, SegmentNotice, Session};
use lttp_autotimer::snes::SnesRam;
use lttp_autotimer::tile::Tile;
use lttp_autotimer::time::TimeVerdict;

const GAME_STATE: usize = 0x10;
const OVERWORLD: usize = 0x40a;
const COMMAND_BYTE: usize = 0x200;
const SAVE_BYTE: usize = 3;

fn tiles() -> Vec<Tile> {
    vec![
        Tile { id: 1, name: "Link's House OW".to_string(), address_value: vec![0x2c], ..Default::default() },
        Tile { id: 2, name: "Cave OW".to_string(), address_value: vec![0x2d], ..Default::default() },
        Tile { id: 556, name: "Triforce Room".to_string(), address_value: vec![0x2e], ..Default::default() },
    ]
}

fn location() -> Check {
    Check { id: 40, name: "Mushroom".to_string(), sram_offset: Some((0xf021 + SAVE_BYTE) as u32), sram_mask: Some(0x10), ..Default::default() }
}

fn command(id: usize, value: u8) -> Check {
    Check { id, conditions: Some(vec![Conditions::ValueEq { sram_offset: COMMAND_BYTE, sram_value: value }]), ..Default::default() }
}

fn read(state: u8, overworld: u8, command_value: u8, save: u8) -> SnesRam {
    let mut ram = SnesRam::new();
    ram.tile_info_chunk[GAME_STATE] = state;
    ram.tile_info_chunk[OVERWORLD] = overworld;
    ram.tile_info_chunk[COMMAND_BYTE] = command_value;
    ram.dunka_chunka[SAVE_BYTE] = save;
    ram
}

fn session() -> Session {
    Session::new(vec![], vec![location()], vec![], vec![], vec![command(1, 1), command(2, 2)], tiles())
}

#[test]
fn before_the_game_starts_only_the_start_is_looked_for() {
    let mut s = session();
    let out = s.process_read(false, 0, 1000, read(0x01, 0x2c, 0, 0)).unwrap();
    assert!(out.logged.is_empty());
    assert!(!s.game_started());
    assert_eq!(s.history_len(), 0);
    let out = s.process_read(false, 0, 2000, read(0x07, 0x2c, 0, 0)).unwrap();
    assert!(out.logged.is_empty());
    assert!(s.game_started());
    assert_eq!(s.history_len(), 0);
}

#[test]
fn a_short_read_cannot_be_processed() {
    let mut s = session();
    let mut ram = SnesRam::new();
    ram.tile_info_chunk.truncate(4);
    assert!(matches!(s.process_read(false, 0, 1000, ram), Err(ReadError::Unevaluable)));
}

#[test]
fn transitions_and_checks_are_logged_and_shown() {
    let mut s = session();
    s.process_read(false, 0, 1000, read(0x07, 0x2c, 0, 0)).unwrap();
    let out = s.process_read(false, 0, 2000, read(0x07, 0x2c, 0, 0)).unwrap();
    assert_eq!(out.logged.len(), 1);
    assert!(matches!(&out.logged[0], (EventEnum::Transition(t), true) if t.id == 1 && t.timestamp == Some(2000)));
    assert_eq!(s.history_len(), 1);
    let out = s.process_read(false, 0, 3000, read(0x07, 0x2c, 0, 0x10)).unwrap();
    assert_eq!(out.logged.len(), 1);
    assert!(matches!(&out.logged[0], (EventEnum::LocationCheck(c), true) if c.id == 40 && c.time_of_check == Some(3000)));
    assert_eq!(s.event_log().latest_location_check().unwrap().id, 40);
    assert!(!out.game_finished);
}

#[test]
fn the_triforce_room_finishes_the_game() {
    let mut s = session();
    s.process_read(false, 0, 1000, read(0x07, 0x2c, 0, 0)).unwrap();
    let out = s.process_read(false, 0, 2000, read(0x07, 0x2e, 0, 0)).unwrap();
    assert!(out.game_finished);
}

#[test]
fn at_most_sixty_earlier_reads_are_kept() {
    let mut s = session();
    s.process_read(false, 0, 0, read(0x07, 0x2c, 0, 0)).unwrap();
    for t in 1..=70 {
        s.process_read(false, 0, t, read(0x07, 0x2c, 0, 0)).unwrap();
        assert!(s.history_len() <= 60);
    }
    assert_eq!(s.history_len(), 60);
}

#[test]
fn a_segment_is_recorded_and_run() {
    let mut s = session();
    // Game starts.
    s.process_read(true, 0, 0, read(0x07, 0x2d, 0, 0)).unwrap();
    // Command 1 starts recording; the cave is entered.
    let out = s.process_read(true, 0, 1000, read(0x07, 0x2c, 1, 0)).unwrap();
    assert!(matches!(&out.logged[0], (EventEnum::Command(c), true) if c.id == 1));
    assert!(matches!(s.command_state(), CommandState::RecordingInProgress(c) if c.id == 1));
    s.process_read(true, 0, 2000, read(0x07, 0x2d, 0, 0)).unwrap();
    s.process_read(true, 0, 3000, read(0x07, 0x2d, 0, 0x10)).unwrap();
    // Command 2 ends the recording: the segment holds what was logged in between.
    let out = s.process_read(true, 0, 4000, read(0x07, 0x2d, 2, 0x10)).unwrap();
    assert!(matches!(s.command_state(), CommandState::SegmentRecorded));
    assert_eq!(s.segment_objectives().len(), 3);
    assert!(matches!(&out.notices[0], SegmentNotice::SegmentRecorded(v) if v.len() == 3));
    // Reaching the first objective starts a run; events are not shown during it.
    let out = s.process_read(true, 0, 5000, read(0x07, 0x2c, 0, 0)).unwrap();
    assert!(matches!(out.notices[0], SegmentNotice::RunStarted));
    assert!(matches!(s.command_state(), CommandState::RunStarted(1)));
    assert!(matches!(&out.logged[0], (EventEnum::Transition(t), false) if t.id == 1));
    assert_eq!(s.history_len(), 1);
    let out = s.process_read(true, 0, 6500, read(0x07, 0x2d, 0, 0)).unwrap();
    match &out.notices[0] {
        SegmentNotice::ObjectiveReached { index, last_index, time, verdict, .. } => {
            assert_eq!((*index, *last_index, *time), (1, 2, 1500));
            assert!(matches!(verdict, TimeVerdict::Best(0)));
        }
        _ => panic!("expected an objective"),
    }
    let out = s.process_read(true, 0, 7000, read(0x07, 0x2d, 0, 0x10)).unwrap();
    assert!(matches!(&out.notices[0], SegmentNotice::ObjectiveReached { index: 2, time: 500, .. }));
    assert!(matches!(s.command_state(), CommandState::RunStarted(3)));
    // Past the last objective the run is finished, and then recorded.
    s.process_read(true, 0, 8000, read(0x07, 0x2d, 0, 0x10)).unwrap();
    assert!(matches!(s.command_state(), CommandState::RunFinished));
    let out = s.process_read(true, 0, 9000, read(0x07, 0x2d, 0, 0x10)).unwrap();
    match &out.notices[0] {
        SegmentNotice::RunFinished { time, verdict, avg, rolling_avg } => {
            assert_eq!((*time, *avg, *rolling_avg), (2000, 2000, 2000));
            assert!(matches!(verdict, TimeVerdict::Best(0)));
        }
        _ => panic!("expected the run to finish"),
    }
    assert!(matches!(s.command_state(), CommandState::SegmentRecorded));
    assert_eq!(s.finished_runs().len(), 1);
    // The log starts afresh from the start tile, so the tile the player stands on is logged
    // again by the same read.
    assert!(out.logged.iter().any(|(e, _)| matches!(e, EventEnum::Transition(t) if t.id == 2)));
    assert_eq!(s.event_log().latest_transition().unwrap().timestamp, Some(9000));
}

#[test]
fn stopping_a_run_goes_back_to_the_segment() {
    let mut s = session();
    s.process_read(true, 0, 0, read(0x07, 0x2d, 0, 0)).unwrap();
    s.process_read(true, 0, 1000, read(0x07, 0x2c, 1, 0)).unwrap();
    s.process_read(true, 0, 2000, read(0x07, 0x2d, 0, 0)).unwrap();
    s.process_read(true, 0, 3000, read(0x07, 0x2d, 2, 0)).unwrap();
    assert_eq!(s.segment_objectives().len(), 2);
    s.process_read(true, 0, 4000, read(0x07, 0x2c, 0, 0)).unwrap();
    assert!(matches!(s.command_state(), CommandState::RunStarted(1)));
    let out = s.process_read(true, 0, 5000, read(0x07, 0x2c, 2, 0)).unwrap();
    assert!(matches!(out.notices[0], SegmentNotice::RunStopped));
    assert!(matches!(s.command_state(), CommandState::SegmentRecorded));
}

#[test]
fn untracked_locations_are_left_out() {
    let checks = vec![
        Check { id: 1, sram_offset: Some(0), ..Default::default() },
        Check { id: 2, sram_offset: None, ..Default::default() },
        Check { id: 3, sram_offset: Some(5), ..Default::default() },
        Check { id: 4, conditions: Some(vec![]), ..Default::default() },
    ];
    let ids: Vec<usize> = trackable_locations(&checks).iter().map(|c| c.id).collect();
    assert_eq!(ids, vec![3, 4]);
}

#[test]
fn conditions_after_the_deciding_one_are_not_needed() {
    // Outdoors, `Underworld` fails first, so the unimplemented condition after it is never reached.
    let gated = Check {
        id: 41,
        name: "Cellar".to_string(),
        conditions: Some(vec![Conditions::Underworld, Conditions::BitWiseTrue { sram_offset: 0, sram_mask: 1 }]),
        ..Default::default()
    };
    let mut s = Session::new(vec![], vec![gated], vec![], vec![], vec![], tiles());
    s.process_read(false, 0, 1000, read(0x07, 0x2c, 0, 0)).unwrap();
    let out = s.process_read(false, 0, 2000, read(0x07, 0x2c, 0, 0)).unwrap();
    assert_eq!(out.logged.len(), 1);
    let out = s.process_read(false, 0, 3000, read(0x07, 0x2c, 0, 0)).unwrap();
    assert!(out.logged.is_empty());
    // Indoors, `Underworld` holds and the unimplemented condition would be evaluated.
    let mut indoors = read(0x07, 0x2c, 0, 0);
    indoors.tile_info_chunk[0x1b] = 1;
    assert!(matches!(s.process_read(false, 0, 4000, indoors), Err(ReadError::Unevaluable)));
}
