use game_of_life::board::{CellState, InMemoryBoard};
use game_of_life::desktop::ipc_types::{
    CellEdit, InitialSource, IpcRunStatistics, IpcRunStatus, Mode, PatternName,
};
use game_of_life::desktop::messages::{load_run_error_message, save_snapshot_error};
use game_of_life::desktop::session::{
    collect_cells, RunBoardSelection, SessionError, SessionState, SnapshotLoad,
    DEFAULT_MAX_BOARD_MEMORY_BYTES,
};
use game_of_life::persistence::{
    read_board_snapshot_default, write_board_snapshot_to, BoardSnapshot, BoardSnapshotWriteError,
    FileKind, RunRecordReadError,
};

fn fresh_session(width: u32, height: u32, max_iter: u64) -> SessionState {
    let mut s = SessionState::new();
    s.create_run(width, height, InitialSource::Empty, max_iter, None).expect("create_run");
    s
}

fn board_from_grid(lines: &[&str]) -> InMemoryBoard {
    let height = lines.len();
    let width = lines.first().map(|line| line.len()).unwrap_or(0);
    let mut board = InMemoryBoard::new(width, height);
    for (y, row) in lines.iter().enumerate() {
        for (x, ch) in row.chars().enumerate() {
            let state = if ch == '#' { CellState::Alive } else { CellState::Dead };
            board.set(x, y, state);
        }
    }
    board
}

fn generated_board(width: usize, height: usize) -> InMemoryBoard {
    let mut board = InMemoryBoard::new(width, height);
    for y in 0..height {
        for x in 0..width {
            if ((x * 17) + (y * 31)) % 7 == 0 {
                board.set(x, y, CellState::Alive);
            }
        }
    }
    board
}

fn board_bytes(board: &InMemoryBoard) -> Vec<u8> {
    let mut bytes = Vec::new();
    for y in 0..board.height() {
        for x in 0..board.width() {
            bytes.push(if matches!(board.get(x, y), CellState::Alive) { 1 } else { 0 });
        }
    }
    bytes
}

fn snapshot_text(board: InMemoryBoard) -> String {
    let mut text = String::new();
    write_board_snapshot_to(&mut text, &BoardSnapshot::for_board(board));
    text
}

fn load_snapshot_of(s: &mut SessionState, path: &str, board: InMemoryBoard) -> SnapshotLoad {
    let text = snapshot_text(board);
    let read = read_board_snapshot_default(path, &text, DEFAULT_MAX_BOARD_MEMORY_BYTES);
    s.load_board_snapshot(read, path.to_string()).expect("load snapshot")
}

fn cells(s: &SessionState) -> Vec<u8> {
    s.board_payload().decoded_cells().unwrap()
}

fn edit(x: u32, y: u32) -> CellEdit {
    CellEdit { x, y, alive: true }
}

fn paint_glider(s: &mut SessionState) {
    s.paint_cells(&[edit(2, 1), edit(3, 2), edit(1, 3), edit(2, 3), edit(3, 3)]).unwrap();
}

fn save(s: &mut SessionState, path: &str) {
    let (board, revision) = s.board_to_save().unwrap();
    let saved = collect_cells(&board);
    s.record_saved(path.to_string(), saved, revision);
}

fn final_stats(s: &SessionState) -> Option<IpcRunStatistics> {
    s.final_stats().map(|stats| IpcRunStatistics::from_statistics(&stats))
}

#[test]
fn new_session_starts_in_setup_with_no_board() {
    let s = SessionState::new();
    let info = s.info();
    assert_eq!(info.mode, Mode::Setup);
    assert_eq!(info.iteration, 0);
    assert_eq!(info.width, 0);
    assert_eq!(info.height, 0);
    assert!(!info.dirty);
    assert!(!info.completed);
    assert!(info.save_path.is_none());
}

#[test]
fn create_run_with_empty_source_yields_a_dead_board() {
    let s = fresh_session(5, 5, 10);
    let info = s.info();
    assert_eq!(info.width, 5);
    assert_eq!(info.height, 5);
    assert_eq!(info.iteration, 0);
    assert_eq!(info.max_iterations, 10);
    let board = s.board_payload();
    assert!(!board.cells_base64.is_empty());
    let cells = board.decoded_cells().unwrap();
    assert_eq!(cells.len(), 25);
    assert!(cells.iter().all(|&c| c == 0));
}

#[test]
fn create_run_with_pattern_blinker_paints_three_alive_cells() {
    let mut s = SessionState::new();
    s.create_run(5, 5, InitialSource::Pattern(PatternName::Blinker), 10, None).unwrap();
    let alive: u64 = cells(&s).iter().map(|&c| c as u64).sum();
    assert!(alive >= 3, "blinker must place at least 3 alive cells, got {alive}");
}

#[test]
fn set_cell_paints_a_cell_and_marks_dirty() {
    let mut s = fresh_session(3, 3, 5);
    assert!(!s.info().dirty);
    s.set_cell(1, 1, true).unwrap();
    assert!(s.info().dirty);
    assert_eq!(cells(&s)[3 + 1], 1);
}

#[test]
fn paint_cells_applies_a_batch() {
    let mut s = fresh_session(4, 4, 5);
    s.paint_cells(&[edit(0, 0), edit(1, 1), edit(2, 2)]).unwrap();
    let cells = cells(&s);
    assert_eq!(cells[0], 1);
    assert_eq!(cells[4 + 1], 1);
    assert_eq!(cells[(2 * 4) + 2], 1);
    assert_eq!(cells[(3 * 4) + 3], 0);
}

#[test]
fn clear_board_zeros_every_cell_and_marks_dirty() {
    let mut s = SessionState::new();
    s.create_run(3, 3, InitialSource::Pattern(PatternName::FullyAlive), 10, None).unwrap();
    assert!(cells(&s).contains(&1));
    s.clear_board().unwrap();
    assert!(cells(&s).iter().all(|&c| c == 0));
    assert!(s.info().dirty);
}

#[test]
fn randomize_is_reproducible_for_the_same_seed() {
    let mut s1 = fresh_session(20, 20, 10);
    s1.randomize(0xC0FFEE, 500).unwrap();
    let mut s2 = fresh_session(20, 20, 10);
    s2.randomize(0xC0FFEE, 500).unwrap();
    assert_eq!(cells(&s1), cells(&s2), "same seed must produce identical boards");
}

#[test]
fn start_run_transitions_to_paused_and_records_initial_alive_count() {
    let mut s = fresh_session(3, 3, 5);
    s.set_cell(1, 1, true).unwrap();
    s.start_run().unwrap();
    let info = s.info();
    assert_eq!(info.mode, Mode::Paused);
    assert_eq!(info.iteration, 0);
    assert_eq!(s.alive_history(), vec![1], "initial alive count must seed history");
}

#[test]
fn set_cell_in_running_mode_is_rejected() {
    let mut s = fresh_session(3, 3, 5);
    s.start_run().unwrap();
    let msg = s.set_cell(0, 0, true).unwrap_err().message();
    assert!(msg.contains("Setup"), "got: {msg}");
    assert_eq!(msg, "operation requires Setup mode but session is in Paused");
}

#[test]
fn advance_one_increments_iteration_and_updates_history() {
    let mut s = fresh_session(3, 3, 5);
    s.paint_cells(&[edit(0, 1), edit(1, 1), edit(2, 1)]).unwrap();
    s.start_run().unwrap();
    let tick = s.advance_one(None).unwrap();
    assert_eq!(tick.iteration, 1);
    assert_eq!(tick.alive, 3);
    assert_eq!(s.alive_history().len(), 2);
}

#[test]
fn advance_one_detects_extinction_and_finalises_stats() {
    let mut s = fresh_session(3, 3, 10);
    s.set_cell(1, 1, true).unwrap();
    s.start_run().unwrap();
    let tick = s.advance_one(None).unwrap();
    assert_eq!(tick.alive, 0);
    let info = s.info();
    assert!(info.completed);
    assert_eq!(info.status, Some(IpcRunStatus::Extinct));
    assert_eq!(info.mode, Mode::Paused);
}

#[test]
fn advance_one_detects_stability_and_finalises_stats() {
    let mut s = fresh_session(2, 2, 10);
    s.paint_cells(&[edit(0, 0), edit(1, 0), edit(0, 1), edit(1, 1)]).unwrap();
    s.start_run().unwrap();
    let tick = s.advance_one(None).unwrap();
    assert_eq!(tick.iteration, 0);
    assert_eq!(tick.alive, 4);
    let info = s.info();
    assert!(info.completed);
    assert_eq!(info.iteration, 0);
    assert_eq!(info.status, Some(IpcRunStatus::Stable));
    assert_eq!(info.mode, Mode::Paused);
    assert_eq!(s.alive_history(), vec![4]);
    let stats = final_stats(&s).expect("stable run should finalise stats");
    assert_eq!(stats.iterations_run, 0);
    assert_eq!(stats.status, IpcRunStatus::Stable);
}

#[test]
fn advance_one_detects_cycle_and_finalizes_stats() {
    let mut s = SessionState::new();
    s.create_run(5, 5, InitialSource::Pattern(PatternName::Blinker), 10, None).unwrap();
    s.start_run().unwrap();
    let first_tick = s.advance_one(None).unwrap();
    assert_eq!(first_tick.iteration, 1);
    assert!(!s.info().completed);
    let second_tick = s.advance_one(None).unwrap();
    assert_eq!(second_tick.iteration, 2);
    let info = s.info();
    assert!(info.completed);
    assert_eq!(info.status, Some(IpcRunStatus::Cyclic));
    let stats = final_stats(&s).expect("cyclic run should finalise stats");
    assert_eq!(stats.iterations_run, 2);
    assert_eq!(stats.status, IpcRunStatus::Cyclic);
    assert_eq!(stats.cycle_start_generation, Some(0));
    assert_eq!(stats.cycle_detected_generation, Some(2));
    assert_eq!(stats.cycle_period, Some(2));
}

#[test]
fn advance_one_detects_max_iterations() {
    let mut s = fresh_session(10, 10, 2);
    paint_glider(&mut s);
    s.start_run().unwrap();
    s.advance_one(None).unwrap();
    s.advance_one(None).unwrap();
    let info = s.info();
    assert!(info.completed);
    assert_eq!(info.status, Some(IpcRunStatus::MaxIterations));
}

#[test]
fn advance_after_completion_returns_error() {
    let mut s = fresh_session(3, 3, 1);
    s.set_cell(0, 0, true).unwrap();
    s.start_run().unwrap();
    s.advance_one(None).unwrap();
    let err = s.advance_one(None).unwrap_err();
    assert!(err.message().contains("completed"));
}

#[test]
fn restart_restores_initial_snapshot_and_resets_iteration() {
    let mut s = fresh_session(3, 3, 10);
    s.paint_cells(&[edit(0, 1), edit(1, 1), edit(2, 1)]).unwrap();
    s.start_run().unwrap();
    s.advance_one(None).unwrap();
    s.advance_one(None).unwrap();
    s.restart().unwrap();
    let info = s.info();
    assert_eq!(info.iteration, 0);
    assert_eq!(info.mode, Mode::Paused);
    assert!(!info.completed);
    let cells = cells(&s);
    assert_eq!(cells[3], 1);
    assert_eq!(cells[4], 1);
    assert_eq!(cells[5], 1);
}

#[test]
fn restart_after_saving_later_generation_marks_board_dirty() {
    let mut s = fresh_session(3, 3, 10);
    s.paint_cells(&[edit(0, 1), edit(1, 1), edit(2, 1)]).unwrap();
    s.start_run().unwrap();
    s.advance_one(None).unwrap();
    save(&mut s, "saved-later-generation.gol");
    assert!(!s.info().dirty);
    s.restart().unwrap();
    assert!(s.info().dirty);
}

#[test]
fn edit_board_returns_to_setup_and_drops_run_state() {
    let mut s = fresh_session(3, 3, 10);
    s.set_cell(0, 0, true).unwrap();
    s.start_run().unwrap();
    s.advance_one(None).unwrap();
    s.edit_board();
    let info = s.info();
    assert_eq!(info.mode, Mode::Setup);
    assert_eq!(info.iteration, 0);
    assert!(!info.completed);
    assert_eq!(cells(&s).len(), 9);
}

#[test]
fn extend_max_iterations_lifts_the_cap_and_clears_max_iter_status() {
    let mut s = fresh_session(10, 10, 1);
    paint_glider(&mut s);
    s.start_run().unwrap();
    s.advance_one(None).unwrap();
    assert!(s.info().completed);
    s.extend_max_iterations(5).unwrap();
    let info = s.info();
    assert!(!info.completed);
    assert_eq!(info.max_iterations, 5);
}

#[test]
fn extend_max_iterations_rehydrates_stats_so_next_cap_hit_finalises() {
    let mut s = fresh_session(10, 10, 1);
    paint_glider(&mut s);
    s.start_run().unwrap();
    s.advance_one(None).unwrap();
    assert!(s.info().completed);
    s.extend_max_iterations(3).unwrap();
    assert!(!s.info().completed);
    s.advance_one(None).unwrap();
    s.advance_one(None).unwrap();
    let info = s.info();
    assert!(info.completed, "second cap hit must finalise; got {:?}", info);
    assert_eq!(info.status, Some(IpcRunStatus::MaxIterations));
    let stats = final_stats(&s).expect("extended run should finalise stats");
    assert_eq!(stats.iterations_run, 3);
}

#[test]
fn extend_max_iterations_preserves_cycle_generation_accounting() {
    let mut s = SessionState::new();
    s.create_run(5, 5, InitialSource::Pattern(PatternName::Blinker), 1, None).unwrap();
    s.start_run().unwrap();
    s.advance_one(None).unwrap();
    assert_eq!(s.info().status, Some(IpcRunStatus::MaxIterations));
    s.extend_max_iterations(3).unwrap();
    s.advance_one(None).unwrap();
    let info = s.info();
    assert!(info.completed);
    assert_eq!(info.status, Some(IpcRunStatus::Cyclic));
    let stats = final_stats(&s).expect("extended cycle should finalise stats");
    assert_eq!(stats.iterations_run, 2);
    assert_eq!(stats.cycle_start_generation, Some(0));
    assert_eq!(stats.cycle_detected_generation, Some(2));
    assert_eq!(stats.cycle_period, Some(2));
}

#[test]
fn extend_max_iterations_below_the_current_iteration_is_refused() {
    let mut s = fresh_session(10, 10, 3);
    paint_glider(&mut s);
    s.start_run().unwrap();
    s.advance_one(None).unwrap();
    s.advance_one(None).unwrap();
    let err = s.extend_max_iterations(1).unwrap_err();
    assert_eq!(
        err.message(),
        "max_iterations (1) must be greater than or equal to current iteration"
    );
    assert_eq!(err.kind(), "invalidMaxIterations");
    assert_eq!(s.info().max_iterations, 3);
}

#[test]
fn set_cell_out_of_bounds_returns_error() {
    let mut s = fresh_session(3, 3, 5);
    let err = s.set_cell(10, 10, true).unwrap_err();
    assert!(err.message().contains("out of bounds"));
    assert_eq!(err.message(), "cell (10, 10) is out of bounds for the current board");
}

#[test]
fn create_run_rejects_zero_dimensions() {
    let mut s = SessionState::new();
    let err = s.create_run(0, 10, InitialSource::Empty, 10, None).unwrap_err();
    assert!(err.message().contains("zero"));
    assert_eq!(err.kind(), "zeroDimension");
}

#[test]
fn create_run_rejects_too_much_memory() {
    let mut s = SessionState::new();
    let err = s.create_run(100, 100, InitialSource::Empty, 10, Some(64)).unwrap_err();
    let msg = err.message();
    assert!(
        msg.contains("Streaming-mode boards") || msg.contains("exceeds"),
        "expected friendly streaming message, got: {msg}",
    );
}

#[test]
fn create_run_friendly_streaming_error_when_budget_exceeded() {
    let mut s = SessionState::new();
    let err = s
        .create_run(16384, 16384, InitialSource::Empty, 10, Some(64 * 1024 * 1024))
        .unwrap_err();
    let msg = err.message();
    assert!(msg.contains("16384x16384"), "got: {msg}");
    assert!(msg.contains("Streaming"), "got: {msg}");
    assert!(msg.contains("issue #10"), "got: {msg}");
    assert_eq!(err.kind(), "streamingNotImplemented");
}

#[test]
fn save_board_snapshot_writes_a_gol_file_and_round_trips() {
    let mut s = fresh_session(4, 4, 10);
    s.set_cell(0, 0, true).unwrap();
    s.set_cell(1, 1, true).unwrap();
    s.set_cell(2, 2, true).unwrap();
    let (board, _) = s.board_to_save().unwrap();
    let contents = snapshot_text(board);
    assert!(
        contents.contains("GOL-BOARD-SNAPSHOT v1"),
        "snapshot must use the standard magic header, got: {}",
        contents.lines().next().unwrap_or("")
    );
    save(&mut s, "gol-desktop-test.gol");

    let err = save_snapshot_error(BoardSnapshotWriteError::OutputExists {
        path: "gol-desktop-test.gol".to_string(),
    });
    assert!(err.message().to_lowercase().contains("refusing to overwrite"));
    assert_eq!(
        err.message(),
        "save board snapshot failed: Refusing to overwrite existing file 'gol-desktop-test.gol'"
    );
    let info = s.info();
    assert_eq!(info.save_path, Some("gol-desktop-test.gol".to_string()));
    assert!(!info.dirty);
}

#[test]
fn load_board_snapshot_restores_still_life_into_setup_mode() {
    let board = board_from_grid(&["....", ".##.", ".##.", "...."]);
    let expected = board_bytes(&board);
    let mut s = fresh_session(2, 2, 25);
    s.set_cell(0, 0, true).unwrap();

    assert_eq!(load_snapshot_of(&mut s, "still-life.gol", board), SnapshotLoad::Loaded);

    let info = s.info();
    assert_eq!(info.mode, Mode::Setup);
    assert_eq!(info.iteration, 0);
    assert_eq!(info.width, 4);
    assert_eq!(info.height, 4);
    assert_eq!(info.max_iterations, 25);
    assert_eq!(info.save_path, Some("still-life.gol".to_string()));
    assert!(!info.dirty);
    assert_eq!(s.alive_history(), Vec::<u64>::new());
    assert_eq!(cells(&s), expected);

    s.start_run().unwrap();
    let tick = s.advance_one(None).unwrap();
    assert_eq!(tick.iteration, 0);
    assert_eq!(s.info().status, Some(IpcRunStatus::Stable));
}

#[test]
fn load_board_snapshot_blinker_advances_deterministically() {
    let board = board_from_grid(&["...", "###", "..."]);
    let mut s = fresh_session(1, 1, 10);
    load_snapshot_of(&mut s, "blinker.gol", board);
    assert_eq!(cells(&s), vec![0, 0, 0, 1, 1, 1, 0, 0, 0]);

    s.start_run().unwrap();
    let tick = s.advance_one(None).unwrap();
    assert_eq!(tick.iteration, 1);
    assert!(s.info().dirty);
    assert_eq!(cells(&s), vec![0, 1, 0, 0, 1, 0, 0, 1, 0]);
    s.restart().unwrap();
    assert!(!s.info().dirty);
}

#[test]
fn stale_worker_generation_cannot_advance_newer_run() {
    let mut s = fresh_session(3, 3, 10);
    s.set_cell(1, 1, true).unwrap();
    s.start_run().unwrap();
    let stale = s.begin_playing().unwrap();
    s.finish_worker(stale);
    let current = s.begin_playing().unwrap();

    let err = s.advance_one(Some(stale)).unwrap_err();

    assert!(matches!(err, SessionError::WorkerStopped));
    assert_eq!(s.info().iteration, 0);
    s.finish_worker(current);
}

#[test]
fn load_board_snapshot_round_trips_larger_generated_board_bytes() {
    let board = generated_board(17, 13);
    let expected = board_bytes(&board);
    let mut s = SessionState::new();
    load_snapshot_of(&mut s, "larger-generated.gol", board);
    let info = s.info();
    assert_eq!(info.mode, Mode::Setup);
    assert_eq!(info.iteration, 0);
    assert_eq!(info.width, 17);
    assert_eq!(info.height, 13);
    assert_eq!(info.max_iterations, 100);
    assert_eq!(info.save_path, Some("larger-generated.gol".to_string()));
    assert!(!info.dirty);
    assert_eq!(cells(&s), expected);
}

#[test]
fn negative_load_board_snapshot_reports_invalid_files_without_replacing_board() {
    let mut s = fresh_session(3, 3, 10);
    s.set_cell(1, 1, true).unwrap();
    s.start_run().unwrap();
    s.begin_playing().unwrap();
    let before = cells(&s);

    let read = read_board_snapshot_default(
        "invalid.gol",
        "secret first line that must not cross IPC",
        DEFAULT_MAX_BOARD_MEMORY_BYTES,
    );
    let err = s.load_board_snapshot(read, "invalid.gol".to_string()).unwrap_err();

    let msg = err.message();
    assert!(msg.contains("load board snapshot failed"), "got: {msg}");
    assert!(msg.contains("not a valid Game of Life board snapshot"), "got: {msg}");
    assert!(!msg.contains("secret first line"), "got: {msg}");
    assert_eq!(s.info().mode, Mode::Playing);
    assert_eq!(s.info().width, 3);
    assert_eq!(cells(&s), before);
}

#[test]
fn load_board_snapshot_of_a_run_record_is_handed_back() {
    let mut s = fresh_session(3, 3, 10);
    let read = read_board_snapshot_default(
        "run.gol",
        "GOL-RUN-RECORD v1\n",
        DEFAULT_MAX_BOARD_MEMORY_BYTES,
    );
    assert_eq!(s.load_board_snapshot(read, "run.gol".to_string()).unwrap(), SnapshotLoad::RunRecord);
    assert_eq!(s.info().width, 3);
}

#[test]
fn load_run_board_reports_read_errors_with_desktop_text() {
    let mut s = fresh_session(3, 3, 10);
    let e = RunRecordReadError::UnexpectedFileKind {
        path: "board.gol".to_string(),
        expected: FileKind::RunRecord,
        actual: FileKind::BoardSnapshot,
    };
    assert_eq!(
        load_run_error_message(&e),
        "Selected file is a board snapshot, but expected a run record."
    );
    let err = s.load_run_board(Err(e), RunBoardSelection::Initial).unwrap_err();
    assert_eq!(
        err.message(),
        "load run record failed: Selected file is a board snapshot, but expected a run record."
    );
    assert_eq!(err.kind(), "loadRunRecord");
    assert_eq!(s.info().width, 3);
}

#[test]
fn begin_playing_rejects_unless_paused() {
    let mut s = SessionState::new();
    let err = s.begin_playing().unwrap_err();
    assert!(err.message().contains("Paused"));
}

#[test]
fn begin_playing_atomically_transitions_paused_to_playing() {
    let mut s = fresh_session(3, 3, 5);
    s.start_run().unwrap();
    assert_eq!(s.info().mode, Mode::Paused);
    s.begin_playing().unwrap();
    assert_eq!(s.info().mode, Mode::Playing);
    let err = s.begin_playing().unwrap_err();
    assert!(err.message().contains("Paused"));
}

#[test]
fn begin_jumping_atomically_transitions_paused_to_jumping_to() {
    let mut s = fresh_session(3, 3, 100);
    s.start_run().unwrap();
    s.begin_jumping(50).unwrap();
    let info = s.info();
    assert_eq!(info.mode, Mode::JumpingTo);
    assert_eq!(info.jump_target, Some(50));
}
