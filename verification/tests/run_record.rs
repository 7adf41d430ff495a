use game_of_life::board::{CellState, InMemoryBoard};
use game_of_life::persistence::{
    board_grid_hash, encode_run_record, extract_board_from_run, read_run_record,
    read_run_record_with_warnings, ContentHashMode, ExtractWhich, RunId, RunRecord,
    RunRecordConfig, RunRecordReadError, RunRecordResult, BOARD_SNAPSHOT_MAGIC, SCHEMA_VERSION,
    TOOL_VERSION,
};
use game_of_life::persistence::board_snapshot::write_board_snapshot_to;

fn small_board(width: usize, height: usize, alive_at: &[(usize, usize)]) -> InMemoryBoard {
    let mut board = InMemoryBoard::new(width, height);
    for (x, y) in alive_at {
        board.set(*x, *y, CellState::Alive);
    }
    board
}

fn fixture_record() -> RunRecord {
    let run_id = RunId::from_bytes([
        0x7b, 0x3a, 0x1f, 0x0c, 0x4d, 0x2e, 0x4a, 0x51, 0x9c, 0x5e, 0x2f, 0x8c, 0x3a, 0x1b, 0x9d,
        0x77,
    ]);
    let initial = small_board(3, 3, &[(0, 0), (1, 1), (2, 2)]);
    let final_ = small_board(3, 3, &[(1, 1)]);
    let initial_hash = board_grid_hash(&initial);
    let final_hash = board_grid_hash(&final_);
    RunRecord {
        run_id,
        schema_version: SCHEMA_VERSION,
        created_at: 1_780_000_000,
        tool_version: TOOL_VERSION.to_string(),
        config: RunRecordConfig {
            board_size: (3, 3),
            max_iterations: 10,
            max_board_memory_bytes: 64 * 1024 * 1024,
            initial_board_source: "random".to_string(),
            random_seed: 42,
            updater: "in_place_transitional".to_string(),
            continued_from: None,
        },
        result: RunRecordResult {
            status: "max_iterations".to_string(),
            iterations_run: 10,
            wall_time_ms: 3,
            initial_alive_count: 3,
            final_alive_count: 1,
            peak_alive_count: 3,
            peak_alive_generation: 0,
            min_alive_count: 1,
            min_alive_generation: 5,
            total_births: 4,
            total_deaths: 6,
            initial_board_hash: initial_hash,
            final_board_hash: final_hash,
        },
        initial_board: initial,
        final_board: final_,
    }
}

const PATH: &str = "run.gol";
const BUDGET: usize = 64 * 1024 * 1024;

#[test]
fn round_trip_writes_then_reads_identical_record() {
    let original = fixture_record();
    let text = encode_run_record(&original);
    let loaded = read_run_record(PATH, &text, BUDGET, ContentHashMode::Enforce).unwrap();
    assert_eq!(loaded.run_id, original.run_id);
    assert_eq!(loaded.config.board_size, original.config.board_size);
    assert_eq!(loaded.config.random_seed, original.config.random_seed);
    assert_eq!(loaded.config.continued_from, original.config.continued_from);
    assert_eq!(loaded.result.status, original.result.status);
    assert_eq!(loaded.result.iterations_run, original.result.iterations_run);
    assert_eq!(loaded.initial_board, original.initial_board);
    assert_eq!(loaded.final_board, original.final_board);
    assert_eq!(loaded.created_at, original.created_at);
    assert_eq!(loaded.tool_version, original.tool_version);
}

#[test]
fn round_trip_writes_then_reads_with_continued_from() {
    let mut original = fixture_record();
    original.config.continued_from = Some(RunId::from_bytes([0xaa; 16]));
    let text = encode_run_record(&original);
    let loaded = read_run_record(PATH, &text, BUDGET, ContentHashMode::Enforce).unwrap();
    assert_eq!(loaded.config.continued_from, original.config.continued_from);
}

#[test]
fn negative_read_detects_corruption() {
    let body = encode_run_record(&fixture_record());
    let corrupted = body.replacen("...\n.#.\n...", "...\n##.\n...", 1);
    assert_ne!(corrupted, body, "test fixture must produce a non-trivial mutation");
    let err = read_run_record(PATH, &corrupted, BUDGET, ContentHashMode::Enforce).unwrap_err();
    assert!(matches!(err, RunRecordReadError::Corrupted { .. }));
}

#[test]
fn ignore_integrity_downgrades_corruption_to_warning() {
    let body = encode_run_record(&fixture_record());
    let corrupted = body.replacen("...\n.#.\n...", "...\n##.\n...", 1);
    let corrupted =
        corrupted.replacen("alive_count: 1\ndead_count: 8", "alive_count: 2\ndead_count: 7", 1);
    let loaded =
        read_run_record_with_warnings(PATH, &corrupted, BUDGET, ContentHashMode::Ignore).unwrap();
    assert!(!loaded.warnings.is_empty());
}

#[test]
fn negative_read_missing_content_hash_under_enforce() {
    let body = encode_run_record(&fixture_record());
    let truncated =
        body.lines().filter(|l| !l.starts_with("content_hash:")).collect::<Vec<_>>().join("\n");
    let text = format!("{truncated}\n");
    let err = read_run_record(PATH, &text, BUDGET, ContentHashMode::Enforce).unwrap_err();
    assert!(matches!(err, RunRecordReadError::MissingContentHash { .. }));
}

#[test]
fn crlf_rewrite_does_not_break_integrity_check() {
    let original = fixture_record();
    let crlf = encode_run_record(&original).replace('\n', "\r\n");
    let loaded = read_run_record(PATH, &crlf, BUDGET, ContentHashMode::Enforce).unwrap();
    assert_eq!(loaded.initial_board, original.initial_board);
}

#[test]
fn extract_board_round_trip_via_disk() {
    let text = encode_run_record(&fixture_record());
    let snapshot =
        extract_board_from_run(PATH, &text, ExtractWhich::Final, BUDGET, ContentHashMode::Enforce)
            .unwrap();
    let mut body = String::new();
    write_board_snapshot_to(&mut body, &snapshot);
    assert!(body.starts_with(BOARD_SNAPSHOT_MAGIC));
    assert!(!body.contains("content_hash:"));
    assert_eq!(snapshot.board, small_board(3, 3, &[(1, 1)]));
}

#[test]
fn missing_trailer_under_ignore_gives_a_warning() {
    let body = encode_run_record(&fixture_record());
    let truncated =
        body.lines().filter(|l| !l.starts_with("content_hash:")).collect::<Vec<_>>().join("\n");
    let loaded =
        read_run_record_with_warnings(PATH, &truncated, BUDGET, ContentHashMode::Ignore).unwrap();
    assert_eq!(
        loaded.warnings,
        vec!["Warning: integrity check bypassed for 'run.gol': no content_hash trailer found.".to_string()]
    );
}

#[test]
fn intact_record_reads_without_warnings() {
    let text = encode_run_record(&fixture_record());
    let loaded = read_run_record_with_warnings(PATH, &text, BUDGET, ContentHashMode::Ignore).unwrap();
    assert!(loaded.warnings.is_empty());
}

#[test]
fn unknown_status_is_refused() {
    let mut original = fixture_record();
    original.result.status = "exploded".to_string();
    let text = encode_run_record(&original);
    let err = read_run_record(PATH, &text, BUDGET, ContentHashMode::Enforce).unwrap_err();
    assert!(matches!(err, RunRecordReadError::UnrecognizedStatus { .. }));
}

#[test]
fn missing_config_field_is_reported() {
    let text = encode_run_record(&fixture_record());
    let edited = text.replace("random_seed: 42\n", "");
    let err = read_run_record(PATH, &edited, BUDGET, ContentHashMode::Ignore).unwrap_err();
    match err {
        RunRecordReadError::MissingField { section, field } => {
            assert_eq!(section, "config");
            assert_eq!(field, "random_seed");
        }
        other => panic!("unexpected {other:?}"),
    }
}

#[test]
fn malformed_number_is_reported_with_its_field() {
    let text = encode_run_record(&fixture_record());
    let edited = text.replace("wall_time_ms: 3", "wall_time_ms: three");
    let err = read_run_record(PATH, &edited, BUDGET, ContentHashMode::Ignore).unwrap_err();
    match err {
        RunRecordReadError::MalformedField { field, value, .. } => {
            assert_eq!(field, "wall_time_ms");
            assert_eq!(value, "three");
        }
        other => panic!("unexpected {other:?}"),
    }
}

#[test]
fn board_hash_mismatch_is_corruption_under_enforce() {
    let mut original = fixture_record();
    original.result.final_board_hash = 7;
    let text = encode_run_record(&original);
    let err = read_run_record(PATH, &text, BUDGET, ContentHashMode::Enforce).unwrap_err();
    match err {
        RunRecordReadError::Corrupted { expected_hash, actual_hash, .. } => {
            assert_eq!(expected_hash, 7);
            assert_eq!(actual_hash, board_grid_hash(&small_board(3, 3, &[(1, 1)])));
        }
        other => panic!("unexpected {other:?}"),
    }
}

#[test]
fn snapshot_file_is_not_a_run_record() {
    let err = read_run_record(PATH, "GOL-BOARD-SNAPSHOT v1\n", BUDGET, ContentHashMode::Enforce)
        .unwrap_err();
    assert!(matches!(err, RunRecordReadError::UnexpectedFileKind { .. }));
}

#[test]
fn board_grid_hash_hashes_the_grid_rows() {
    let board = small_board(2, 1, &[(0, 0)]);
    assert_eq!(board_grid_hash(&board), game_of_life::persistence::fnv1a_64(b"#.\n"));
}

#[test]
fn extract_which_parses_its_two_names() {
    assert_eq!(ExtractWhich::parse(" initial "), Ok(ExtractWhich::Initial));
    assert_eq!(ExtractWhich::parse("final"), Ok(ExtractWhich::Final));
    assert_eq!(
        ExtractWhich::parse("middle"),
        Err("expected 'initial' or 'final' for --load-from, got 'middle'".to_string())
    );
    assert_eq!(ExtractWhich::Initial.label(), "INITIAL BOARD");
    assert_eq!(ExtractWhich::Final.label(), "FINAL BOARD");
}
