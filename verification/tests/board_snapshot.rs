use game_of_life::board::{CellState, InMemoryBoard};
use game_of_life::persistence::{
    read_board_snapshot, suggest_memory_override, validate_loaded_board_size, write_board_snapshot_to,
    BoardSnapshot, LoadedBoardSizeError, BOARD_SNAPSHOT_MAGIC, SUGGESTED_MEMORY_OVERRIDE_FLOOR_BYTES,
};

fn board_from_grid(lines: &[&str]) -> InMemoryBoard {
    let height = lines.len();
    let width = if height > 0 { lines[0].chars().count() } else { 0 };
    let mut board = InMemoryBoard::new(width, height);
    for (y, row) in lines.iter().enumerate() {
        for (x, ch) in row.chars().enumerate() {
            let state = if ch == '#' { CellState::Alive } else { CellState::Dead };
            board.set(x, y, state);
        }
    }
    board
}

#[test]
fn validate_loaded_board_size_accepts_in_budget() {
    let required = validate_loaded_board_size(10, 10, 1024).unwrap();
    assert!(required <= 1024);
}

#[test]
fn validate_loaded_board_size_rejects_over_budget() {
    let err = validate_loaded_board_size(1024, 1024, 64).unwrap_err();
    match err {
        LoadedBoardSizeError::ExceedsMemoryBudget {
            width,
            height,
            max_budget_bytes,
            suggested_override,
            ..
        } => {
            assert_eq!(width, 1024);
            assert_eq!(height, 1024);
            assert_eq!(max_budget_bytes, 64);
            assert!(suggested_override.bytes >= 1024 * 1024);
        }
        other => panic!("expected ExceedsMemoryBudget, got {other:?}"),
    }
}

#[test]
fn validate_loaded_board_size_rejects_unaddressable() {
    let huge = usize::MAX / 4 + 1;
    let err = validate_loaded_board_size(huge, huge, usize::MAX).unwrap_err();
    assert!(matches!(err, LoadedBoardSizeError::ExceedsAddressableMemory { .. }));
}

#[test]
fn suggest_memory_override_returns_sensible_values() {
    let s = suggest_memory_override(0);
    assert!(s.bytes >= SUGGESTED_MEMORY_OVERRIDE_FLOOR_BYTES);
    let one_mb = suggest_memory_override(1024 * 1024);
    assert_eq!(one_mb.display.suffix, "MB");
    assert!(one_mb.bytes >= 1024 * 1024);
    let three_gb_request = suggest_memory_override(3 * 1024 * 1024 * 1024);
    assert_eq!(three_gb_request.display.suffix, "GB");
    assert!(three_gb_request.bytes >= 3 * 1024 * 1024 * 1024);
}

#[test]
fn write_snapshot_round_trip_small_board() {
    let board = board_from_grid(&[".#.", "###", "..."]);
    let snap = BoardSnapshot::for_board(board);
    let mut text = String::new();
    write_board_snapshot_to(&mut text, &snap);
    assert!(text.starts_with(BOARD_SNAPSHOT_MAGIC));
    assert!(text.contains("size: 3x3"));
    assert!(text.contains("alive_count: 4"));
    assert!(text.contains("dead_count: 5"));
    assert!(text.contains(".#."));
    assert!(text.contains("###"));
}

#[test]
fn written_snapshot_reads_back_the_same_board() {
    let snap = BoardSnapshot::for_board(board_from_grid(&["...", ".#.", "..."]));
    let mut text = String::new();
    write_board_snapshot_to(&mut text, &snap);
    let loaded = read_board_snapshot("snap.gol", &text, 64 * 1024).unwrap();
    assert_eq!(loaded.board, board_from_grid(&["...", ".#.", "..."]));
    assert_eq!(loaded.created_at, snap.created_at);
    assert_eq!(loaded.schema_version, snap.schema_version);
}

#[test]
fn snapshot_with_wrong_alive_count_is_refused() {
    let snap = BoardSnapshot::for_board(board_from_grid(&["#."]));
    let mut text = String::new();
    write_board_snapshot_to(&mut text, &snap);
    let edited = text.replace("alive_count: 1", "alive_count: 2");
    assert!(read_board_snapshot("snap.gol", &edited, 64 * 1024).is_err());
}
