use game_of_life::algorithms::InPlaceTransitionalUpdater;
use game_of_life::board::{CellState, InMemoryBoard, StreamingBoard, StreamingBoardCreationError};
use game_of_life::config::InitialBoardSource;
use game_of_life::persistence::scratch::{
    byte_range_for_cells, check_scratch_magic, decode_cell, encode_cell, pack_cells,
    parse_scratch_header_rest, scratch_magic, unpack_cells, ScratchFileError, ScratchLayout,
    HEADER_SIZE,
};
use game_of_life::simulation::seed_with_initializer;
use game_of_life::stats::{AdvanceOutcome, RunStatisticsCollector, RunStatus};
use game_of_life::streaming::{take_streaming_outcome, RowSeeder};

const ALL_STATES: [CellState; 4] =
    [CellState::Dead, CellState::Alive, CellState::Dying, CellState::Resurrecting];

#[test]
fn scratch_header_reads_back_as_its_layout() {
    let layout = ScratchLayout::new(10, 7);
    assert_eq!(layout.row_bytes, 3);
    let header = layout.header(1_700_000_000);
    assert_eq!(header.len() as u64, HEADER_SIZE);
    assert_eq!(&header[..16], b"GOL-SCRATCH v1\n\0");
    assert_eq!(scratch_magic(), b"GOL-SCRATCH v1\n\0".to_vec());
    assert!(check_scratch_magic(&header[..16], "s.bin").is_ok());
    let back = parse_scratch_header_rest(&header[16..], "s.bin").unwrap();
    assert_eq!(back, layout);
    assert_eq!(&header[16..20], &[1, 0, 0, 0]);
    assert_eq!(&header[28..36], &[10, 0, 0, 0, 0, 0, 0, 0]);
    assert!(header[52..].iter().all(|&b| b == 0));
}

#[test]
fn scratch_header_refusals_name_what_is_wrong() {
    match check_scratch_magic(b"GOL-RUN-RECORD v", "s.bin") {
        Err(e @ ScratchFileError::BadMagic { .. }) => assert_eq!(
            e.message(),
            "Scratch file 's.bin' does not begin with the expected magic header."
        ),
        _ => panic!("expected a bad magic"),
    }
    let mut rest = ScratchLayout::new(10, 7).header(0)[16..].to_vec();
    rest[0] = 2;
    match parse_scratch_header_rest(&rest, "s.bin") {
        Err(e @ ScratchFileError::UnsupportedSchemaVersion { version: 2, .. }) => assert_eq!(
            e.message(),
            "Scratch file 's.bin' has unsupported schema version 2; this tool supports version 1."
        ),
        _ => panic!("expected an unsupported version"),
    }
    let mut rest = ScratchLayout::new(10, 7).header(0)[16..].to_vec();
    rest[28] = 4;
    match parse_scratch_header_rest(&rest, "s.bin") {
        Err(e @ ScratchFileError::InvalidHeader { .. }) => assert_eq!(
            e.message(),
            "Scratch file 's.bin' has an invalid header: row_bytes 4 does not match expected ceil(width*2/8) = 3 for width 10."
        ),
        _ => panic!("expected an invalid header"),
    }
    let rest = ScratchLayout::new(0, 7).header(0)[16..].to_vec();
    match parse_scratch_header_rest(&rest, "s.bin") {
        Err(ScratchFileError::InvalidHeader { detail, .. }) => {
            assert_eq!(detail, "width 0 and height 7 must both be positive")
        }
        _ => panic!("expected an invalid header"),
    }
}

#[test]
fn row_geometry_of_the_scratch_file() {
    assert_eq!(ScratchLayout::row_bytes_for_width(1), 1);
    assert_eq!(ScratchLayout::row_bytes_for_width(4), 1);
    assert_eq!(ScratchLayout::row_bytes_for_width(5), 2);
    assert_eq!(ScratchLayout::file_size_for(10, 7), 64 + 21);
    assert_eq!(byte_range_for_cells(5, 10), (1, 3));
    let layout = ScratchLayout::new(10, 7);
    assert_eq!(layout.row_span(2, 5, 10), (64 + 6 + 1, 2, 1));
    match layout.validate_row_range(7, 0, 1) {
        Err(e @ ScratchFileError::OutOfBounds { .. }) => assert_eq!(
            e.message(),
            "Scratch file row-range access out of bounds: row 7 >= height 7."
        ),
        _ => panic!("expected out of bounds"),
    }
    match layout.validate_row_range(0, 3, 11) {
        Err(ScratchFileError::OutOfBounds { detail }) => assert_eq!(detail, "cend 11 > width 10"),
        _ => panic!("expected out of bounds"),
    }
    match layout.validate_row_range(0, 4, 3) {
        Err(ScratchFileError::OutOfBounds { detail }) => assert_eq!(detail, "cstart 4 > cend 3"),
        _ => panic!("expected out of bounds"),
    }
    assert!(layout.validate_row_range(6, 0, 10).is_ok());
}

#[test]
fn cells_pack_and_unpack_two_bits_each() {
    for state in ALL_STATES {
        assert_eq!(decode_cell(encode_cell(state)), state);
    }
    assert_eq!(encode_cell(CellState::Resurrecting), 3);
    let mut buf = vec![0b1110_0100u8, 0xFF, 0x00];
    let cells = [CellState::Alive, CellState::Dying, CellState::Dead, CellState::Resurrecting, CellState::Alive];
    pack_cells(&mut buf, 2, &cells);
    assert_eq!(unpack_cells(&buf, 2, 5), cells.to_vec());
    // The two cells before the written range keep their codes.
    assert_eq!(unpack_cells(&buf, 0, 2), vec![CellState::Dead, CellState::Alive]);
    // And so do the cells after it.
    assert_eq!(unpack_cells(&buf, 7, 5), vec![CellState::Resurrecting, CellState::Dead, CellState::Dead, CellState::Dead, CellState::Dead]);
    assert_eq!(buf[0] & 0b1111, 0b0100);
}

/// A streaming board run against a scratch file kept in memory.
struct MemoryScratch {
    rows: Vec<Vec<CellState>>,
}

impl MemoryScratch {
    fn flush(&mut self, board: &mut StreamingBoard) {
        for (y, x, cells) in board.dirty_row_cells() {
            self.rows[y][x..x + cells.len()].copy_from_slice(&cells);
        }
        board.clear_dirty();
    }

    fn slide(&mut self, board: &mut StreamingBoard, x: usize, y: usize) {
        self.flush(board);
        board.move_to_chunk_containing(x, y);
        let (top, left, rows, cols) = board.loaded_window();
        for i in 0..rows {
            board.load_row(i, &self.rows[top + i][left..left + cols]);
        }
    }

    fn each_chunk(&mut self, board: &mut StreamingBoard, mut visit: impl FnMut(&mut StreamingBoard)) {
        let mut y = 0;
        while y < board.height() {
            let mut x = 0;
            let mut next_y = board.height();
            while x < board.width() {
                self.slide(board, x, y);
                visit(board);
                let (top, left, rows, cols) = board.owned_window();
                x = left + cols;
                next_y = top + rows;
            }
            y = next_y;
        }
        self.flush(board);
    }

    fn advance(&mut self, board: &mut StreamingBoard) -> AdvanceOutcome {
        let rule = InPlaceTransitionalUpdater;
        self.each_chunk(board, |b| b.mark_current_chunk(&rule));
        let (mut births, mut deaths, mut alive) = (0, 0, 0);
        self.each_chunk(board, |b| {
            let o = b.normalize_current_chunk();
            births += o.births;
            deaths += o.deaths;
            alive += o.alive_count;
        });
        AdvanceOutcome::from_counts(births, deaths, alive)
    }
}

fn grid(board: &InMemoryBoard) -> Vec<Vec<CellState>> {
    (0..board.height()).map(|y| (0..board.width()).map(|x| board.get(x, y)).collect()).collect()
}

#[test]
fn chunked_generations_match_the_in_memory_board() {
    let mut reference = InMemoryBoard::new(7, 6);
    for (x, y) in [(1, 0), (2, 1), (0, 2), (1, 2), (2, 2), (5, 3), (5, 4), (5, 5), (6, 0)] {
        reference.set(x, y, CellState::Alive);
    }
    let mut board = StreamingBoard::new(7, 6, 1 << 20, Some(2), Some(3)).unwrap();
    assert_eq!(board.target_owned_chunk(), (2, 3));
    assert!(!board.is_row_band_fast_path());
    let mut scratch = MemoryScratch { rows: grid(&reference) };
    scratch.slide(&mut board, 0, 0);
    for _ in 0..6 {
        let outcome = scratch.advance(&mut board);
        reference.advance_generation();
        assert_eq!(scratch.rows, grid(&reference));
        let alive = scratch.rows.iter().flatten().filter(|c| **c == CellState::Alive).count() as u64;
        assert_eq!(outcome.alive_count, alive);
    }
}

#[test]
fn a_single_cell_dies_with_one_death_counted() {
    let mut board = StreamingBoard::new(4, 4, 1 << 20, Some(1), Some(1)).unwrap();
    let mut rows = vec![vec![CellState::Dead; 4]; 4];
    rows[2][1] = CellState::Alive;
    let mut scratch = MemoryScratch { rows };
    scratch.slide(&mut board, 0, 0);
    let outcome = scratch.advance(&mut board);
    assert_eq!((outcome.births, outcome.deaths, outcome.alive_count), (0, 1, 0));
    assert!(scratch.rows.iter().flatten().all(|c| *c == CellState::Dead));
}

#[test]
fn a_new_streaming_board_owns_its_top_left_chunk() {
    let board = StreamingBoard::new(10, 8, 1 << 20, Some(3), Some(4)).unwrap();
    assert_eq!(board.owned_window(), (0, 0, 3, 4));
    assert_eq!(board.loaded_window(), (0, 0, 4, 5));
    assert_eq!(board.get_loaded(2, 2), CellState::Dead);
    let mut board = board;
    board.move_to_chunk_containing(9, 7);
    assert_eq!(board.owned_window(), (6, 8, 2, 2));
    assert_eq!(board.loaded_window(), (5, 7, 3, 3));
    board.move_to_chunk_containing(5, 4);
    assert_eq!(board.owned_window(), (3, 4, 3, 4));
    assert_eq!(board.loaded_window(), (2, 3, 5, 6));
}

#[test]
fn streaming_board_creation_refusals() {
    match StreamingBoard::new(0, 5, 1 << 20, None, None) {
        Err(e @ StreamingBoardCreationError::InvalidDimensions { .. }) => {
            assert_eq!(e.message(), "Streaming board dimensions 0x5 must both be positive.")
        }
        _ => panic!("expected invalid dimensions"),
    }
    match StreamingBoard::new(5, 5, 3, None, None) {
        Err(e @ StreamingBoardCreationError::InsufficientMemoryBudget { .. }) => {
            let msg = e.message();
            assert!(msg.starts_with("Streaming board for 5x5 requires at least "), "got {msg}");
            assert!(msg.ends_with("but --max-board-memory is 3 bytes. Try --max-board-memory 10."), "got {msg}");
        }
        _ => panic!("expected an insufficient budget"),
    }
    let e = StreamingBoardCreationError::Scratch(ScratchFileError::AlreadyExists { path: "x.bin".to_string() });
    assert_eq!(e.message(), "Refusing to overwrite existing scratch file 'x.bin'.");
}

fn seeded_rows(source: InitialBoardSource, seed: u64, w: usize, h: usize) -> Vec<Vec<CellState>> {
    let mut seeder = RowSeeder::new(source, seed, w, h);
    (0..h).map(|_| seeder.next_row()).collect()
}

#[test]
fn row_seeding_matches_seeding_the_whole_board() {
    for source in [
        InitialBoardSource::Demo,
        InitialBoardSource::Alive,
        InitialBoardSource::Blinker,
        InitialBoardSource::Random,
    ] {
        for (w, h) in [(14, 12), (5, 5), (3, 1)] {
            let mut board = InMemoryBoard::new(w, h);
            seed_with_initializer(source, &mut board, 42);
            assert_eq!(seeded_rows(source, 42, w, h), grid(&board), "{source:?} {w}x{h}");
        }
    }
}

#[test]
fn a_generation_that_changes_nothing_is_not_counted() {
    let mut collector = RunStatisticsCollector::starting_from(4);
    let stable = AdvanceOutcome::from_counts(0, 0, 4);
    assert_eq!(take_streaming_outcome(&mut collector, stable), Some(RunStatus::Stable));
    assert_eq!(collector.iterations_run(), 0);
    let moving = AdvanceOutcome::from_counts(2, 2, 4);
    assert_eq!(take_streaming_outcome(&mut collector, moving), None);
    assert_eq!(collector.iterations_run(), 1);
    assert_eq!(collector.total_births(), 2);
    let gone = AdvanceOutcome::from_counts(0, 4, 0);
    assert_eq!(take_streaming_outcome(&mut collector, gone), Some(RunStatus::Extinct));
    assert_eq!(collector.total_deaths(), 6);
}

#[test]
fn chunk_sweep_visits_rows_of_chunks_from_the_top_left() {
    let mut sweep = game_of_life::board::ChunkSweep::new(5, 3, 2, 2);
    let mut seen = Vec::new();
    while let Some(cell) = sweep.next_cell() {
        seen.push(cell);
        let n = seen.len() as u64;
        assert!(sweep.visited(game_of_life::stats::AdvanceOutcome::from_counts(n, 1, 2 * n)));
    }
    assert_eq!(seen, vec![(0, 0), (2, 0), (4, 0), (0, 2), (2, 2), (4, 2)]);
    let totals = sweep.counts();
    assert_eq!((totals.births, totals.deaths, totals.alive_count), (21, 6, 42));
}

#[test]
fn chunk_sweep_keeps_totals_that_would_overflow() {
    let mut sweep = game_of_life::board::ChunkSweep::new(4, 4, 4, 4);
    assert_eq!(sweep.next_cell(), Some((0, 0)));
    assert!(sweep.visited(game_of_life::stats::AdvanceOutcome::from_counts(u64::MAX, 0, 0)));
    assert_eq!(sweep.next_cell(), None);
    let mut again = game_of_life::board::ChunkSweep::new(4, 8, 4, 4);
    assert!(again.visited(game_of_life::stats::AdvanceOutcome::from_counts(u64::MAX, 0, 0)));
    assert!(!again.visited(game_of_life::stats::AdvanceOutcome::from_counts(1, 0, 0)));
    assert_eq!(again.counts().births, u64::MAX);
    assert_eq!(again.next_cell(), None);
}

#[test]
fn live_cells_of_a_row_are_added_to_the_count() {
    assert_eq!(
        game_of_life::streaming::add_alive_in_row(5, &[CellState::Alive, CellState::Dead, CellState::Dying, CellState::Alive]),
        Some(7)
    );
    assert_eq!(game_of_life::streaming::add_alive_in_row(u64::MAX, &[CellState::Alive]), None);
    assert_eq!(game_of_life::streaming::add_alive_in_row(u64::MAX, &[CellState::Dead]), Some(u64::MAX));
}

#[test]
fn a_generation_whose_totals_would_overflow_is_not_counted() {
    let mut c = game_of_life::stats::RunStatisticsCollector::starting_from(3);
    assert!(!game_of_life::streaming::outcome_overflows(&c, game_of_life::stats::AdvanceOutcome::from_counts(1, 1, 3)));
    c.record(game_of_life::stats::AdvanceOutcome::from_counts(u64::MAX, 0, 3));
    assert!(game_of_life::streaming::outcome_overflows(&c, game_of_life::stats::AdvanceOutcome::from_counts(1, 0, 3)));
    assert!(!game_of_life::streaming::outcome_overflows(&c, game_of_life::stats::AdvanceOutcome::from_counts(0, 5, 3)));
}
