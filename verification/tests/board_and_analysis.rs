use game_of_life::algorithms::{
    BoardInitializer, CenteredBlinkerInitializer, DemoBoardInitializer, FullyAliveInitializer,
    RandomBoardInitializer, RandomBoardInitializerError,
};
use game_of_life::board::{
    Board, BoardSignature, BoardSignatureAccumulator, CellCoordinate, CellState, InMemoryBoard,
};
use game_of_life::pattern_analysis::{
    CycleDetector, PatternAnalyzer, PatternBackend, PatternDetector, PatternObservation,
};
use game_of_life::patterns::{detect_known_still_life_patterns, StillLifePattern};

fn board_from_grid(lines: &[&str]) -> InMemoryBoard {
    let height = lines.len();
    let width = if height > 0 { lines[0].chars().count() } else { 0 };
    let mut board = InMemoryBoard::new(width, height);
    for (y, row) in lines.iter().enumerate() {
        for (x, ch) in row.chars().enumerate() {
            if ch == '#' {
                board.set(x, y, CellState::Alive);
            }
        }
    }
    board
}

#[test]
fn signature_packs_one_bit_per_cell_row_major() {
    let board = board_from_grid(&["#.#", "...", "..#"]);
    let sig = BoardSignature::from_view(&board).unwrap();
    assert_eq!(sig.width(), 3);
    assert_eq!(sig.height(), 3);
    assert_eq!(sig.alive_count(), 3);
    assert_eq!(sig.cells(), &[0b0000_0101u8, 0b0000_0001u8][..]);
}

#[test]
fn signature_counts_transitional_states_by_where_they_head() {
    let mut acc = BoardSignatureAccumulator::new(2, 1);
    acc.observe(CellCoordinate::new(0, 0), CellState::Resurrecting);
    acc.observe(CellCoordinate::new(1, 0), CellState::Dying);
    acc.observe(CellCoordinate::new(5, 0), CellState::Alive);
    let sig = acc.finish();
    assert_eq!(sig.alive_count(), 1);
    assert_eq!(sig.cells(), &[1u8][..]);
}

#[test]
fn equal_boards_have_equal_signatures() {
    let a = BoardSignature::from_view(&board_from_grid(&["##", ".#"])).unwrap();
    let b = BoardSignature::from_view(&board_from_grid(&["##", ".#"])).unwrap();
    let c = BoardSignature::from_view(&board_from_grid(&["##", "#."])).unwrap();
    assert!(a.same_as(&b));
    assert!(!a.same_as(&c));
    assert!(a.same_as(&a.duplicate()));
}

#[test]
fn cycle_detector_reports_a_repeated_signature() {
    let blinker_h = BoardSignature::from_view(&board_from_grid(&["...", "###", "..."])).unwrap();
    let blinker_v = BoardSignature::from_view(&board_from_grid(&[".#.", ".#.", ".#."])).unwrap();
    let mut detector = CycleDetector::default();
    let obs = |g: u64, s: &BoardSignature| {
        PatternObservation::new(g, PatternBackend::InMemory, None, Some(s)).generation
    };
    assert_eq!(obs(0, &blinker_h), 0);
    assert!(detector
        .observe(&PatternObservation::new(0, PatternBackend::InMemory, None, Some(&blinker_h)))
        .is_none());
    assert!(detector
        .observe(&PatternObservation::new(1, PatternBackend::InMemory, None, Some(&blinker_v)))
        .is_none());
    let found = detector
        .observe(&PatternObservation::new(2, PatternBackend::InMemory, None, Some(&blinker_h)))
        .unwrap();
    assert!(found.terminal);
    let cycle = found.cycle_pattern();
    assert_eq!(cycle.start_generation, 0);
    assert_eq!(cycle.detected_generation, 2);
    assert_eq!(cycle.period, 2);
}

#[test]
fn streaming_observations_are_ignored() {
    let sig = BoardSignature::from_view(&board_from_grid(&["#"])).unwrap();
    let mut analyzer = PatternAnalyzer::in_memory_cycle_detection();
    for g in 0..3 {
        assert!(analyzer
            .observe(&PatternObservation::new(g, PatternBackend::Streaming, None, Some(&sig)))
            .is_none());
    }
}

#[test]
fn analyzer_finds_a_still_life_as_a_period_one_cycle() {
    let sig = BoardSignature::from_view(&board_from_grid(&["##", "##"])).unwrap();
    let mut analyzer = PatternAnalyzer::in_memory_cycle_detection();
    assert!(analyzer.observe(&PatternObservation::new(4, PatternBackend::InMemory, None, Some(&sig))).is_none());
    let m = analyzer.observe(&PatternObservation::new(5, PatternBackend::InMemory, None, Some(&sig))).unwrap();
    assert_eq!(m.cycle_pattern().period, 1);
    let mut empty = PatternAnalyzer::default();
    assert!(empty.observe(&PatternObservation::new(5, PatternBackend::InMemory, None, Some(&sig))).is_none());
}

#[test]
fn still_lifes_are_recognized_in_any_orientation() {
    let board = board_from_grid(&[
        "##......",
        "##......",
        "........",
        "....##..",
        "...#..#.",
        "....##..",
        "........",
        "#.......",
    ]);
    let summary = detect_known_still_life_patterns(&board).unwrap();
    assert_eq!(summary.count(StillLifePattern::Block), 1);
    assert_eq!(summary.count(StillLifePattern::Beehive), 1);
    assert_eq!(summary.count(StillLifePattern::Tub), 0);
    assert_eq!(summary.unknown_components, 1);
    assert_eq!(summary.total_known_components(), 2);
    assert!(summary.has_known_patterns());
    let boat = board_from_grid(&[".#.", "#.#", ".##"]);
    assert_eq!(detect_known_still_life_patterns(&boat).unwrap().count(StillLifePattern::Boat), 1);
    assert_eq!(StillLifePattern::Loaf.as_str(), "loaf");
}

#[test]
fn fully_alive_initializer_fills_the_board() {
    let mut board = InMemoryBoard::new(3, 2);
    FullyAliveInitializer.initialize(&mut board).unwrap();
    assert_eq!(board, board_from_grid(&["###", "###"]));
}

#[test]
fn centered_blinker_is_three_cells_on_the_middle_row() {
    let mut board = InMemoryBoard::new(5, 5);
    CenteredBlinkerInitializer.initialize(&mut board).unwrap();
    assert_eq!(board, board_from_grid(&[".....", ".....", ".###.", ".....", "....."]));
    let mut narrow = InMemoryBoard::new(1, 1);
    CenteredBlinkerInitializer.initialize(&mut narrow).unwrap();
    assert_eq!(narrow, board_from_grid(&["#"]));
}

#[test]
fn demo_initializer_places_nineteen_cells() {
    let mut board = InMemoryBoard::new(10, 10);
    DemoBoardInitializer.initialize(&mut board).unwrap();
    let sig = BoardSignature::from_view(&board).unwrap();
    assert_eq!(sig.alive_count(), 19);
    assert_eq!(board.get(5, 0), CellState::Alive);
    assert_eq!(board.get(7, 9), CellState::Alive);
}

#[test]
fn random_initializer_is_reproducible_and_validates_density() {
    let init = RandomBoardInitializer::new(42);
    assert_eq!(init.seed(), 42);
    assert_eq!(init.alive_cells_per_thousand(), 500);
    let mut a = InMemoryBoard::new(8, 8);
    let mut b = InMemoryBoard::new(8, 8);
    init.initialize(&mut a).unwrap();
    init.initialize(&mut b).unwrap();
    assert_eq!(a, b);
    let all = RandomBoardInitializer::with_alive_cells_per_thousand(7, 1000).unwrap();
    let mut full = InMemoryBoard::new(4, 4);
    all.initialize(&mut full).unwrap();
    assert_eq!(BoardSignature::from_view(&full).unwrap().alive_count(), 16);
    assert_eq!(
        RandomBoardInitializer::with_alive_cells_per_thousand(7, 1001),
        Err(RandomBoardInitializerError::AliveCellsPerThousandTooLarge { value: 1001 })
    );
}

#[test]
fn legacy_board_blinker_oscillates() {
    let mut board = Board::new(3, 3);
    board.set(0, 1, CellState::Alive);
    board.set(1, 1, CellState::Alive);
    board.set(2, 1, CellState::Alive);
    assert_eq!(board.to_text(), "...\n###\n...\n");
    board.advance_generation();
    assert_eq!(board.to_text(), ".#.\n.#.\n.#.\n");
    board.advance_generation();
    assert_eq!(board.to_text(), "...\n###\n...\n");
    assert_eq!(board.get(9, 9), CellState::Dead);
    assert_eq!((board.width(), board.height()), (3, 3));
}

#[test]
fn block_tub_and_blinker_count_as_two_known_and_one_unknown() {
    let board = board_from_grid(&[
        "##...#......",
        "##..#.#..###",
        ".....#......",
        "............",
    ]);
    let summary = detect_known_still_life_patterns(&board).unwrap();
    assert_eq!(summary.counts.len(), 2);
    assert_eq!(summary.counts[0].pattern, StillLifePattern::Block);
    assert_eq!(summary.counts[0].count, 1);
    assert_eq!(summary.counts[1].pattern, StillLifePattern::Tub);
    assert_eq!(summary.counts[1].count, 1);
    assert_eq!(summary.unknown_components, 1);
}
