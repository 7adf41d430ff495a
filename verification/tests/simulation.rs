use game_of_life::board::{CellState, InMemoryBoard};
use game_of_life::config::cli::{ContinuationBudget, InitialBoardSpec, SaveSettings, SimulationConfig};
use game_of_life::config::values::{InitialBoardSource, IntegrityMode};
use game_of_life::persistence::{board_grid_hash, RunId, RunRecord, RunRecordConfig, RunRecordResult, SCHEMA_VERSION, TOOL_VERSION};
use game_of_life::simulation::{
    advance_run, build_run_record, continuation_iterations, filename_timestamp, replay_differences,
    replay_record, run_record_file_name, same_board, seed_with_initializer,
    should_auto_promote_to_streaming, CumulativeMaxTooSmall, ReplayOutcome,
};
use game_of_life::stats::{RunStatistics, RunStatus};

fn board(width: usize, height: usize, alive_at: &[(usize, usize)]) -> InMemoryBoard {
    let mut b = InMemoryBoard::new(width, height);
    for (x, y) in alive_at {
        b.set(*x, *y, CellState::Alive);
    }
    b
}

#[test]
fn blinker_run_stops_on_its_cycle() {
    let mut b = board(5, 5, &[(1, 2), (2, 2), (3, 2)]);
    let (stats, series) = advance_run(&mut b, 10, true, true);
    assert_eq!(stats.status, RunStatus::Cyclic);
    assert_eq!(stats.iterations_run, 2);
    let cycle = stats.cycle.unwrap();
    assert_eq!(cycle.start_generation, 0);
    assert_eq!(cycle.detected_generation, 2);
    assert_eq!(cycle.period, 2);
    assert_eq!(series.alive, vec![3, 3, 3]);
    assert_eq!(series.births, vec![0, 2, 2]);
    assert_eq!(series.deaths, vec![0, 2, 2]);
    assert_eq!(stats.total_births, 4);
    assert_eq!(stats.total_deaths, 4);
    assert!(same_board(&b, &board(5, 5, &[(1, 2), (2, 2), (3, 2)])));
}

#[test]
fn blinker_run_without_cycle_stop_runs_to_the_limit() {
    let mut b = board(5, 5, &[(1, 2), (2, 2), (3, 2)]);
    let (stats, series) = advance_run(&mut b, 3, true, false);
    assert_eq!(stats.status, RunStatus::MaxIterations);
    assert_eq!(stats.iterations_run, 3);
    assert_eq!(stats.cycle, None);
    assert_eq!(series.alive.len(), 4);
    assert!(same_board(&b, &board(5, 5, &[(2, 1), (2, 2), (2, 3)])));
}

#[test]
fn block_is_stable_without_counting_the_confirming_step() {
    let mut b = board(4, 4, &[(1, 1), (2, 1), (1, 2), (2, 2)]);
    let (stats, series) = advance_run(&mut b, 10, true, true);
    assert_eq!(stats.status, RunStatus::Stable);
    assert_eq!(stats.iterations_run, 0);
    assert_eq!(series.alive, vec![4]);
    assert_eq!(stats.final_alive_count, 4);
}

#[test]
fn stable_board_counts_steps_when_not_stopping_on_stability() {
    let mut b = board(4, 4, &[(1, 1), (2, 1), (1, 2), (2, 2)]);
    let (stats, _) = advance_run(&mut b, 3, false, false);
    assert_eq!(stats.status, RunStatus::MaxIterations);
    assert_eq!(stats.iterations_run, 3);
}

#[test]
fn empty_board_is_extinct_at_once() {
    let mut b = board(3, 3, &[]);
    let (stats, series) = advance_run(&mut b, 10, true, true);
    assert_eq!(stats.status, RunStatus::Extinct);
    assert_eq!(stats.iterations_run, 0);
    assert_eq!(series.alive, vec![0]);
}

#[test]
fn full_three_by_three_dies_out_in_two_generations() {
    let mut b = InMemoryBoard::new(3, 3);
    seed_with_initializer(InitialBoardSource::Alive, &mut b, 0);
    let (stats, series) = advance_run(&mut b, 10, true, true);
    assert_eq!(stats.status, RunStatus::Extinct);
    assert_eq!(stats.iterations_run, 2);
    assert_eq!(series.alive, vec![9, 4, 0]);
    assert_eq!(stats.total_births, 0);
    assert_eq!(stats.total_deaths, 9);
    assert_eq!(stats.peak_alive_count, 9);
    assert_eq!(stats.peak_alive_generation, 0);
    assert_eq!(stats.min_alive_count, 0);
    assert_eq!(stats.min_alive_generation, 2);
}

#[test]
fn zero_iterations_runs_nothing() {
    let mut b = board(5, 5, &[(1, 2), (2, 2), (3, 2)]);
    let (stats, _) = advance_run(&mut b, 0, true, true);
    assert_eq!(stats.status, RunStatus::MaxIterations);
    assert_eq!(stats.iterations_run, 0);
}

#[test]
fn seeding_alive_fills_the_board() {
    let mut b = InMemoryBoard::new(2, 2);
    seed_with_initializer(InitialBoardSource::Alive, &mut b, 7);
    assert!(same_board(&b, &board(2, 2, &[(0, 0), (1, 0), (0, 1), (1, 1)])));
}

#[test]
fn boards_of_other_sizes_differ() {
    assert!(!same_board(&board(2, 3, &[]), &board(3, 2, &[])));
    assert!(!same_board(&board(2, 2, &[(0, 0)]), &board(2, 2, &[])));
}

fn stats(iterations_run: u64, status: RunStatus, births: u64, deaths: u64, final_alive: u64) -> RunStatistics {
    RunStatistics {
        initial_alive_count: 3,
        final_alive_count: final_alive,
        peak_alive_count: 3,
        peak_alive_generation: 0,
        min_alive_count: 3,
        min_alive_generation: 0,
        total_births: births,
        total_deaths: deaths,
        iterations_run,
        status,
        cycle: None,
    }
}

fn record_for(initial: InMemoryBoard, final_: InMemoryBoard, source: &str, status: &str, iterations: u64) -> RunRecord {
    let initial_hash = board_grid_hash(&initial);
    let final_hash = board_grid_hash(&final_);
    RunRecord {
        run_id: RunId::from_bytes([1; 16]),
        schema_version: SCHEMA_VERSION,
        created_at: 0,
        tool_version: TOOL_VERSION.to_string(),
        config: RunRecordConfig {
            board_size: (initial.width(), initial.height()),
            max_iterations: 10,
            max_board_memory_bytes: 1024,
            initial_board_source: source.to_string(),
            random_seed: 1,
            updater: "in_place_transitional".to_string(),
            continued_from: None,
        },
        result: RunRecordResult {
            status: status.to_string(),
            iterations_run: iterations,
            wall_time_ms: 0,
            initial_alive_count: 3,
            final_alive_count: 3,
            peak_alive_count: 3,
            peak_alive_generation: 0,
            min_alive_count: 3,
            min_alive_generation: 0,
            total_births: 4,
            total_deaths: 4,
            initial_board_hash: initial_hash,
            final_board_hash: final_hash,
        },
        initial_board: initial,
        final_board: final_,
    }
}

#[test]
fn replay_of_a_faithful_record_matches() {
    let blinker = board(5, 5, &[(1, 2), (2, 2), (3, 2)]);
    let record = record_for(blinker.clone(), blinker, "load:start.gol", "cyclic", 2);
    assert!(matches!(replay_record(&record), Ok(ReplayOutcome::Match)));
}

#[test]
fn replay_reports_each_difference() {
    let blinker = board(5, 5, &[(1, 2), (2, 2), (3, 2)]);
    let record = record_for(blinker.clone(), board(5, 5, &[]), "load:start.gol", "max_iterations", 7);
    match replay_record(&record) {
        Ok(ReplayOutcome::Mismatch(lines)) => {
            assert_eq!(
                lines,
                vec![
                    "final board differs".to_string(),
                    "iterations_run differs: recorded=7, recomputed=10".to_string(),
                    "total_births differs: recorded=4, recomputed=20".to_string(),
                    "total_deaths differs: recorded=4, recomputed=20".to_string(),
                ]
            );
        }
        other => panic!("unexpected replay outcome: {other:?}"),
    }
}

#[test]
fn replay_differences_lists_the_board_and_status_lines() {
    let blinker = board(5, 5, &[(1, 2), (2, 2), (3, 2)]);
    let record = record_for(blinker.clone(), blinker, "demo", "stable", 2);
    let lines = replay_differences(&record, true, &board(5, 5, &[]), &stats(2, RunStatus::Extinct, 4, 4, 0));
    assert_eq!(
        lines,
        vec![
            "initial board differs: recorded initial board does not match the regenerated one (initializer drift or seed mismatch)".to_string(),
            "final board differs".to_string(),
            "status differs: recorded='stable', recomputed='extinct'".to_string(),
            "final_alive_count differs: recorded=3, recomputed=0".to_string(),
        ]
    );
}

#[test]
fn replay_of_an_oversized_regenerated_board_fails() {
    let blinker = board(5, 5, &[(1, 2), (2, 2), (3, 2)]);
    let mut record = record_for(blinker.clone(), blinker, "demo", "cyclic", 2);
    record.config.max_board_memory_bytes = 3;
    assert!(replay_record(&record).is_err());
}

#[test]
fn built_record_hashes_its_boards() {
    let initial = board(3, 3, &[(0, 0)]);
    let final_ = board(3, 3, &[]);
    let record = build_run_record(
        RunId::from_bytes([2; 16]),
        (3, 3),
        5,
        1024,
        &InitialBoardSpec::Initializer(InitialBoardSource::Blinker),
        9,
        None,
        stats(1, RunStatus::Extinct, 0, 1, 0),
        12,
        1_700_000_000,
        initial.clone(),
        final_.clone(),
    );
    assert_eq!(record.result.initial_board_hash, board_grid_hash(&initial));
    assert_eq!(record.result.final_board_hash, board_grid_hash(&final_));
    assert_ne!(record.result.initial_board_hash, record.result.final_board_hash);
    assert_eq!(record.config.initial_board_source, "blinker");
    assert_eq!(record.result.status, "extinct");
    assert_eq!(record.config.updater, "in_place_transitional");
    assert_eq!(record.created_at, 1_700_000_000);
}

#[test]
fn continuation_budgets() {
    assert_eq!(continuation_iterations(ContinuationBudget::Additional(4), 10), Ok(4));
    assert_eq!(continuation_iterations(ContinuationBudget::CumulativeMax(15), 10), Ok(5));
    assert_eq!(
        continuation_iterations(ContinuationBudget::CumulativeMax(10), 10),
        Err(CumulativeMaxTooSmall { cumulative_max: 10, source_iterations_run: 10 })
    );
}

#[test]
fn filename_timestamps_drop_separators() {
    assert_eq!(filename_timestamp(0), "19700101T000000Z");
    assert_eq!(filename_timestamp(1_781_304_920), "20260612T225520Z");
}

#[test]
fn run_record_file_names_carry_the_short_id() {
    let id = RunId::from_bytes([0xab; 16]);
    assert_eq!(run_record_file_name(0, &id), "19700101T000000Z-abababab.gol");
}

fn config(spec: InitialBoardSpec, size: Option<(usize, usize)>, budget: usize) -> SimulationConfig {
    SimulationConfig {
        board_size: size.map(|(w, h)| game_of_life::board::board_size::BoardSize { width: w, height: h }),
        max_iterations: None,
        max_board_memory_bytes: budget,
        initial_board: spec,
        save: SaveSettings::Suppressed,
        integrity: IntegrityMode::Enforce,
        max_input_file_bytes: 1024,
        working_dir: None,
        save_board_path: None,
        warnings: Vec::new(),
    }
}

#[test]
fn only_oversized_initializer_runs_stream() {
    let big = config(InitialBoardSpec::Initializer(InitialBoardSource::Demo), Some((100, 100)), 1000);
    assert!(should_auto_promote_to_streaming(&big));
    let small = config(InitialBoardSpec::Initializer(InitialBoardSource::Demo), Some((10, 10)), 1000);
    assert!(!should_auto_promote_to_streaming(&small));
    let loaded = config(
        InitialBoardSpec::LoadFromFile { path: "a.gol".to_string(), from: None },
        Some((100, 100)),
        1000,
    );
    assert!(!should_auto_promote_to_streaming(&loaded));
}

#[test]
fn terminal_messages() {
    let mut stable = stats(4, RunStatus::Stable, 0, 0, 3);
    assert_eq!(
        game_of_life::simulation::terminal_status_message(&stable),
        Some("Stable state reached at generation 4".to_string())
    );
    stable.status = RunStatus::Cyclic;
    stable.cycle = Some(game_of_life::stats::CycleStatistics {
        start_generation: 1,
        detected_generation: 3,
        period: 2,
    });
    assert_eq!(
        game_of_life::simulation::terminal_status_message(&stable),
        Some("Cycle detected at generation 3: period 2 (first seen at generation 1)".to_string())
    );
    stable.status = RunStatus::Extinct;
    assert_eq!(game_of_life::simulation::terminal_status_message(&stable), None);
}

#[test]
fn board_size_given_with_a_loaded_board_must_match_it() {
    let loaded = config(
        InitialBoardSpec::LoadFromFile { path: "a.gol".to_string(), from: None },
        Some((8, 6)),
        1000,
    );
    let conflict = loaded.loaded_board_size_conflict(10, 6).unwrap();
    assert_eq!((conflict.width, conflict.height), (8, 6));
    assert!(loaded.loaded_board_size_conflict(8, 6).is_none());
    let continued = config(
        InitialBoardSpec::ContinueFromRun {
            path: "r.gol".to_string(),
            budget: ContinuationBudget::Additional(3),
        },
        Some((4, 4)),
        1000,
    );
    assert!(continued.loaded_board_size_conflict(4, 5).is_some());
    let no_size = config(
        InitialBoardSpec::LoadFromFile { path: "a.gol".to_string(), from: None },
        None,
        1000,
    );
    assert!(no_size.loaded_board_size_conflict(10, 6).is_none());
    let seeded = config(InitialBoardSpec::Initializer(InitialBoardSource::Demo), Some((8, 6)), 1000);
    assert!(seeded.loaded_board_size_conflict(10, 6).is_none());
}

#[test]
fn initial_board_sources_parse_back_from_their_names() {
    for s in [InitialBoardSource::Demo, InitialBoardSource::Alive, InitialBoardSource::Blinker, InitialBoardSource::Random] {
        assert_eq!(InitialBoardSource::parse(s.as_str()), Ok(s));
        assert_eq!(InitialBoardSource::parse(&format!(" {} \t", s.as_str())), Ok(s));
    }
    match InitialBoardSource::parse(" file ") {
        Err(game_of_life::config::values::InitialBoardSourceParseError::Unsupported { value }) => {
            assert_eq!(value, " file ")
        }
        other => panic!("unexpected {other:?}"),
    }
}

#[test]
fn a_run_with_a_transient_reports_where_its_cycle_starts() {
    // A T of four cells grows into four blinkers ("traffic lights"), which
    // then repeat every two generations.
    let mut board = InMemoryBoard::new(11, 11);
    for (x, y) in [(4, 5), (5, 5), (6, 5), (5, 4)] {
        board.set(x, y, CellState::Alive);
    }
    let (stats, _) = advance_run(&mut board, 50, true, true);
    assert_eq!(stats.status, RunStatus::Cyclic);
    let cycle = stats.cycle.unwrap();
    assert_eq!(cycle.start_generation, 9);
    assert_eq!(cycle.detected_generation, 11);
    assert_eq!(cycle.period, 2);
    assert_eq!(stats.iterations_run, 11);
}
