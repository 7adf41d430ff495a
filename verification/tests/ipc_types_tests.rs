use game_of_life::board::CellState;
use game_of_life::desktop::ipc_types::{
    AdvanceTick, BoardPayload, IpcCellState, IpcRunStatistics, IpcRunStatus,
};
use game_of_life::stats::{AdvanceOutcome, CycleStatistics, RunStatistics, RunStatus};

#[test]
fn ipc_cell_state_collapses_transitional_variants_to_alive_or_dead() {
    assert_eq!(IpcCellState::from_core(CellState::Dead), IpcCellState::Dead);
    assert_eq!(IpcCellState::from_core(CellState::Alive), IpcCellState::Alive);
    assert_eq!(IpcCellState::from_core(CellState::Dying), IpcCellState::Dead);
    assert_eq!(IpcCellState::from_core(CellState::Resurrecting), IpcCellState::Alive);
}

#[test]
fn ipc_cell_state_round_trips_normalized_core_state() {
    for state in [CellState::Dead, CellState::Alive, CellState::Dying, CellState::Resurrecting] {
        let ipc = IpcCellState::from_core(state);
        let back = ipc.to_core();
        match state {
            CellState::Alive | CellState::Resurrecting => assert_eq!(back, CellState::Alive),
            CellState::Dead | CellState::Dying => assert_eq!(back, CellState::Dead),
        }
    }
}

#[test]
fn cell_state_round_trip() {
    for state in [CellState::Dead, CellState::Alive, CellState::Dying, CellState::Resurrecting] {
        let ipc = IpcCellState::from_core(state);
        let back = ipc.to_core();
        match state {
            CellState::Alive | CellState::Resurrecting => assert_eq!(back, CellState::Alive),
            CellState::Dead | CellState::Dying => assert_eq!(back, CellState::Dead),
        }
    }
}

#[test]
fn board_payload_round_trips_through_base64() {
    let cells: Vec<u8> = (0..2500).map(|i| if i % 3 == 0 { 1u8 } else { 0u8 }).collect();
    let payload = BoardPayload::from_bytes(50, 50, 12, &cells);
    let decoded = payload.decoded_cells().expect("base64 must round-trip");
    assert_eq!(decoded, cells);
    assert_eq!(payload.width, 50);
    assert_eq!(payload.height, 50);
    assert_eq!(payload.iteration, 12);
}

#[test]
fn board_payload_encodes_standard_base64() {
    let payload = BoardPayload::from_bytes(3, 1, 0, &[1, 0, 1]);
    assert_eq!(payload.cells_base64, "AQAB");
    let payload = BoardPayload::from_bytes(1, 1, 0, &[1]);
    assert_eq!(payload.cells_base64, "AQ==");
}

#[test]
fn board_payload_with_invalid_text_fails_to_decode() {
    let payload = BoardPayload { width: 1, height: 1, iteration: 0, cells_base64: "*".to_string() };
    assert!(payload.decoded_cells().is_err());
}

#[test]
fn advance_tick_computes_dead_from_total_minus_alive() {
    let outcome = AdvanceOutcome::from_counts(7, 3, 200);
    let tick = AdvanceTick::from_outcome(42, 25 * 25, outcome);
    assert_eq!(tick.iteration, 42);
    assert_eq!(tick.alive, 200);
    assert_eq!(tick.dead, 25 * 25 - 200);
    assert_eq!(tick.births, 7);
    assert_eq!(tick.deaths, 3);
}

#[test]
fn advance_tick_dead_count_saturates_at_zero() {
    let outcome = AdvanceOutcome::from_counts(0, 0, 10);
    assert_eq!(AdvanceTick::from_outcome(1, 4, outcome).dead, 0);
}

#[test]
fn run_statistics_conversion_preserves_every_field() {
    let s = RunStatistics {
        initial_alive_count: 10,
        final_alive_count: 4,
        peak_alive_count: 18,
        peak_alive_generation: 6,
        min_alive_count: 1,
        min_alive_generation: 20,
        total_births: 100,
        total_deaths: 106,
        iterations_run: 25,
        status: RunStatus::Extinct,
        cycle: None,
    };
    let ipc = IpcRunStatistics::from_statistics(&s);
    assert_eq!(ipc.initial_alive_count, 10);
    assert_eq!(ipc.final_alive_count, 4);
    assert_eq!(ipc.peak_alive_count, 18);
    assert_eq!(ipc.peak_alive_generation, 6);
    assert_eq!(ipc.min_alive_count, 1);
    assert_eq!(ipc.min_alive_generation, 20);
    assert_eq!(ipc.total_births, 100);
    assert_eq!(ipc.total_deaths, 106);
    assert_eq!(ipc.iterations_run, 25);
    assert_eq!(ipc.status, IpcRunStatus::Extinct);
    assert_eq!(ipc.cycle_start_generation, None);
    assert_eq!(ipc.cycle_detected_generation, None);
    assert_eq!(ipc.cycle_period, None);
}

#[test]
fn run_statistics_conversion_preserves_cycle_metadata() {
    let s = RunStatistics {
        initial_alive_count: 3,
        final_alive_count: 3,
        peak_alive_count: 3,
        peak_alive_generation: 0,
        min_alive_count: 3,
        min_alive_generation: 0,
        total_births: 6,
        total_deaths: 6,
        iterations_run: 2,
        status: RunStatus::Cyclic,
        cycle: Some(CycleStatistics { start_generation: 0, detected_generation: 2, period: 2 }),
    };
    let ipc = IpcRunStatistics::from_statistics(&s);
    assert_eq!(ipc.cycle_start_generation, Some(0));
    assert_eq!(ipc.cycle_detected_generation, Some(2));
    assert_eq!(ipc.cycle_period, Some(2));
}

#[test]
fn stable_run_status_converts_to_ipc_status() {
    assert_eq!(IpcRunStatus::from_core(RunStatus::Stable), IpcRunStatus::Stable);
}

#[test]
fn cyclic_run_status_converts_to_ipc_status() {
    assert_eq!(IpcRunStatus::from_core(RunStatus::Cyclic), IpcRunStatus::Cyclic);
}
