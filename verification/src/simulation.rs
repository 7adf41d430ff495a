//! Running a board for a number of generations, stopping when it dies out,
//! stops changing or repeats, while collecting its statistics.
use vstd::prelude::*;

use crate::algorithms::in_place_transitional_updater::InPlaceTransitionalUpdater;
use crate::board::editor::{advanced, BoardEditor};
use crate::board::grid::{
    births_of, deaths_of, grid_count, in_bounds, lemma_grid_count_bound, live_at, next_alive, survivors_of,
};
use crate::board::signature::BoardSignature;
use crate::board::view::{cells_of, BoardView};
use crate::board::{CellState, InMemoryBoard};
use crate::algorithms::board_initializer::BoardInitializer;
use crate::algorithms::centered_blinker_initializer::{blinker_cell, CenteredBlinkerInitializer};
use crate::algorithms::demo_board_initializer::{demo_hit, demo_offset, DemoBoardInitializer};
use crate::algorithms::fully_alive_initializer::FullyAliveInitializer;
use crate::algorithms::random_board_initializer::{
    draw_per_thousand, RandomBoardInitializer, DEFAULT_ALIVE_CELLS_PER_THOUSAND,
};
use crate::board::in_memory_board::{allocation_result, InMemoryBoardCreationError};
use crate::config::values::{initial_board_value, InitialBoardSource};
use crate::pattern_analysis::{
    analyzer_step, first_seen, PatternAnalyzer, PatternBackend, PatternObservation, SeenEntries,
};
use crate::persistence::record_reader::texts_of;
use crate::repetition::{
    distinct_generations, lemma_signature_same_alive, lemma_still_stays_still, lemma_track_new,
    lemma_track_repeat, lemma_tracked_distinct, same_alive, signature_for, tracks_generations,
};
use crate::config::cli::{record_label_text, ContinuationBudget, InitialBoardSpec, SimulationConfig};
use crate::persistence::run_id::run_id_text;
use crate::persistence::timestamps::{format_utc, timestamp_text};
use crate::persistence::record_reader::grid_hash;
use crate::persistence::run_id::RunId;
use crate::persistence::run_record::{
    board_grid_hash, RunRecord, RunRecordConfig, RunRecordReadError, RunRecordResult, TOOL_VERSION,
};
use crate::stats::run_statistics::{series_sum, status_name};
use crate::text::{decimal_digits, decimal_string, push_chars, push_str, str_eq, trim, trim_str};
use crate::stats::{
    terminal_status_for_outcome, AdvanceOutcome, CycleStatistics, IterationSeries, RunStatistics,
    RunStatisticsCollector, RunStatus,
};

verus! {

/// The generation after `g` on a `w × h` board under Conway's rule.
pub open spec fn conway_step(g: spec_fn(int, int) -> CellState, w: int, h: int) -> spec_fn(int, int) -> CellState {
    |x: int, y: int| CellState::of_liveness(next_alive(g, w, h, &InPlaceTransitionalUpdater, x, y))
}

/// Generation `n` of a run that starts from `g0`.
pub open spec fn generation(g0: spec_fn(int, int) -> CellState, w: int, h: int, n: nat) -> spec_fn(
    int,
    int,
) -> CellState
    decreases n,
{
    if n == 0 {
        g0
    } else {
        conway_step(generation(g0, w, h, (n - 1) as nat), w, h)
    }
}

/// The board holds `g` on every on-board cell.
pub open spec fn holds(b: &InMemoryBoard, g: spec_fn(int, int) -> CellState) -> bool {
    forall|x: int, y: int|
        in_bounds(b.spec_width() as int, b.spec_height() as int, x, y) ==> #[trigger] b.cell(x, y) == g(x, y)
}

/// Number of cells of `g` that are alive (transitional states taken by
/// what they settle to).
pub open spec fn alive_in(g: spec_fn(int, int) -> CellState, w: nat, h: nat) -> nat {
    grid_count(|x: int, y: int| g(x, y).normal_form() == CellState::Alive, w, h)
}

/// Number of cells born in the step that follows `g`.
pub open spec fn births_after(g: spec_fn(int, int) -> CellState, w: nat, h: nat) -> nat {
    grid_count(births_of(g, w as int, h as int, &InPlaceTransitionalUpdater), w, h)
}

/// Number of cells that die in the step that follows `g`.
pub open spec fn deaths_after(g: spec_fn(int, int) -> CellState, w: nat, h: nat) -> nat {
    grid_count(deaths_of(g, w as int, h as int, &InPlaceTransitionalUpdater), w, h)
}

/// Two grids that agree on the board have the same next generation.
proof fn lemma_step_agrees(g1: spec_fn(int, int) -> CellState, g2: spec_fn(int, int) -> CellState, w: int, h: int)
    requires
        forall|x: int, y: int| in_bounds(w, h, x, y) ==> #[trigger] g1(x, y) == g2(x, y),
    ensures
        forall|x: int, y: int| #[trigger] live_at(g1, w, h, x, y) == live_at(g2, w, h, x, y),
        births_of(g1, w, h, &InPlaceTransitionalUpdater) == births_of(g2, w, h, &InPlaceTransitionalUpdater),
        deaths_of(g1, w, h, &InPlaceTransitionalUpdater) == deaths_of(g2, w, h, &InPlaceTransitionalUpdater),
        survivors_of(g1, w, h, &InPlaceTransitionalUpdater) == survivors_of(g2, w, h, &InPlaceTransitionalUpdater),
        conway_step(g1, w, h) == conway_step(g2, w, h),
{
    assert forall|x: int, y: int| #[trigger] live_at(g1, w, h, x, y) == live_at(g2, w, h, x, y) by {
        if in_bounds(w, h, x, y) {
            assert(g1(x, y) == g2(x, y));
        }
    }
    let r = InPlaceTransitionalUpdater;
    assert forall|x: int, y: int| #[trigger] next_alive(g1, w, h, &r, x, y) == next_alive(g2, w, h, &r, x, y) by {
        assert(live_at(g1, w, h, x - 1, y - 1) == live_at(g2, w, h, x - 1, y - 1));
        assert(live_at(g1, w, h, x, y - 1) == live_at(g2, w, h, x, y - 1));
        assert(live_at(g1, w, h, x + 1, y - 1) == live_at(g2, w, h, x + 1, y - 1));
        assert(live_at(g1, w, h, x - 1, y) == live_at(g2, w, h, x - 1, y));
        assert(live_at(g1, w, h, x, y) == live_at(g2, w, h, x, y));
        assert(live_at(g1, w, h, x + 1, y) == live_at(g2, w, h, x + 1, y));
        assert(live_at(g1, w, h, x - 1, y + 1) == live_at(g2, w, h, x - 1, y + 1));
        assert(live_at(g1, w, h, x, y + 1) == live_at(g2, w, h, x, y + 1));
        assert(live_at(g1, w, h, x + 1, y + 1) == live_at(g2, w, h, x + 1, y + 1));
    }
    assert(births_of(g1, w, h, &r) =~= births_of(g2, w, h, &r));
    assert(deaths_of(g1, w, h, &r) =~= deaths_of(g2, w, h, &r));
    assert(survivors_of(g1, w, h, &r) =~= survivors_of(g2, w, h, &r));
    assert(conway_step(g1, w, h) =~= conway_step(g2, w, h));
}

/// One advance of a board that holds generation `n` gives a board that
/// holds generation `n + 1`, with the births, deaths and alive count of
/// that step.
proof fn lemma_advance_step(
    prev: &InMemoryBoard,
    next: &InMemoryBoard,
    outcome: AdvanceOutcome,
    g0: spec_fn(int, int) -> CellState,
    n: nat,
)
    requires
        holds(prev, generation(g0, prev.spec_width() as int, prev.spec_height() as int, n)),
        advanced(prev, next, &InPlaceTransitionalUpdater, outcome),
    ensures
        next.spec_width() == prev.spec_width(),
        next.spec_height() == prev.spec_height(),
        holds(next, generation(g0, prev.spec_width() as int, prev.spec_height() as int, n + 1)),
        outcome.births == births_after(generation(g0, prev.spec_width() as int, prev.spec_height() as int, n), prev.spec_width(), prev.spec_height()),
        outcome.deaths == deaths_after(generation(g0, prev.spec_width() as int, prev.spec_height() as int, n), prev.spec_width(), prev.spec_height()),
        outcome.alive_count == alive_in(generation(g0, prev.spec_width() as int, prev.spec_height() as int, n + 1), prev.spec_width(), prev.spec_height()),
{
    let w = prev.spec_width() as int;
    let h = prev.spec_height() as int;
    let g = generation(g0, w, h, n);
    let pc = cells_of(prev);
    assert forall|x: int, y: int| in_bounds(w, h, x, y) implies #[trigger] pc(x, y) == g(x, y) by {
        assert(prev.cell(x, y) == g(x, y));
    }
    lemma_step_agrees(pc, g, w, h);
    let gn = generation(g0, w, h, n + 1);
    assert(gn == conway_step(g, w, h));
    assert forall|x: int, y: int| in_bounds(w, h, x, y) implies #[trigger] next.cell(x, y) == gn(x, y) by {
        assert(cells_of(next)(x, y) == CellState::of_liveness(
            next_alive(pc, w, h, &InPlaceTransitionalUpdater, x, y),
        ));
        assert(conway_step(pc, w, h)(x, y) == conway_step(g, w, h)(x, y));
    }
    let alive = |x: int, y: int| gn(x, y).normal_form() == CellState::Alive;
    assert(alive =~= survivors_of(g, w, h, &InPlaceTransitionalUpdater));
}

/// The signature of an in-memory board.
fn signature_of(board: &InMemoryBoard) -> (r: BoardSignature)
    requires
        board.spec_width() * board.spec_height() + 7 <= usize::MAX,
    ensures
        r@.0 == board.spec_width(),
        r@.1 == board.spec_height(),
        r@.2 == alive_in(cells_of(board), board.spec_width(), board.spec_height()),
        signature_for(r@, cells_of(board), board.spec_width(), board.spec_height()),
{
    let r = BoardSignature::from_view(board);
    proof {
        let f = |x: int, y: int| board.view_cell(x, y).normal_form() == CellState::Alive;
        let g = |x: int, y: int| cells_of(board)(x, y).normal_form() == CellState::Alive;
        assert(f =~= g);
    }
    r.unwrap()
}

/// The signature of a board that holds `g` is a signature of `g`.
proof fn lemma_held_signature(b: &InMemoryBoard, g: spec_fn(int, int) -> CellState, key: (usize, usize, u64, Seq<u8>))
    requires
        holds(b, g),
        signature_for(key, cells_of(b), b.spec_width(), b.spec_height()),
    ensures
        signature_for(key, g, b.spec_width(), b.spec_height()),
{
    let c = cells_of(b);
    assert forall|x: int, y: int|
        #![trigger c(x, y), g(x, y)]
        in_bounds(b.spec_width() as int, b.spec_height() as int, x, y) implies (c(x, y).normal_form()
        == CellState::Alive) == (g(x, y).normal_form() == CellState::Alive) by {
        assert(b.cell(x, y) == g(x, y));
    }
    lemma_signature_same_alive(key, c, g, b.spec_width(), b.spec_height());
}

/// The series of a run of `n` generations from `g0`: the alive count of
/// each generation, and the births and deaths of the step into it.
pub open spec fn run_series(
    g0: spec_fn(int, int) -> CellState,
    w: nat,
    h: nat,
    n: nat,
    a: Seq<u64>,
    b: Seq<u64>,
    d: Seq<u64>,
) -> bool {
    &&& a.len() == n + 1
    &&& b.len() == n + 1
    &&& d.len() == n + 1
    &&& forall|i: int| 0 <= i <= n ==> #[trigger] a[i] == alive_in(generation(g0, w as int, h as int, i as nat), w, h)
    &&& b[0] == 0
    &&& d[0] == 0
    &&& forall|i: int|
        1 <= i <= n ==> #[trigger] b[i] == births_after(generation(g0, w as int, h as int, (i - 1) as nat), w, h)
    &&& forall|i: int|
        1 <= i <= n ==> #[trigger] d[i] == deaths_after(generation(g0, w as int, h as int, (i - 1) as nat), w, h)
}

/// The summary figures of `s` are those of the series: the first and last
/// counts, the totals, and the peak and minimum with the generation each was
/// first reached.
pub open spec fn summarizes(s: RunStatistics, a: Seq<u64>, b: Seq<u64>, d: Seq<u64>) -> bool {
    &&& a.len() == s.iterations_run + 1
    &&& s.initial_alive_count == a[0]
    &&& s.final_alive_count == a.last()
    &&& s.total_births == series_sum(b)
    &&& s.total_deaths == series_sum(d)
    &&& s.peak_alive_generation < a.len()
    &&& a[s.peak_alive_generation as int] == s.peak_alive_count
    &&& forall|j: int| 0 <= j < a.len() ==> a[j] <= s.peak_alive_count
    &&& forall|j: int| 0 <= j < s.peak_alive_generation ==> a[j] < s.peak_alive_count
    &&& s.min_alive_generation < a.len()
    &&& a[s.min_alive_generation as int] == s.min_alive_count
    &&& forall|j: int| 0 <= j < a.len() ==> a[j] >= s.min_alive_count
    &&& forall|j: int| 0 <= j < s.min_alive_generation ==> a[j] > s.min_alive_count
}

/// A signature seen earlier than `bound` is reported with a generation
/// before `bound`.
proof fn lemma_first_seen_before(entries: SeenEntries, key: (usize, usize, u64, Seq<u8>), bound: int)
    requires
        forall|j: int| 0 <= j < entries.len() ==> #[trigger] entries[j].1 < bound,
    ensures
        first_seen(entries, key) matches Some(g) ==> g < bound,
    decreases entries.len(),
{
    if entries.len() > 0 {
        let rest = entries.drop_first();
        assert forall|j: int| 0 <= j < rest.len() implies #[trigger] rest[j].1 < bound by {
            assert(rest[j] == entries[j + 1]);
        }
        lemma_first_seen_before(rest, key, bound);
    }
}

/// No generation before generation `n` is extinct.
pub open spec fn alive_before(g0: spec_fn(int, int) -> CellState, w: nat, h: nat, n: nat) -> bool {
    forall|j: nat| j < n ==> #[trigger] alive_in(generation(g0, w as int, h as int, j), w, h) > 0
}

/// Each of the first `n` steps changed at least one cell.
pub open spec fn steps_change(g0: spec_fn(int, int) -> CellState, w: nat, h: nat, n: nat) -> bool {
    forall|j: nat|
        j < n ==> #[trigger] births_after(generation(g0, w as int, h as int, j), w, h) + deaths_after(
            generation(g0, w as int, h as int, j),
            w,
            h,
        ) > 0
}

/// Where a run stands after `i` advances, `k` of them recorded, with the
/// board `b` and the stop reached so far. A cycle is the first generation
/// whose board repeats an earlier one: it repeats the generation its cycle
/// starts at, and no two generations before it are the same board.
pub open spec fn run_point(
    terminal: Option<RunStatus>,
    cycle: Option<CycleStatistics>,
    b: &InMemoryBoard,
    g0: spec_fn(int, int) -> CellState,
    k: nat,
    i: nat,
    stop_on_stability: bool,
    stop_on_cycle: bool,
) -> bool {
    let w = b.spec_width();
    let h = b.spec_height();
    let gk = generation(g0, w as int, h as int, k);
    let gn = generation(g0, w as int, h as int, k + 1);
    match terminal {
        None => k == i && holds(b, gk) && alive_in(gk, w, h) > 0 && cycle is None,
        Some(RunStatus::Extinct) => cycle is None && k <= i && ((holds(b, gk) && alive_in(gk, w, h) == 0) || (
        holds(b, gn) && alive_in(gn, w, h) == 0 && births_after(gk, w, h) == 0 && deaths_after(gk, w, h)
            == 0)),
        Some(RunStatus::Stable) => stop_on_stability && k < i && holds(b, gn) && births_after(gk, w, h) == 0
            && deaths_after(gk, w, h) == 0 && cycle is None,
        Some(RunStatus::Cyclic) => stop_on_cycle && k <= i && holds(b, gk) && (cycle matches Some(c)
            && c.detected_generation == k && c.start_generation < k && c.period == k - c.start_generation
            && same_alive(generation(g0, w as int, h as int, c.start_generation as nat), gk, w, h)
            && distinct_generations(g0, w, h, k)),
        Some(RunStatus::MaxIterations) => false,
    }
}

/// Adding the births and deaths of the step from `g` to the totals of
/// `stats` would not fit in 64 bits.
pub open spec fn totals_overflow(stats: RunStatistics, g: spec_fn(int, int) -> CellState, w: nat, h: nat) -> bool {
    stats.total_births + births_after(g, w, h) > u64::MAX || stats.total_deaths + deaths_after(g, w, h)
        > u64::MAX
}

/// What a run of at most `max` generations from board `b0` gives: the board
/// `b` it ends with, its statistics and its series.
pub open spec fn run_result(
    b0: &InMemoryBoard,
    b: &InMemoryBoard,
    max: nat,
    stop_on_stability: bool,
    stop_on_cycle: bool,
    stats: RunStatistics,
    series: IterationSeries,
) -> bool {
    let w = b0.spec_width();
    let h = b0.spec_height();
    let g0 = cells_of(b0);
    let n = stats.iterations_run as nat;
    &&& b.spec_width() == w
    &&& b.spec_height() == h
    &&& n <= max
    &&& run_series(g0, w, h, n, series.alive@, series.births@, series.deaths@)
    &&& summarizes(stats, series.alive@, series.births@, series.deaths@)
    &&& alive_before(g0, w, h, n)
    &&& stop_on_stability ==> steps_change(g0, w, h, n)
    &&& stats.status == RunStatus::MaxIterations ==> alive_in(generation(g0, w as int, h as int, n), w, h) > 0
        && stats.cycle is None && ((n == max && holds(b, generation(g0, w as int, h as int, n))) || (n < max
        && totals_overflow(stats, generation(g0, w as int, h as int, n), w, h) && holds(
        b,
        generation(g0, w as int, h as int, n + 1),
    )))
    &&& stop_on_cycle && stop_on_stability && stats.status == RunStatus::MaxIterations ==> distinct_generations(
        g0,
        w,
        h,
        n + 1,
    )
    &&& stats.status != RunStatus::MaxIterations ==> run_point(
        Some(stats.status),
        stats.cycle,
        b,
        g0,
        n,
        (if stats.status == RunStatus::Stable { n + 1 } else { n }) as nat,
        stop_on_stability,
        stop_on_cycle,
    )
}

/// Runs the board for at most `max_iterations` generations. The run stops
/// when the board dies out, when a generation changes nothing (if
/// `stop_on_stability`; otherwise such a generation is counted and the run
/// goes on) or when a board repeats (if `stop_on_cycle`). A generation that
/// changes nothing and stops the run is not counted. Should the birth or
/// death total of the run no longer fit in 64 bits, the run stops before
/// counting that generation, at the maximum-iterations status. A run that
/// stops on stability and on cycles and reaches the maximum-iterations
/// status never saw a board twice.
#[verifier::spinoff_prover]
#[verifier::rlimit(100)]
pub fn advance_run(
    board: &mut InMemoryBoard,
    max_iterations: usize,
    stop_on_stability: bool,
    stop_on_cycle: bool,
) -> (r: (RunStatistics, IterationSeries))
    requires
        old(board).spec_width() * old(board).spec_height() + 7 <= usize::MAX,
    ensures
        run_result(old(board), final(board), max_iterations as nat, stop_on_stability, stop_on_cycle, r.0, r.1),
{
    let ghost w = board.spec_width();
    let ghost h = board.spec_height();
    let ghost g0 = cells_of(&*board);
    let ghost area = w * h;
    let updater = InPlaceTransitionalUpdater;
    let initial_signature = signature_of(board);
    let initial_alive = initial_signature.alive_count();
    let mut collector = RunStatisticsCollector::starting_from(initial_alive);
    let mut terminal: Option<RunStatus> = if initial_alive == 0 {
        Some(RunStatus::Extinct)
    } else {
        None
    };
    let mut analyzer = PatternAnalyzer::in_memory_cycle_detection();
    let mut cycle: Option<CycleStatistics> = None;
    if terminal.is_none() {
        let observation = PatternObservation::new(0, PatternBackend::InMemory, None, Some(&initial_signature));
        proof {
            reveal_with_fuel(analyzer_step, 2);
        }
        let _ = analyzer.observe(&observation);
        proof {
            assert(generation(g0, w as int, h as int, 0) == g0);
            assert(analyzer.detector_entries()[0] =~= seq![(initial_signature@, 0u64)]);
        }
    }
    let ghost mut observed_all = true;
    proof {
        assert(generation(g0, w as int, h as int, 0) == g0);
        assert(holds(board, g0));
        reveal_with_fuel(series_sum, 2);
        assert(collector.births() == 0);
    }
    let mut i: usize = 0;
    let mut overflowed = false;
    while i < max_iterations
        invariant_except_break
            run_point(terminal, cycle, board, g0, collector.iterations() as nat, i as nat, stop_on_stability, stop_on_cycle),
            !overflowed,
        invariant
            board.spec_width() == w,
            board.spec_height() == h,
            area == w * h,
            w * h + 7 <= usize::MAX,
            i <= max_iterations,
            collector.consistent(),
            run_series(
                g0,
                w,
                h,
                collector.iterations() as nat,
                collector.alive_seq(),
                collector.births_seq(),
                collector.deaths_seq(),
            ),
            collector.iterations() <= i,
            alive_before(g0, w, h, collector.iterations() as nat),
            stop_on_stability ==> steps_change(g0, w, h, collector.iterations() as nat),
            terminal is None ==> analyzer.detector_entries().len() == 1 && forall|j: int|
                0 <= j < analyzer.detector_entries()[0].len() ==> #[trigger] analyzer.detector_entries()[0][j].1
                    <= collector.iterations(),
            stop_on_stability ==> observed_all,
            !observed_all ==> births_after(generation(g0, w as int, h as int, collector.iterations() as nat), w, h)
                == 0 && deaths_after(generation(g0, w as int, h as int, collector.iterations() as nat), w, h) == 0,
            stop_on_cycle && terminal is None && observed_all ==> tracks_generations(
                analyzer.detector_entries()[0],
                g0,
                w,
                h,
                (collector.iterations() + 1) as nat,
            ),
        ensures
            !overflowed ==> run_point(terminal, cycle, board, g0, collector.iterations() as nat, i as nat, stop_on_stability, stop_on_cycle),
            terminal is None && !overflowed ==> i == max_iterations,
            overflowed ==> {
                let k = collector.iterations() as nat;
                let gk = generation(g0, w as int, h as int, k);
                &&& terminal is None
                &&& cycle is None
                &&& k < max_iterations
                &&& alive_in(gk, w, h) > 0
                &&& holds(board, generation(g0, w as int, h as int, k + 1))
                &&& (collector.births() + births_after(gk, w, h) > u64::MAX || collector.deaths() + deaths_after(gk, w, h) > u64::MAX)
            },
        decreases max_iterations - i,
    {
        if terminal.is_some() {
            break;
        }
        let ghost k = collector.iterations() as nat;
        let ghost prev = *board;
        let ghost gk = generation(g0, w as int, h as int, k);
        proof {
            assert(w * h <= u64::MAX);
        }
        let result = board.advance_with_rule(&updater);
        let outcome = result.unwrap();
        proof {
            lemma_advance_step(&prev, board, outcome, g0, k);
            assert(k < max_iterations);
            assert(usize::MAX <= u64::MAX);
        }
        let status = terminal_status_for_outcome(outcome);
        let records = match status {
            Some(RunStatus::Stable) => !stop_on_stability,
            Some(_) => !outcome.is_stable(),
            None => true,
        };
        if records && (collector.total_births() > u64::MAX - outcome.births || collector.total_deaths()
            > u64::MAX - outcome.deaths) {
            overflowed = true;
            proof {
                assert(terminal is None);
                assert(k == collector.iterations());
                assert(alive_in(gk, w, h) > 0);
                assert(holds(board, generation(g0, w as int, h as int, k + 1)));
                assert(collector.births() + births_after(gk, w, h) > u64::MAX || collector.deaths() + deaths_after(gk, w, h) > u64::MAX);
            }
            break;
        }
        match status {
            Some(RunStatus::Stable) => {
                if stop_on_stability {
                    terminal = Some(RunStatus::Stable);
                } else {
                    collector.record(outcome);
                    proof {
                        assert(collector.alive_seq()[k + 1int] == outcome.alive_count);
                        assert(collector.births_seq()[k + 1int] == outcome.births);
                        assert(collector.deaths_seq()[k + 1int] == outcome.deaths);
                        assert(alive_in(gk, w, h) > 0);
                        lemma_still_stays_still(gk, w, h);
                        assert(generation(g0, w as int, h as int, k + 1) == conway_step(gk, w as int, h as int));
                        observed_all = false;
                    }
                }
            },
            Some(s) => {
                if !outcome.is_stable() {
                    collector.record(outcome);
                    proof {
                        assert(collector.alive_seq()[k + 1int] == outcome.alive_count);
                        assert(collector.births_seq()[k + 1int] == outcome.births);
                        assert(collector.deaths_seq()[k + 1int] == outcome.deaths);
                        assert(alive_in(gk, w, h) > 0);
                    }
                }
                terminal = Some(s);
            },
            None => {
                collector.record(outcome);
                proof {
                    assert(collector.alive_seq()[k + 1int] == outcome.alive_count);
                    assert(collector.births_seq()[k + 1int] == outcome.births);
                    assert(collector.deaths_seq()[k + 1int] == outcome.deaths);
                    assert(alive_in(gk, w, h) > 0);
                }
                let signature = signature_of(board);
                let observation = PatternObservation::new(
                    collector.iterations_run(),
                    PatternBackend::InMemory,
                    Some(outcome),
                    Some(&signature),
                );
                let ghost entries = analyzer.detector_entries()[0];
                proof {
                    lemma_first_seen_before(entries, signature@, k + 1int);
                    reveal_with_fuel(analyzer_step, 2);
                    assert(observed_all);
                    lemma_held_signature(board, generation(g0, w as int, h as int, k + 1), signature@);
                }
                let found = analyzer.observe(&observation);
                proof {
                    if stop_on_cycle {
                        if first_seen(entries, signature@) is None {
                            lemma_track_new(entries, signature@, g0, w, h, k + 1);
                            assert(analyzer.detector_entries()[0] == entries.push((signature@, (k + 1) as u64)));
                        } else {
                            lemma_track_repeat(entries, signature@, g0, w, h, k + 1);
                        }
                    }
                }
                match found {
                    Some(pattern_match) => {
                        if stop_on_cycle {
                            let c = pattern_match.cycle_pattern();
                            cycle = Some(
                                CycleStatistics {
                                    start_generation: c.start_generation,
                                    detected_generation: c.detected_generation,
                                    period: c.period,
                                },
                            );
                            terminal = Some(RunStatus::Cyclic);
                        }
                    },
                    None => {},
                }
            },
        }
        i += 1;
    }
    proof {
        if stop_on_cycle && stop_on_stability && terminal is None {
            lemma_tracked_distinct(analyzer.detector_entries()[0], g0, w, h, (collector.iterations() + 1) as nat);
        }
    }
    let status = match terminal {
        Some(s) => s,
        None => RunStatus::MaxIterations,
    };
    let r = collector.finalize_with_series(status, cycle);
    r
}

/// The state of cell `(x, y)` of a `w × h` board after seeding it from
/// `source` with `seed`, `prev` being its state before.
pub open spec fn seeded_cell(source: InitialBoardSource, seed: u64, w: nat, h: nat, x: int, y: int, prev: CellState) -> CellState {
    match source {
        InitialBoardSource::Demo => if demo_hit(19, demo_offset(w), demo_offset(h), x, y) {
            CellState::Alive
        } else {
            prev
        },
        InitialBoardSource::Alive => CellState::Alive,
        InitialBoardSource::Blinker => if blinker_cell(w, h, x, y) {
            CellState::Alive
        } else {
            prev
        },
        InitialBoardSource::Random => if draw_per_thousand(seed, (y * w + x + 1) as nat)
            < DEFAULT_ALIVE_CELLS_PER_THOUSAND {
            CellState::Alive
        } else {
            CellState::Dead
        },
    }
}

/// Seeds the board with the initializer named by `source`; `seed` drives the
/// random one.
pub fn seed_with_initializer(source: InitialBoardSource, board: &mut InMemoryBoard, seed: u64)
    ensures
        final(board).spec_width() == old(board).spec_width(),
        final(board).spec_height() == old(board).spec_height(),
        forall|x: int, y: int|
            in_bounds(old(board).spec_width() as int, old(board).spec_height() as int, x, y)
                ==> #[trigger] final(board).cell(x, y) == seeded_cell(
                source,
                seed,
                old(board).spec_width(),
                old(board).spec_height(),
                x,
                y,
                old(board).cell(x, y),
            ),
{
    let ghost prev = *board;
    match source {
        InitialBoardSource::Demo => {
            let init = DemoBoardInitializer;
            let r = init.initialize(board);
            assert(r is Ok);
        },
        InitialBoardSource::Alive => {
            let init = FullyAliveInitializer;
            let r = init.initialize(board);
            assert(r is Ok);
        },
        InitialBoardSource::Blinker => {
            let init = CenteredBlinkerInitializer;
            let r = init.initialize(board);
            assert(r is Ok);
        },
        InitialBoardSource::Random => {
            let init = RandomBoardInitializer::new(seed);
            let r = init.initialize(board);
            assert(r is Ok);
            assert(init.spec_seed() == seed);
        },
    }
    proof {
        let w = prev.spec_width();
        let h = prev.spec_height();
        assert forall|x: int, y: int| in_bounds(w as int, h as int, x, y) implies #[trigger] board.cell(x, y)
            == seeded_cell(source, seed, w, h, x, y, prev.cell(x, y)) by {
            assert(board.view_cell(x, y) == board.cell(x, y));
            assert(prev.view_cell(x, y) == prev.cell(x, y));
        }
    }
}

/// Whether two boards have the same size and the same state in every cell.
pub fn same_board(a: &InMemoryBoard, b: &InMemoryBoard) -> (r: bool)
    ensures
        r == a.same_cells(b),
{
    let w = a.width();
    let h = a.height();
    if w != b.width() || h != b.height() {
        return false;
    }
    let mut y: usize = 0;
    while y < h
        invariant
            w == a.spec_width() == b.spec_width(),
            h == a.spec_height() == b.spec_height(),
            y <= h,
            forall|px: int, py: int| 0 <= px < w && 0 <= py < y ==> #[trigger] a.cell(px, py) == b.cell(px, py),
        decreases h - y,
    {
        let mut x: usize = 0;
        while x < w
            invariant
                w == a.spec_width() == b.spec_width(),
                h == a.spec_height() == b.spec_height(),
                y < h,
                x <= w,
                forall|px: int, py: int| 0 <= px < w && 0 <= py < y ==> #[trigger] a.cell(px, py) == b.cell(px, py),
                forall|px: int| 0 <= px < x ==> #[trigger] a.cell(px, y as int) == b.cell(px, y as int),
            decreases w - x,
        {
            if a.get(x, y) != b.get(x, y) {
                return false;
            }
            x += 1;
        }
        y += 1;
    }
    true
}

/// Whether `s` starts with `prefix`.
pub open spec fn starts_with(s: Seq<char>, prefix: Seq<char>) -> bool {
    prefix.len() <= s.len() && s.take(prefix.len() as int) == prefix
}

fn str_starts_with(s: &str, prefix: &str) -> (r: bool)
    ensures
        r == starts_with(s@, prefix@),
{
    let sc = crate::text::chars_of(s);
    let pc = crate::text::chars_of(prefix);
    if pc.len() > sc.len() {
        return false;
    }
    let mut i: usize = 0;
    while i < pc.len()
        invariant
            sc@ == s@,
            pc@ == prefix@,
            pc@.len() <= sc@.len(),
            i <= pc@.len(),
            forall|j: int| 0 <= j < i ==> sc@[j] == pc@[j],
        decreases pc@.len() - i,
    {
        if sc[i] != pc[i] {
            return false;
        }
        i += 1;
    }
    proof {
        assert(s@.take(prefix@.len() as int) =~= prefix@);
    }
    true
}

/// Whether a run's initial board came from a file rather than an
/// initializer, going by its recorded source label.
pub open spec fn loaded_label(label: Seq<char>) -> bool {
    starts_with(label, "load:"@) || starts_with(label, "continue:"@)
}

/// The initializer a replay regenerates a board with: the one the label
/// names, the demo board for a label it does not know.
pub open spec fn replay_source(label: Seq<char>) -> InitialBoardSource {
    match initial_board_value(trim(label)) {
        Some(s) => s,
        None => InitialBoardSource::Demo,
    }
}

/// The initial board a replay starts from: the recorded one when it came
/// from a file, else a fresh board of the recorded size seeded as recorded.
pub fn replay_initial_board(record: &RunRecord) -> (r: Result<InMemoryBoard, InMemoryBoardCreationError>)
    ensures
        loaded_label(record.config.initial_board_source@) ==> (r matches Ok(b) && b.same_cells(&record.initial_board)),
        !loaded_label(record.config.initial_board_source@) ==> {
            let w = record.config.board_size.0;
            let h = record.config.board_size.1;
            match allocation_result(w, h) {
                Err(e) => r == Err::<InMemoryBoard, _>(e),
                Ok(bytes) => if bytes > record.config.max_board_memory_bytes {
                    r == Err::<InMemoryBoard, _>(
                        InMemoryBoardCreationError::MemoryBudgetExceeded {
                            width: w,
                            height: h,
                            requested_memory_bytes: bytes,
                            max_memory_bytes: record.config.max_board_memory_bytes,
                        },
                    )
                } else {
                    r matches Ok(b) && b.spec_width() == w && b.spec_height() == h && forall|x: int, y: int|
                        in_bounds(w as int, h as int, x, y) ==> #[trigger] b.cell(x, y) == seeded_cell(
                            replay_source(record.config.initial_board_source@),
                            record.config.random_seed,
                            w as nat,
                            h as nat,
                            x,
                            y,
                            CellState::Dead,
                        )
                },
            }
        },
{
    let label = record.config.initial_board_source.as_str();
    if str_starts_with(label, "load:") || str_starts_with(label, "continue:") {
        return Ok(record.initial_board.clone());
    }
    let source = match InitialBoardSource::parse(trim_str(label)) {
        Ok(s) => s,
        Err(_) => InitialBoardSource::Demo,
    };
    let (w, h) = record.config.board_size;
    let mut board = match InMemoryBoard::try_new(w, h, record.config.max_board_memory_bytes) {
        Ok(b) => b,
        Err(e) => return Err(e),
    };
    seed_with_initializer(source, &mut board, record.config.random_seed);
    Ok(board)
}

pub const INITIAL_BOARD_DIFF: &'static str = "initial board differs: recorded initial board does not match the regenerated one (initializer drift or seed mismatch)";

pub const FINAL_BOARD_DIFF: &'static str = "final board differs";

/// The line reporting a count that differs.
pub open spec fn count_diff_line(name: Seq<char>, recorded: u64, recomputed: u64) -> Seq<char> {
    name + " differs: recorded="@ + decimal_digits(recorded as nat) + ", recomputed="@ + decimal_digits(
        recomputed as nat,
    )
}

/// The line reporting a status that differs.
pub open spec fn status_diff_line(recorded: Seq<char>, recomputed: Seq<char>) -> Seq<char> {
    "status differs: recorded='"@ + recorded + "', recomputed='"@ + recomputed + "'"@
}

pub open spec fn line_if(cond: bool, line: Seq<char>) -> Seq<Seq<char>> {
    if cond {
        seq![line]
    } else {
        Seq::empty()
    }
}

/// The differences a replay reports, in order, between a record and what
/// re-running it gave.
pub open spec fn replay_lines(
    record: RunRecord,
    initial_differs: bool,
    final_differs: bool,
    s: RunStatistics,
) -> Seq<Seq<char>> {
    let res = record.result;
    line_if(initial_differs, INITIAL_BOARD_DIFF@) + line_if(final_differs, FINAL_BOARD_DIFF@) + line_if(
        s.iterations_run != res.iterations_run,
        count_diff_line("iterations_run"@, res.iterations_run, s.iterations_run),
    ) + line_if(status_name(s.status) != res.status@, status_diff_line(res.status@, status_name(s.status)))
        + line_if(
        s.total_births != res.total_births,
        count_diff_line("total_births"@, res.total_births, s.total_births),
    ) + line_if(
        s.total_deaths != res.total_deaths,
        count_diff_line("total_deaths"@, res.total_deaths, s.total_deaths),
    ) + line_if(
        s.final_alive_count != res.final_alive_count,
        count_diff_line("final_alive_count"@, res.final_alive_count, s.final_alive_count),
    )
}

/// A replay reports one line for each thing the re-run does not reproduce:
/// each board that differs, and each of the iteration count, status, birth
/// and death totals and final alive count that differs from the record's.
/// So a re-run that reproduces the record reports nothing.
pub proof fn lemma_replay_line_count(record: RunRecord, initial_differs: bool, final_differs: bool, s: RunStatistics)
    ensures
        replay_lines(record, initial_differs, final_differs, s).len() == crate::board::grid::bit(initial_differs)
            + crate::board::grid::bit(final_differs) + crate::board::grid::bit(
            s.iterations_run != record.result.iterations_run,
        ) + crate::board::grid::bit(status_name(s.status) != record.result.status@) + crate::board::grid::bit(
            s.total_births != record.result.total_births,
        ) + crate::board::grid::bit(s.total_deaths != record.result.total_deaths) + crate::board::grid::bit(
            s.final_alive_count != record.result.final_alive_count,
        ),
{
}

/// A replay whose only difference is one count reports it on a single line:
/// the count's name, the value the record holds, then the value the re-run
/// gave.
pub proof fn lemma_replay_single_count(record: RunRecord, s: RunStatistics)
    ensures
        ({
            let res = record.result;
            let same_status = status_name(s.status) == res.status@;
            &&& s.iterations_run != res.iterations_run && same_status && s.total_births == res.total_births
                && s.total_deaths == res.total_deaths && s.final_alive_count == res.final_alive_count
                ==> replay_lines(record, false, false, s) == seq![
                "iterations_run differs: recorded="@ + decimal_digits(res.iterations_run as nat)
                    + ", recomputed="@ + decimal_digits(s.iterations_run as nat),
            ]
            &&& s.iterations_run == res.iterations_run && same_status && s.total_births != res.total_births
                && s.total_deaths == res.total_deaths && s.final_alive_count == res.final_alive_count
                ==> replay_lines(record, false, false, s) == seq![
                "total_births differs: recorded="@ + decimal_digits(res.total_births as nat)
                    + ", recomputed="@ + decimal_digits(s.total_births as nat),
            ]
            &&& s.iterations_run == res.iterations_run && same_status && s.total_births == res.total_births
                && s.total_deaths != res.total_deaths && s.final_alive_count == res.final_alive_count
                ==> replay_lines(record, false, false, s) == seq![
                "total_deaths differs: recorded="@ + decimal_digits(res.total_deaths as nat)
                    + ", recomputed="@ + decimal_digits(s.total_deaths as nat),
            ]
            &&& s.iterations_run == res.iterations_run && same_status && s.total_births == res.total_births
                && s.total_deaths == res.total_deaths && s.final_alive_count != res.final_alive_count
                ==> replay_lines(record, false, false, s) == seq![
                "final_alive_count differs: recorded="@ + decimal_digits(res.final_alive_count as nat)
                    + ", recomputed="@ + decimal_digits(s.final_alive_count as nat),
            ]
            &&& s.iterations_run == res.iterations_run && !same_status && s.total_births == res.total_births
                && s.total_deaths == res.total_deaths && s.final_alive_count == res.final_alive_count
                ==> replay_lines(record, false, false, s) == seq![
                "status differs: recorded='"@ + res.status@ + "', recomputed='"@ + status_name(s.status) + "'"@,
            ]
        }),
{
    let res = record.result;
    reveal_strlit("iterations_run");
    reveal_strlit("total_births");
    reveal_strlit("total_deaths");
    reveal_strlit("final_alive_count");
    reveal_strlit(" differs: recorded=");
    reveal_strlit("iterations_run differs: recorded=");
    reveal_strlit("total_births differs: recorded=");
    reveal_strlit("total_deaths differs: recorded=");
    reveal_strlit("final_alive_count differs: recorded=");
    assert("iterations_run"@ + " differs: recorded="@ =~= "iterations_run differs: recorded="@);
    assert("total_births"@ + " differs: recorded="@ =~= "total_births differs: recorded="@);
    assert("total_deaths"@ + " differs: recorded="@ =~= "total_deaths differs: recorded="@);
    assert("final_alive_count"@ + " differs: recorded="@ =~= "final_alive_count differs: recorded="@);
    let e = Seq::<Seq<char>>::empty();
    let lines = replay_lines(record, false, false, s);
    let l1 = count_diff_line("iterations_run"@, res.iterations_run, s.iterations_run);
    let l2 = count_diff_line("total_births"@, res.total_births, s.total_births);
    let l3 = count_diff_line("total_deaths"@, res.total_deaths, s.total_deaths);
    let l4 = count_diff_line("final_alive_count"@, res.final_alive_count, s.final_alive_count);
    let same_status = status_name(s.status) == res.status@;
    if !same_status && s.iterations_run == res.iterations_run && s.total_births == res.total_births
        && s.total_deaths == res.total_deaths && s.final_alive_count == res.final_alive_count {
        assert(lines =~= seq![status_diff_line(res.status@, status_name(s.status))]);
    }
    if same_status {
        assert(lines == e + e + line_if(s.iterations_run != res.iterations_run, l1) + e + line_if(
            s.total_births != res.total_births,
            l2,
        ) + line_if(s.total_deaths != res.total_deaths, l3) + line_if(
            s.final_alive_count != res.final_alive_count,
            l4,
        ));
        if s.iterations_run != res.iterations_run && s.total_births == res.total_births && s.total_deaths
            == res.total_deaths && s.final_alive_count == res.final_alive_count {
            assert(lines =~= seq![l1]);
            assert(l1 =~= "iterations_run differs: recorded="@ + decimal_digits(res.iterations_run as nat)
                + ", recomputed="@ + decimal_digits(s.iterations_run as nat));
        }
        if s.iterations_run == res.iterations_run && s.total_births != res.total_births && s.total_deaths
            == res.total_deaths && s.final_alive_count == res.final_alive_count {
            assert(lines =~= seq![l2]);
            assert(l2 =~= "total_births differs: recorded="@ + decimal_digits(res.total_births as nat)
                + ", recomputed="@ + decimal_digits(s.total_births as nat));
        }
        if s.iterations_run == res.iterations_run && s.total_births == res.total_births && s.total_deaths
            != res.total_deaths && s.final_alive_count == res.final_alive_count {
            assert(lines =~= seq![l3]);
            assert(l3 =~= "total_deaths differs: recorded="@ + decimal_digits(res.total_deaths as nat)
                + ", recomputed="@ + decimal_digits(s.total_deaths as nat));
        }
        if s.iterations_run == res.iterations_run && s.total_births == res.total_births && s.total_deaths
            == res.total_deaths && s.final_alive_count != res.final_alive_count {
            assert(lines =~= seq![l4]);
            assert(l4 =~= "final_alive_count differs: recorded="@ + decimal_digits(
                res.final_alive_count as nat,
            ) + ", recomputed="@ + decimal_digits(s.final_alive_count as nat));
        }
    }
}

fn count_diff(name: &str, recorded: u64, recomputed: u64) -> (r: String)
    ensures
        r@ == count_diff_line(name@, recorded, recomputed),
{
    let mut line = String::new();
    push_str(&mut line, name);
    push_str(&mut line, " differs: recorded=");
    push_chars(&mut line, decimal_string(recorded).as_slice());
    push_str(&mut line, ", recomputed=");
    push_chars(&mut line, decimal_string(recomputed).as_slice());
    proof {
        assert(line@ =~= count_diff_line(name@, recorded, recomputed));
    }
    line
}

fn push_line(lines: &mut Vec<String>, line: String)
    ensures
        texts_of(final(lines)@) == texts_of(old(lines)@).push(line@),
{
    lines.push(line);
    proof {
        assert(texts_of(lines@) =~= texts_of(old(lines)@).push(line@));
    }
}

/// The differences between a record and a re-run of it: the initial board
/// (when `initial_differs`), the final board, and the recorded counts and
/// status against the recomputed ones.
#[verifier::spinoff_prover]
#[verifier::rlimit(100)]
pub fn replay_differences(
    record: &RunRecord,
    initial_differs: bool,
    final_board: &InMemoryBoard,
    recomputed: &RunStatistics,
) -> (r: Vec<String>)
    ensures
        texts_of(r@) == replay_lines(*record, initial_differs, !final_board.same_cells(&record.final_board), *recomputed),
{
    let res = &record.result;
    let mut lines: Vec<String> = Vec::new();
    proof {
        assert(texts_of(lines@) =~= Seq::<Seq<char>>::empty());
    }
    let ghost l0 = texts_of(lines@);
    if initial_differs {
        push_line(&mut lines, INITIAL_BOARD_DIFF.to_string());
    }
    let ghost l1 = texts_of(lines@);
    let final_differs = !same_board(final_board, &record.final_board);
    if final_differs {
        push_line(&mut lines, FINAL_BOARD_DIFF.to_string());
    }
    let ghost l2 = texts_of(lines@);
    if recomputed.iterations_run != res.iterations_run {
        push_line(&mut lines, count_diff("iterations_run", res.iterations_run, recomputed.iterations_run));
    }
    let ghost l3 = texts_of(lines@);
    let name = recomputed.status.as_str();
    if !str_eq(name, res.status.as_str()) {
        let mut line = String::new();
        push_str(&mut line, "status differs: recorded='");
        push_str(&mut line, res.status.as_str());
        push_str(&mut line, "', recomputed='");
        push_str(&mut line, name);
        push_str(&mut line, "'");
        push_line(&mut lines, line);
    }
    let ghost l4 = texts_of(lines@);
    if recomputed.total_births != res.total_births {
        push_line(&mut lines, count_diff("total_births", res.total_births, recomputed.total_births));
    }
    let ghost l5 = texts_of(lines@);
    if recomputed.total_deaths != res.total_deaths {
        push_line(&mut lines, count_diff("total_deaths", res.total_deaths, recomputed.total_deaths));
    }
    let ghost l6 = texts_of(lines@);
    if recomputed.final_alive_count != res.final_alive_count {
        push_line(
            &mut lines,
            count_diff("final_alive_count", res.final_alive_count, recomputed.final_alive_count),
        );
    }
    proof {
        let s = *recomputed;
        let rr = res;
        assert(l1 =~= line_if(initial_differs, INITIAL_BOARD_DIFF@));
        assert(l2 =~= l1 + line_if(final_differs, FINAL_BOARD_DIFF@));
        assert(l3 =~= l2 + line_if(
            s.iterations_run != rr.iterations_run,
            count_diff_line("iterations_run"@, rr.iterations_run, s.iterations_run),
        ));
        assert(l4 =~= l3 + line_if(status_name(s.status) != rr.status@, status_diff_line(rr.status@, status_name(s.status))));
        assert(l5 =~= l4 + line_if(
            s.total_births != rr.total_births,
            count_diff_line("total_births"@, rr.total_births, s.total_births),
        ));
        assert(l6 =~= l5 + line_if(
            s.total_deaths != rr.total_deaths,
            count_diff_line("total_deaths"@, rr.total_deaths, s.total_deaths),
        ));
        assert(texts_of(lines@) =~= l6 + line_if(
            s.final_alive_count != rr.final_alive_count,
            count_diff_line("final_alive_count"@, rr.final_alive_count, s.final_alive_count),
        ));
    }
    lines
}

/// What a replay found.
#[derive(Debug)]
pub enum ReplayOutcome {
    /// Re-running the record gave the recorded boards and figures.
    Match,
    /// The differences found, one line each.
    Mismatch(Vec<String>),
}

/// Why a replay could not be carried out.
#[derive(Debug)]
pub enum ReplayError {
    Read(RunRecordReadError),
    BoardCreation(InMemoryBoardCreationError),
}

/// Whether a `w × h` board can be allocated within `max` bytes.
pub open spec fn board_fits(w: usize, h: usize, max: usize) -> bool {
    allocation_result(w, h) matches Ok(bytes) && bytes <= max
}

/// The error creating a `w × h` board within `max` bytes fails with.
pub open spec fn board_creation_failure(w: usize, h: usize, max: usize, e: InMemoryBoardCreationError) -> bool {
    match allocation_result(w, h) {
        Err(a) => e == a,
        Ok(bytes) => bytes > max && e == InMemoryBoardCreationError::MemoryBudgetExceeded {
            width: w,
            height: h,
            requested_memory_bytes: bytes,
            max_memory_bytes: max,
        },
    }
}

/// A replay of `record` that starts from `b0` (the recorded initial board),
/// runs as `run_result` says to `b`, `stats` and `series`, and reports
/// `outcome`; `regenerated_differs` tells whether the initializer gave back
/// another initial board.
pub open spec fn replay_found(
    record: RunRecord,
    outcome: ReplayOutcome,
    regenerated_differs: bool,
    b0: InMemoryBoard,
    b: InMemoryBoard,
    stats: RunStatistics,
    series: IterationSeries,
) -> bool {
    let lines = replay_lines(record, regenerated_differs, !b.same_cells(&record.final_board), stats);
    &&& b0.same_cells(&record.initial_board)
    &&& (loaded_label(record.config.initial_board_source@) ==> !regenerated_differs)
    &&& run_result(
        &b0,
        &b,
        record.config.max_iterations as nat,
        record.result.status@ == "stable"@,
        record.result.status@ == "cyclic"@,
        stats,
        series,
    )
    &&& match outcome {
        ReplayOutcome::Match => lines.len() == 0,
        ReplayOutcome::Mismatch(ls) => texts_of(ls@) == lines && lines.len() > 0,
    }
}

/// Re-runs a record and compares the outcome with what it recorded. The run
/// starts from the recorded initial board (after checking that the recorded
/// initializer and seed still give it, for a board that was not loaded from
/// a file); it stops on stability or on a cycle only when the record ended
/// that way.
#[verifier::spinoff_prover]
#[verifier::rlimit(60)]
pub fn replay_record(record: &RunRecord) -> (r: Result<ReplayOutcome, ReplayError>)
    requires
        record.initial_board.spec_width() * record.initial_board.spec_height() + 7 <= usize::MAX,
    ensures
        r is Err <==> !loaded_label(record.config.initial_board_source@) && !board_fits(
            record.config.board_size.0,
            record.config.board_size.1,
            record.config.max_board_memory_bytes,
        ),
        match r {
            Err(e) => !loaded_label(record.config.initial_board_source@) && (e matches ReplayError::BoardCreation(c)
                && board_creation_failure(record.config.board_size.0, record.config.board_size.1, record.config.max_board_memory_bytes, c)),
            Ok(outcome) => exists|
                regenerated_differs: bool,
                b0: InMemoryBoard,
                b: InMemoryBoard,
                stats: RunStatistics,
                series: IterationSeries,
            | #[trigger] replay_found(*record, outcome, regenerated_differs, b0, b, stats, series),
        },
{
    let regenerated = match replay_initial_board(record) {
        Ok(b) => b,
        Err(e) => return Err(ReplayError::BoardCreation(e)),
    };
    let initial_differs = !same_board(&regenerated, &record.initial_board);
    let mut board = record.initial_board.clone();
    let ghost b0 = board;
    let stop_on_stability = str_eq(record.result.status.as_str(), "stable");
    let stop_on_cycle = str_eq(record.result.status.as_str(), "cyclic");
    let (recomputed, series) = advance_run(&mut board, record.config.max_iterations, stop_on_stability, stop_on_cycle);
    let lines = replay_differences(record, initial_differs, &board, &recomputed);
    let ghost rd = !regenerated.same_cells(&record.initial_board);
    proof {
        assert(b0.same_cells(&record.initial_board));
        reveal_strlit("stable");
        reveal_strlit("cyclic");
    }
    if lines.len() == 0 {
        let outcome = ReplayOutcome::Match;
        proof {
            assert(replay_found(*record, outcome, rd, b0, board, recomputed, series));
        }
        Ok(outcome)
    } else {
        let ghost ls = lines;
        let outcome = ReplayOutcome::Mismatch(lines);
        proof {
            assert(replay_found(*record, outcome, rd, b0, board, recomputed, series));
        }
        Ok(outcome)
    }
}

/// The record of a finished in-memory run.
pub fn build_run_record(
    run_id: RunId,
    board_size: (usize, usize),
    max_iterations: usize,
    max_board_memory_bytes: usize,
    initial_board_spec: &InitialBoardSpec,
    random_seed: u64,
    continued_from: Option<RunId>,
    stats: RunStatistics,
    wall_time_ms: u64,
    created_at: u64,
    initial_board: InMemoryBoard,
    final_board: InMemoryBoard,
) -> (r: RunRecord)
    ensures
        r.run_id == run_id,
        r.schema_version == crate::persistence::magic::SCHEMA_VERSION,
        r.created_at == created_at,
        r.tool_version@ == TOOL_VERSION@,
        r.config.board_size == board_size,
        r.config.max_iterations == max_iterations,
        r.config.max_board_memory_bytes == max_board_memory_bytes,
        r.config.initial_board_source@ == record_label_text(*initial_board_spec),
        r.config.random_seed == random_seed,
        r.config.updater@ == "in_place_transitional"@,
        r.config.continued_from == continued_from,
        r.result.status@ == status_name(stats.status),
        r.result.iterations_run == stats.iterations_run,
        r.result.wall_time_ms == wall_time_ms,
        r.result.initial_alive_count == stats.initial_alive_count,
        r.result.final_alive_count == stats.final_alive_count,
        r.result.peak_alive_count == stats.peak_alive_count,
        r.result.peak_alive_generation == stats.peak_alive_generation,
        r.result.min_alive_count == stats.min_alive_count,
        r.result.min_alive_generation == stats.min_alive_generation,
        r.result.total_births == stats.total_births,
        r.result.total_deaths == stats.total_deaths,
        r.result.initial_board_hash == grid_hash(initial_board),
        r.result.final_board_hash == grid_hash(final_board),
        r.initial_board == initial_board,
        r.final_board == final_board,
{
    let initial_board_hash = board_grid_hash(&initial_board);
    let final_board_hash = board_grid_hash(&final_board);
    RunRecord {
        run_id,
        schema_version: crate::persistence::magic::SCHEMA_VERSION,
        created_at,
        tool_version: TOOL_VERSION.to_string(),
        config: RunRecordConfig {
            board_size,
            max_iterations,
            max_board_memory_bytes,
            initial_board_source: initial_board_spec.record_label(),
            random_seed,
            updater: "in_place_transitional".to_string(),
            continued_from,
        },
        result: RunRecordResult {
            status: stats.status.as_str().to_string(),
            iterations_run: stats.iterations_run,
            wall_time_ms,
            initial_alive_count: stats.initial_alive_count,
            final_alive_count: stats.final_alive_count,
            peak_alive_count: stats.peak_alive_count,
            peak_alive_generation: stats.peak_alive_generation,
            min_alive_count: stats.min_alive_count,
            min_alive_generation: stats.min_alive_generation,
            total_births: stats.total_births,
            total_deaths: stats.total_deaths,
            initial_board_hash,
            final_board_hash,
        },
        initial_board,
        final_board,
    }
}

/// Why a continuation's generation count cannot be worked out.
#[derive(Debug, Clone, Copy, PartialEq, Eq, Structural)]
pub struct CumulativeMaxTooSmall {
    pub cumulative_max: usize,
    pub source_iterations_run: u64,
}

/// The generations a continuation runs: the given number, or what is left
/// of a cumulative total after the generations the source run already ran.
pub fn continuation_iterations(budget: ContinuationBudget, source_iterations_run: u64) -> (r: Result<
    usize,
    CumulativeMaxTooSmall,
>)
    ensures
        match budget {
            ContinuationBudget::Additional(n) => r == Ok::<usize, CumulativeMaxTooSmall>(n),
            ContinuationBudget::CumulativeMax(m) => if m <= source_iterations_run {
                r == Err::<usize, CumulativeMaxTooSmall>(
                    CumulativeMaxTooSmall { cumulative_max: m, source_iterations_run },
                )
            } else {
                r matches Ok(n) && n == m - source_iterations_run
            },
        },
{
    match budget {
        ContinuationBudget::Additional(n) => Ok(n),
        ContinuationBudget::CumulativeMax(m) => {
            let m_u64 = m as u64;
            if m_u64 <= source_iterations_run {
                Err(CumulativeMaxTooSmall { cumulative_max: m, source_iterations_run })
            } else {
                Ok((m_u64 - source_iterations_run) as usize)
            }
        },
    }
}

/// The board size a run uses: the configured one or the default.
pub open spec fn configured_size(config: &SimulationConfig) -> crate::board::board_size::BoardSize {
    match config.board_size {
        Some(b) => b,
        None => crate::board::board_size::BoardSize {
            width: crate::board::DEFAULT_BOARD_WIDTH,
            height: crate::board::DEFAULT_BOARD_HEIGHT,
        },
    }
}

/// Whether a run goes to the streaming board: only a run seeded by an
/// initializer whose board does not fit the memory budget in memory.
pub fn should_auto_promote_to_streaming(config: &SimulationConfig) -> (r: bool)
    ensures
        r == (config.initial_board is Initializer && !board_fits(
            configured_size(config).width,
            configured_size(config).height,
            config.max_board_memory_bytes,
        )),
{
    match &config.initial_board {
        InitialBoardSpec::Initializer(_) => {},
        _ => return false,
    }
    let size = config.effective_board_size();
    match InMemoryBoard::allocation_bytes(size.width, size.height) {
        Ok(bytes) => bytes > config.max_board_memory_bytes,
        Err(_) => true,
    }
}

/// `s` with its `-` and `:` characters taken out.
pub open spec fn without_separators(s: Seq<char>) -> Seq<char>
    decreases s.len(),
{
    if s.len() == 0 {
        s
    } else {
        let rest = without_separators(s.drop_last());
        if s.last() == '-' || s.last() == ':' {
            rest
        } else {
            rest.push(s.last())
        }
    }
}

/// The file name a run record is saved under in a runs directory: the UTC
/// time of saving without separators, a hyphen, the short run id and
/// `.gol`.
pub open spec fn run_file_name(seconds: nat, id: Seq<u8>) -> Seq<char> {
    without_separators(timestamp_text(seconds)) + seq!['-'] + run_id_text(id).take(8) + ".gol"@
}

/// The UTC time `seconds` after the epoch as `YYYYMMDDTHHMMSSZ`.
pub fn filename_timestamp(seconds: u64) -> (r: String)
    ensures
        r@ == without_separators(timestamp_text(seconds as nat)),
{
    let iso = format_utc(seconds);
    let cs = crate::text::chars_of(iso.as_str());
    let mut out = String::new();
    let mut i: usize = 0;
    while i < cs.len()
        invariant
            cs@ == iso@,
            i <= cs@.len(),
            out@ == without_separators(cs@.take(i as int)),
        decreases cs@.len() - i,
    {
        let c = cs[i];
        proof {
            assert(cs@.take(i + 1int).drop_last() =~= cs@.take(i as int));
        }
        if c != '-' && c != ':' {
            crate::text::push_char(&mut out, c);
        }
        i += 1;
    }
    proof {
        assert(cs@.take(cs@.len() as int) =~= cs@);
    }
    out
}

/// The file name a run record is saved under in a runs directory.
pub fn run_record_file_name(seconds: u64, run_id: &RunId) -> (r: String)
    ensures
        r@ == run_file_name(seconds as nat, run_id.0@),
{
    let mut name = filename_timestamp(seconds);
    crate::text::push_char(&mut name, '-');
    push_str(&mut name, run_id.short().as_str());
    push_str(&mut name, ".gol");
    proof {
        assert(name@ =~= run_file_name(seconds as nat, run_id.0@));
    }
    name
}

/// The line announcing how a run ended early, if it did: the generation a
/// stable run settled at, or the cycle a cyclic run found.
pub open spec fn terminal_message(s: RunStatistics) -> Option<Seq<char>> {
    match s.status {
        RunStatus::Stable => Some("Stable state reached at generation "@ + decimal_digits(s.iterations_run as nat)),
        RunStatus::Cyclic => match s.cycle {
            Some(c) => Some(
                "Cycle detected at generation "@ + decimal_digits(c.detected_generation as nat) + ": period "@
                    + decimal_digits(c.period as nat) + " (first seen at generation "@ + decimal_digits(
                    c.start_generation as nat,
                ) + ")"@,
            ),
            None => None,
        },
        _ => None,
    }
}

pub fn terminal_status_message(stats: &RunStatistics) -> (r: Option<String>)
    ensures
        match r {
            Some(m) => terminal_message(*stats) == Some(m@),
            None => terminal_message(*stats) is None,
        },
{
    match stats.status {
        RunStatus::Stable => {
            let mut m = String::new();
            push_str(&mut m, "Stable state reached at generation ");
            push_chars(&mut m, decimal_string(stats.iterations_run).as_slice());
            Some(m)
        },
        RunStatus::Cyclic => match stats.cycle {
            Some(c) => {
                let mut m = String::new();
                push_str(&mut m, "Cycle detected at generation ");
                push_chars(&mut m, decimal_string(c.detected_generation).as_slice());
                push_str(&mut m, ": period ");
                push_chars(&mut m, decimal_string(c.period).as_slice());
                push_str(&mut m, " (first seen at generation ");
                push_chars(&mut m, decimal_string(c.start_generation).as_slice());
                push_str(&mut m, ")");
                proof {
                    assert(m@ =~= terminal_message(*stats)->0);
                }
                Some(m)
            },
            None => None,
        },
        _ => None,
    }
}

} // verus!
