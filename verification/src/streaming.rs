//! Seeding a board that is too large to hold: the initial board is made
//! one row at a time, top to bottom, so that each row can be written to
//! the scratch file as it comes.
use vstd::prelude::*;

use crate::algorithms::centered_blinker_initializer::blinker_cell;
use crate::algorithms::demo_board_initializer::{demo_cell_list, demo_cells, demo_hit, demo_offset};
use crate::algorithms::random_board_initializer::{
    draw_per_thousand, rng_state, SplitMix64, DEFAULT_ALIVE_CELLS_PER_THOUSAND,
};
use crate::board::CellState;
use crate::config::values::InitialBoardSource;
use crate::simulation::seeded_cell;
use crate::stats::advance_outcome::AdvanceOutcome;
use crate::stats::run_statistics::{terminal_status_for_outcome, RunStatisticsCollector, RunStatus};

verus! {

/// Makes the rows of a seeded `width` x `height` board, top to bottom.
pub struct RowSeeder {
    source: InitialBoardSource,
    seed: u64,
    width: usize,
    height: usize,
    next_row: usize,
    rng: SplitMix64,
}

impl RowSeeder {
    pub closed spec fn spec_source(&self) -> InitialBoardSource {
        self.source
    }

    pub closed spec fn spec_seed(&self) -> u64 {
        self.seed
    }

    pub closed spec fn spec_width(&self) -> nat {
        self.width as nat
    }

    pub closed spec fn spec_height(&self) -> nat {
        self.height as nat
    }

    /// The row the next call makes.
    pub closed spec fn spec_next_row(&self) -> nat {
        self.next_row as nat
    }

    pub closed spec fn wf(&self) -> bool {
        &&& self.next_row <= self.height
        &&& self.rng.state == rng_state(self.seed, (self.next_row * self.width) as nat)
    }

    /// A seeder at the top row of a board seeded from `source` with `seed`.
    pub fn new(source: InitialBoardSource, seed: u64, width: usize, height: usize) -> (r: Self)
        ensures
            r.wf(),
            r.spec_source() == source,
            r.spec_seed() == seed,
            r.spec_width() == width,
            r.spec_height() == height,
            r.spec_next_row() == 0,
    {
        RowSeeder { source, seed, width, height, next_row: 0, rng: SplitMix64 { state: seed } }
    }

    /// The next row of the seeded board: each cell as seeding a board of
    /// dead cells makes it.
    pub fn next_row(&mut self) -> (r: Vec<CellState>)
        requires
            old(self).wf(),
            old(self).spec_next_row() < old(self).spec_height(),
        ensures
            final(self).wf(),
            final(self).spec_source() == old(self).spec_source(),
            final(self).spec_seed() == old(self).spec_seed(),
            final(self).spec_width() == old(self).spec_width(),
            final(self).spec_height() == old(self).spec_height(),
            final(self).spec_next_row() == old(self).spec_next_row() + 1,
            r@.len() == old(self).spec_width(),
            forall|x: int|
                0 <= x < r@.len() ==> #[trigger] r@[x] == seeded_cell(
                    old(self).spec_source(),
                    old(self).spec_seed(),
                    old(self).spec_width(),
                    old(self).spec_height(),
                    x,
                    old(self).spec_next_row() as int,
                    CellState::Dead,
                ),
    {
        let w = self.width;
        let h = self.height;
        let y = self.next_row;
        let ghost row = y as int;
        let ghost source = self.source;
        let ghost seed = self.seed;
        let mut out: Vec<CellState> = Vec::new();
        let mut x: usize = 0;
        while x < w
            invariant
                x <= w,
                w == self.width,
                h == self.height,
                y == self.next_row,
                row == y as int,
                y < h,
                source == self.source,
                seed == self.seed,
                self.source == old(self).source,
                self.seed == old(self).seed,
                self.width == old(self).width,
                self.height == old(self).height,
                self.next_row == old(self).next_row,
                self.rng.state == rng_state(seed, (y * w + x) as nat),
                out@.len() == x,
                forall|i: int|
                    0 <= i < x ==> #[trigger] out@[i] == match source {
                        InitialBoardSource::Random => seeded_cell(
                            source,
                            seed,
                            w as nat,
                            h as nat,
                            i,
                            row,
                            CellState::Dead,
                        ),
                        InitialBoardSource::Alive => CellState::Alive,
                        _ => CellState::Dead,
                    },
            decreases w - x,
        {
            let draw = self.rng.next_per_thousand();
            let ghost k = (y * w + x + 1) as nat;
            let cell = match self.source {
                InitialBoardSource::Random => {
                    if draw < DEFAULT_ALIVE_CELLS_PER_THOUSAND {
                        CellState::Alive
                    } else {
                        CellState::Dead
                    }
                },
                InitialBoardSource::Alive => CellState::Alive,
                _ => CellState::Dead,
            };
            proof {
                assert(self.rng.state == rng_state(seed, k));
                assert(draw == draw_per_thousand(seed, k));
                assert((row * w + x + 1) as nat == k);
            }
            out.push(cell);
            x = x + 1;
        }
        proof {
            assert(y * w + w == (y + 1) * w) by (nonlinear_arith);
        }
        match self.source {
            InitialBoardSource::Blinker => {
                let mut i: usize = 0;
                while i < w
                    invariant
                        i <= w,
                        w == self.width,
                        h == self.height,
                        y < h,
                        row == y as int,
                        out@.len() == w,
                        forall|j: int|
                            0 <= j < w ==> #[trigger] out@[j] == if j < i && blinker_cell(w as nat, h as nat, j, row) {
                                CellState::Alive
                            } else {
                                CellState::Dead
                            },
                    decreases w - i,
                {
                    if y == h / 2 && i + 1 >= w / 2 && i <= w / 2 + 1 {
                        out.set(i, CellState::Alive);
                    }
                    i = i + 1;
                }
            },
            InitialBoardSource::Demo => {
                let offset_x = if w > 10 { (w - 10) / 2 } else { 0 };
                let offset_y = if h > 10 { (h - 10) / 2 } else { 0 };
                let cells = demo_cell_list();
                let mut k: usize = 0;
                while k < cells.len()
                    invariant
                        k <= cells@.len(),
                        cells@ == demo_cells(),
                        offset_x == demo_offset(w as nat),
                        offset_y == demo_offset(h as nat),
                        offset_x <= w,
                        offset_y <= h,
                        row == y as int,
                        out@.len() == w,
                        forall|j: int|
                            0 <= j < w ==> #[trigger] out@[j] == if demo_hit(
                                k as nat,
                                offset_x as int,
                                offset_y as int,
                                j,
                                row,
                            ) {
                                CellState::Alive
                            } else {
                                CellState::Dead
                            },
                    decreases cells@.len() - k,
                {
                    let (cx, cy) = cells[k];
                    proof {
                        assert(cx <= 9 && cy <= 9);
                    }
                    if offset_y + cy == y && offset_x + cx < w {
                        out.set(offset_x + cx, CellState::Alive);
                    }
                    k = k + 1;
                }
            },
            _ => {},
        }
        self.next_row = y + 1;
        out
    }
}

/// Takes the outcome of one more generation of a streaming run. It counts
/// toward the statistics unless it changed nothing, which only confirms
/// that the board was already stable; the result is the status the
/// generation ends the run with, if any.
pub fn take_streaming_outcome(collector: &mut RunStatisticsCollector, outcome: AdvanceOutcome) -> (r: Option<RunStatus>)
    requires
        old(collector).iterations() < u64::MAX,
        old(collector).births() + outcome.births <= u64::MAX,
        old(collector).deaths() + outcome.deaths <= u64::MAX,
    ensures
        r == if outcome.alive_count == 0 {
            Some(RunStatus::Extinct)
        } else if outcome.no_change() {
            Some(RunStatus::Stable)
        } else {
            None
        },
        outcome.no_change() ==> *final(collector) == *old(collector),
        !outcome.no_change() ==> {
            &&& final(collector).iterations() == old(collector).iterations() + 1
            &&& final(collector).births() == old(collector).births() + outcome.births
            &&& final(collector).deaths() == old(collector).deaths() + outcome.deaths
            &&& final(collector).initial() == old(collector).initial()
            &&& final(collector).last_alive() == outcome.alive_count
            &&& final(collector).alive_seq() == old(collector).alive_seq().push(outcome.alive_count)
            &&& final(collector).births_seq() == old(collector).births_seq().push(outcome.births)
            &&& final(collector).deaths_seq() == old(collector).deaths_seq().push(outcome.deaths)
        },
{
    let status = terminal_status_for_outcome(outcome);
    if !outcome.is_stable() {
        collector.record(outcome);
    }
    status
}

/// Whether counting `outcome` would take the run past what its statistics
/// can hold: a generation count or a birth or death total beyond 64 bits.
/// A streaming run stops before such a generation, as a run in memory does.
pub fn outcome_overflows(collector: &RunStatisticsCollector, outcome: AdvanceOutcome) -> (r: bool)
    ensures
        r == (collector.iterations() == u64::MAX || collector.births() + outcome.births > u64::MAX
            || collector.deaths() + outcome.deaths > u64::MAX),
{
    collector.iterations_run() == u64::MAX || collector.total_births() > u64::MAX - outcome.births
        || collector.total_deaths() > u64::MAX - outcome.deaths
}

/// Number of cells of `row` that are alive.
pub open spec fn alive_in_row(row: Seq<CellState>) -> nat
    decreases row.len(),
{
    if row.len() == 0 {
        0
    } else {
        alive_in_row(row.drop_last()) + if row.last() == CellState::Alive {
            1nat
        } else {
            0nat
        }
    }
}

/// `alive` plus the live cells of `row`, or `None` when the sum does not
/// fit in 64 bits.
pub fn add_alive_in_row(alive: u64, row: &[CellState]) -> (r: Option<u64>)
    ensures
        r == if alive + alive_in_row(row@) <= u64::MAX {
            Some((alive + alive_in_row(row@)) as u64)
        } else {
            None::<u64>
        },
{
    let mut n: usize = 0;
    let mut i: usize = 0;
    while i < row.len()
        invariant
            i <= row@.len(),
            n == alive_in_row(row@.take(i as int)),
            n <= i,
        decreases row@.len() - i,
    {
        proof {
            assert(row@.take(i + 1).drop_last() =~= row@.take(i as int));
        }
        if row[i] == CellState::Alive {
            n = n + 1;
        }
        i += 1;
    }
    proof {
        assert(row@.take(i as int) =~= row@);
    }
    alive.checked_add(n as u64)
}

} // verus!
