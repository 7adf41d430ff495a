use vstd::prelude::*;

use crate::board::grid::{before, in_bounds};
use crate::board::{BoardEditor, CellCoordinate, CellState};

use super::board_initializer::BoardInitializer;

verus! {

pub const DEFAULT_ALIVE_CELLS_PER_THOUSAND: u16 = 500;

pub const MAX_ALIVE_CELLS_PER_THOUSAND: u16 = 1000;

pub const SPLITMIX_INCREMENT: u64 = 0x9E37_79B9_7F4A_7C15;

/// The SplitMix64 state after `k` steps from `seed`.
pub open spec fn rng_state(seed: u64, k: nat) -> u64
    decreases k,
{
    if k == 0 {
        seed
    } else {
        vstd::wrapping::u64_specs::wrapping_add(rng_state(seed, (k - 1) as nat), SPLITMIX_INCREMENT)
    }
}

/// The SplitMix64 output for a state.
pub open spec fn splitmix_mix(z: u64) -> u64 {
    let a = vstd::wrapping::u64_specs::wrapping_mul(z ^ (z >> 30u64), 0xBF58_476D_1CE4_E5B9u64);
    let b = vstd::wrapping::u64_specs::wrapping_mul(a ^ (a >> 27u64), 0x94D0_49BB_1331_11EBu64);
    b ^ (b >> 31u64)
}

/// The `k`-th draw (from 1) as alive cells per thousand.
pub open spec fn draw_per_thousand(seed: u64, k: nat) -> u64 {
    splitmix_mix(rng_state(seed, k)) % 1000
}

/// Seeded pseudo-random initializer for reproducible starting boards.
///
/// Every in-bounds cell is written, row by row, `Alive` when its draw is
/// below the density (alive cells per thousand) and `Dead` otherwise.
#[derive(Debug, Clone, Copy, PartialEq, Eq, Structural)]
pub struct RandomBoardInitializer {
    seed: u64,
    alive_cells_per_thousand: u16,
}

#[derive(Debug, Clone, Copy, PartialEq, Eq, Structural)]
pub enum RandomBoardInitializerError {
    AliveCellsPerThousandTooLarge { value: u16 },
}

impl RandomBoardInitializer {
    pub closed spec fn spec_seed(&self) -> u64 {
        self.seed
    }

    pub closed spec fn spec_density(&self) -> u16 {
        self.alive_cells_per_thousand
    }

    /// An initializer with the default density.
    pub fn new(seed: u64) -> (r: Self)
        ensures
            r.spec_seed() == seed,
            r.spec_density() == DEFAULT_ALIVE_CELLS_PER_THOUSAND,
    {
        Self { seed, alive_cells_per_thousand: DEFAULT_ALIVE_CELLS_PER_THOUSAND }
    }

    /// An initializer with the given density, which must be at most 1000.
    pub fn with_alive_cells_per_thousand(seed: u64, alive_cells_per_thousand: u16) -> (r: Result<
        Self,
        RandomBoardInitializerError,
    >)
        ensures
            alive_cells_per_thousand > MAX_ALIVE_CELLS_PER_THOUSAND ==> r == Err::<
                Self,
                RandomBoardInitializerError,
            >(RandomBoardInitializerError::AliveCellsPerThousandTooLarge { value: alive_cells_per_thousand }),
            alive_cells_per_thousand <= MAX_ALIVE_CELLS_PER_THOUSAND ==> (r matches Ok(i) && i.spec_seed() == seed
                && i.spec_density() == alive_cells_per_thousand),
    {
        if alive_cells_per_thousand > MAX_ALIVE_CELLS_PER_THOUSAND {
            return Err(
                RandomBoardInitializerError::AliveCellsPerThousandTooLarge {
                    value: alive_cells_per_thousand,
                },
            );
        }
        Ok(Self { seed, alive_cells_per_thousand })
    }

    pub fn seed(&self) -> (r: u64)
        ensures
            r == self.spec_seed(),
    {
        self.seed
    }

    pub fn alive_cells_per_thousand(&self) -> (r: u16)
        ensures
            r == self.spec_density(),
    {
        self.alive_cells_per_thousand
    }
}

pub(crate) struct SplitMix64 {
    pub(crate) state: u64,
}

impl SplitMix64 {
    fn next_u64(&mut self) -> (r: u64)
        ensures
            final(self).state == vstd::wrapping::u64_specs::wrapping_add(old(self).state, SPLITMIX_INCREMENT),
            r == splitmix_mix(final(self).state),
    {
        self.state = self.state.wrapping_add(SPLITMIX_INCREMENT);
        let mut value = self.state;
        value = (value ^ (value >> 30)).wrapping_mul(0xBF58_476D_1CE4_E5B9);
        value = (value ^ (value >> 27)).wrapping_mul(0x94D0_49BB_1331_11EB);
        value ^ (value >> 31)
    }

    pub(crate) fn next_per_thousand(&mut self) -> (r: u16)
        ensures
            final(self).state == vstd::wrapping::u64_specs::wrapping_add(old(self).state, SPLITMIX_INCREMENT),
            r == splitmix_mix(final(self).state) % 1000,
    {
        (self.next_u64() % 1000) as u16
    }
}

impl BoardInitializer for RandomBoardInitializer {
    open spec fn initialized_cell(&self, w: nat, h: nat, x: int, y: int, prev: CellState) -> CellState {
        if draw_per_thousand(self.spec_seed(), (y * w + x + 1) as nat) < self.spec_density() {
            CellState::Alive
        } else {
            CellState::Dead
        }
    }

    fn initialize<B: BoardEditor + ?Sized>(&self, board: &mut B) -> (r: Result<(), B::Error>) {
        let mut rng = SplitMix64 { state: self.seed };
        let width = board.width();
        let height = board.height();
        let ghost mut k: nat = 0;
        let mut y: usize = 0;
        while y < height
            invariant
                width == old(board).view_width(),
                height == old(board).view_height(),
                board.view_width() == width,
                board.view_height() == height,
                board.is_infallible() == old(board).is_infallible(),
                y <= height,
                k == y * width,
                rng.state == rng_state(self.seed, k),
                forall|px: int, py: int|
                    in_bounds(width as int, height as int, px, py) ==> #[trigger] board.view_cell(px, py) == if py < y {
                        self.initialized_cell(width as nat, height as nat, px, py, old(board).view_cell(px, py))
                    } else {
                        old(board).view_cell(px, py)
                    },
            decreases height - y,
        {
            let mut x: usize = 0;
            while x < width
                invariant
                    width == old(board).view_width(),
                    height == old(board).view_height(),
                    board.view_width() == width,
                    board.view_height() == height,
                    board.is_infallible() == old(board).is_infallible(),
                    y < height,
                    x <= width,
                    k == y * width + x,
                    rng.state == rng_state(self.seed, k),
                    forall|px: int, py: int|
                        in_bounds(width as int, height as int, px, py) ==> #[trigger] board.view_cell(px, py) == if before(
                            px,
                            py,
                            x as int,
                            y as int,
                        ) {
                            self.initialized_cell(width as nat, height as nat, px, py, old(board).view_cell(px, py))
                        } else {
                            old(board).view_cell(px, py)
                        },
                decreases width - x,
            {
                let draw = rng.next_per_thousand();
                proof {
                    k = k + 1;
                }
                let state = if draw < self.alive_cells_per_thousand {
                    CellState::Alive
                } else {
                    CellState::Dead
                };
                match board.set_cell(CellCoordinate::new(x, y), state) {
                    Ok(()) => {},
                    Err(e) => {
                        return Err(e);
                    },
                }
                x += 1;
            }
            proof {
                assert(y * width + width == (y + 1) * width) by (nonlinear_arith);
            }
            y += 1;
        }
        Ok(())
    }
}

} // verus!
