use vstd::prelude::*;

use std::convert::Infallible;

use super::cell_state::CellState;
use super::coordinate::CellCoordinate;
use super::editor::{advanced, default_advance_with_rule, BoardEditor};
use super::grid::in_bounds;
use super::view::BoardView;
use crate::algorithms::cell_rule::CellRule;
use crate::stats::advance_outcome::AdvanceOutcome;

verus! {


/// Number of bytes one cell occupies in memory.
pub open spec fn cell_bytes() -> nat {
    vstd::layout::size_of::<CellState>()
}

/// In-memory board with finite boundaries, stored row-major in one buffer.
#[derive(Debug, PartialEq, Eq)]
pub struct InMemoryBoard {
    width: usize,
    height: usize,
    cells: Vec<CellState>,
}

/// Errors when a board's allocation would not fit.
#[derive(Debug, Clone, PartialEq, Eq, Structural)]
pub enum InMemoryBoardCreationError {
    CellCountOverflow { width: usize, height: usize },
    AllocationSizeOverflow { width: usize, height: usize, cell_count: usize, cell_size: usize },
    AllocationAddressSpaceExceeded {
        width: usize,
        height: usize,
        requested_memory_bytes: usize,
        max_addressable_bytes: usize,
    },
    MemoryBudgetExceeded {
        width: usize,
        height: usize,
        requested_memory_bytes: usize,
        max_memory_bytes: usize,
    },
}

/// The outcome of sizing the cell buffer of a `width × height` board.
pub open spec fn allocation_result(width: usize, height: usize) -> Result<usize, InMemoryBoardCreationError> {
    let cells = width * height;
    if cells > usize::MAX {
        Err(InMemoryBoardCreationError::CellCountOverflow { width, height })
    } else if cells * cell_bytes() > usize::MAX {
        Err(
            InMemoryBoardCreationError::AllocationSizeOverflow {
                width,
                height,
                cell_count: cells as usize,
                cell_size: cell_bytes() as usize,
            },
        )
    } else if cells * cell_bytes() > isize::MAX {
        Err(
            InMemoryBoardCreationError::AllocationAddressSpaceExceeded {
                width,
                height,
                requested_memory_bytes: (cells * cell_bytes()) as usize,
                max_addressable_bytes: isize::MAX as usize,
            },
        )
    } else {
        Ok((cells * cell_bytes()) as usize)
    }
}

impl InMemoryBoard {
    #[verifier::type_invariant]
    spec fn wf(self) -> bool {
        self.cells@.len() == self.width * self.height
    }

    /// The state of on-board cell `(x, y)`.
    pub closed spec fn cell(&self, x: int, y: int) -> CellState {
        self.cells@[y * self.width + x]
    }

    /// Same dimensions and the same state in every on-board cell.
    pub open spec fn same_cells(&self, other: &Self) -> bool {
        &&& self.spec_width() == other.spec_width()
        &&& self.spec_height() == other.spec_height()
        &&& forall|x: int, y: int|
            in_bounds(self.spec_width() as int, self.spec_height() as int, x, y) ==> #[trigger] self.cell(x, y)
                == other.cell(x, y)
    }

    pub closed spec fn spec_width(&self) -> nat {
        self.width as nat
    }

    pub closed spec fn spec_height(&self) -> nat {
        self.height as nat
    }

    /// Creates a board with all cells dead.
    pub fn new(width: usize, height: usize) -> (r: Self)
        requires
            width * height <= usize::MAX,
        ensures
            r.spec_width() == width,
            r.spec_height() == height,
            forall|x: int, y: int| in_bounds(width as int, height as int, x, y) ==> #[trigger] r.cell(x, y) == CellState::Dead,
    {
        let cell_count = width * height;
        let mut cells: Vec<CellState> = Vec::with_capacity(cell_count);
        let mut i: usize = 0;
        while i < cell_count
            invariant
                i <= cell_count,
                cells@.len() == i,
                forall|k: int| 0 <= k < i ==> #[trigger] cells@[k] == CellState::Dead,
            decreases cell_count - i,
        {
            cells.push(CellState::Dead);
            i += 1;
        }
        let r = Self { width, height, cells };
        proof {
            assert forall|x: int, y: int| in_bounds(width as int, height as int, x, y) implies #[trigger] r.cell(x, y)
                == CellState::Dead by {
                lemma_index_in_grid(width as int, height as int, x, y);
            }
        }
        r
    }

    /// Creates a board if its allocation fits within `max_memory_bytes`.
    pub fn try_new(width: usize, height: usize, max_memory_bytes: usize) -> (r: Result<Self, InMemoryBoardCreationError>)
        ensures
            match allocation_result(width, height) {
                Err(e) => r == Err::<Self, _>(e),
                Ok(bytes) => if bytes > max_memory_bytes {
                    r == Err::<Self, _>(
                        InMemoryBoardCreationError::MemoryBudgetExceeded {
                            width,
                            height,
                            requested_memory_bytes: bytes,
                            max_memory_bytes,
                        },
                    )
                } else {
                    r matches Ok(b) && b.spec_width() == width && b.spec_height() == height && forall|
                        x: int,
                        y: int,
                    | in_bounds(width as int, height as int, x, y) ==> #[trigger] b.cell(x, y) == CellState::Dead
                },
            },
    {
        let requested_memory_bytes = match checked_allocation_bytes(width, height) {
            Ok(b) => b,
            Err(e) => return Err(e),
        };
        if requested_memory_bytes > max_memory_bytes {
            return Err(
                InMemoryBoardCreationError::MemoryBudgetExceeded {
                    width,
                    height,
                    requested_memory_bytes,
                    max_memory_bytes,
                },
            );
        }
        Ok(Self::new(width, height))
    }

    /// Returns the bytes needed for the cell buffer of a `width × height` board.
    pub fn allocation_bytes(width: usize, height: usize) -> (r: Result<usize, InMemoryBoardCreationError>)
        ensures
            r == allocation_result(width, height),
    {
        checked_allocation_bytes(width, height)
    }

    pub fn width(&self) -> (r: usize)
        ensures
            r == self.spec_width(),
    {
        self.width
    }

    /// Number of cells, `width × height`.
    pub fn cell_count(&self) -> (r: usize)
        ensures
            r == self.spec_width() * self.spec_height(),
    {
        proof {
            use_type_invariant(self);
            assert(self.cells@.len() == self.cells.len());
        }
        self.width * self.height
    }

    pub fn height(&self) -> (r: usize)
        ensures
            r == self.spec_height(),
    {
        self.height
    }

    /// Gets the state of a cell; `Dead` for out-of-bounds coordinates.
    pub fn get(&self, x: usize, y: usize) -> (r: CellState)
        ensures
            r == if in_bounds(self.spec_width() as int, self.spec_height() as int, x as int, y as int) {
                self.cell(x as int, y as int)
            } else {
                CellState::Dead
            },
    {
        proof {
            use_type_invariant(self);
            assert(self.cells@.len() == self.cells.len());
        }
        if x < self.width && y < self.height {
            proof {
                lemma_index_in_grid(self.width as int, self.height as int, x as int, y as int);
            }
            self.cells[y * self.width + x]
        } else {
            CellState::Dead
        }
    }

    /// Sets the state of a cell; out-of-bounds coordinates are ignored.
    pub fn set(&mut self, x: usize, y: usize, state: CellState)
        ensures
            final(self).spec_width() == old(self).spec_width(),
            final(self).spec_height() == old(self).spec_height(),
            forall|px: int, py: int|
                in_bounds(old(self).spec_width() as int, old(self).spec_height() as int, px, py)
                    ==> #[trigger] final(self).cell(px, py) == if px == x && py == y {
                    state
                } else {
                    old(self).cell(px, py)
                },
    {
        proof {
            use_type_invariant(&*self);
            assert(self.cells@.len() == self.cells.len());
        }
        if x < self.width && y < self.height {
            proof {
                lemma_index_in_grid(self.width as int, self.height as int, x as int, y as int);
            }
            let idx = y * self.width + x;
            let mut taken = InMemoryBoard { width: 0, height: 0, cells: Vec::new() };
            std::mem::swap(self, &mut taken);
            let InMemoryBoard { width, height, mut cells } = taken;
            cells.set(idx, state);
            *self = InMemoryBoard { width, height, cells };
            proof {
                assert forall|px: int, py: int|
                    in_bounds(old(self).spec_width() as int, old(self).spec_height() as int, px, py) implies #[trigger] self.cell(
                    px,
                    py,
                ) == if px == x && py == y {
                    state
                } else {
                    old(self).cell(px, py)
                } by {
                    lemma_index_in_grid(self.width as int, self.height as int, px, py);
                    if !(px == x && py == y) {
                        lemma_index_distinct(self.width as int, px, py, x as int, y as int);
                    }
                }
            }
        }
    }

    /// Advances the board by one Conway generation.
    pub fn advance_generation(&mut self)
        ensures
            exists|outcome: AdvanceOutcome|
                advanced(old(self), final(self), &crate::algorithms::in_place_transitional_updater::InPlaceTransitionalUpdater, outcome),
    {
        proof {
            use_type_invariant(&*self);
            assert(self.cells@.len() == self.cells.len());
            lemma_area_fits_u64(self.width as int, self.height as int);
        }
        let rule = crate::algorithms::in_place_transitional_updater::InPlaceTransitionalUpdater;
        match default_advance_with_rule(self, &rule) {
            Ok(_) => {},
            Err(_) => {},
        }
    }
}

/// `y * w + x` addresses a cell inside the `w × h` buffer.
pub proof fn lemma_index_in_grid(w: int, h: int, x: int, y: int)
    requires
        0 <= x < w,
        0 <= y < h,
    ensures
        0 <= y * w + x < w * h,
{
    assert(0 <= y * w) by (nonlinear_arith)
        requires
            0 <= y,
            0 <= w,
    ;
    assert(y * w + x < w * h) by (nonlinear_arith)
        requires
            0 <= x < w,
            0 <= y < h,
    ;
}

/// Distinct on-board cells have distinct buffer indices.
pub proof fn lemma_index_distinct(w: int, x1: int, y1: int, x2: int, y2: int)
    requires
        0 <= x1 < w,
        0 <= x2 < w,
        !(x1 == x2 && y1 == y2),
    ensures
        y1 * w + x1 != y2 * w + x2,
{
    if y1 == y2 {
    } else if y1 < y2 {
        assert(y1 * w + x1 < y2 * w + x2) by (nonlinear_arith)
            requires
                0 <= x1 < w,
                0 <= x2,
                y1 < y2,
        ;
    } else {
        assert(y2 * w + x2 < y1 * w + x1) by (nonlinear_arith)
            requires
                0 <= x2 < w,
                0 <= x1,
                y2 < y1,
        ;
    }
}

proof fn lemma_area_fits_u64(w: int, h: int)
    requires
        w * h <= usize::MAX,
    ensures
        w * h <= u64::MAX,
{
}

fn checked_cell_count(width: usize, height: usize) -> (r: Result<usize, InMemoryBoardCreationError>)
    ensures
        r == if width * height > usize::MAX {
            Err(InMemoryBoardCreationError::CellCountOverflow { width, height })
        } else {
            Ok::<usize, InMemoryBoardCreationError>((width * height) as usize)
        },
{
    match width.checked_mul(height) {
        Some(n) => Ok(n),
        None => Err(InMemoryBoardCreationError::CellCountOverflow { width, height }),
    }
}

fn checked_allocation_bytes(width: usize, height: usize) -> (r: Result<usize, InMemoryBoardCreationError>)
    ensures
        r == allocation_result(width, height),
{
    let cell_count = match checked_cell_count(width, height) {
        Ok(n) => n,
        Err(e) => return Err(e),
    };
    let cell_size = core::mem::size_of::<CellState>();
    let requested_memory_bytes = match cell_count.checked_mul(cell_size) {
        Some(b) => b,
        None => {
            return Err(
                InMemoryBoardCreationError::AllocationSizeOverflow { width, height, cell_count, cell_size },
            )
        },
    };
    let max_addressable_bytes = isize::MAX as usize;
    if requested_memory_bytes > max_addressable_bytes {
        return Err(
            InMemoryBoardCreationError::AllocationAddressSpaceExceeded {
                width,
                height,
                requested_memory_bytes,
                max_addressable_bytes,
            },
        );
    }
    Ok(requested_memory_bytes)
}

impl Clone for InMemoryBoard {
    fn clone(&self) -> (r: Self)
        ensures
            r.same_cells(self),
    {
        proof {
            use_type_invariant(self);
        }
        let cells = self.cells.clone();
        proof {
            assert(cells@ =~= self.cells@);
        }
        InMemoryBoard { width: self.width, height: self.height, cells }
    }
}

impl BoardView for InMemoryBoard {
    type Error = Infallible;

    open spec fn view_width(&self) -> nat {
        self.spec_width()
    }

    open spec fn view_height(&self) -> nat {
        self.spec_height()
    }

    open spec fn view_cell(&self, x: int, y: int) -> CellState {
        self.cell(x, y)
    }

    open spec fn is_infallible(&self) -> bool {
        true
    }

    fn width(&self) -> (r: usize) {
        self.width
    }

    fn height(&self) -> (r: usize) {
        self.height
    }

    fn cell_state(&self, coordinate: CellCoordinate) -> (r: Result<CellState, Self::Error>) {
        Ok(self.get(coordinate.x, coordinate.y))
    }
}

impl BoardEditor for InMemoryBoard {
    fn set_cell(&mut self, coordinate: CellCoordinate, state: CellState) -> (r: Result<(), Self::Error>) {
        self.set(coordinate.x, coordinate.y, state);
        proof {
            assert forall|x: int, y: int|
                in_bounds(old(self).view_width() as int, old(self).view_height() as int, x, y) implies #[trigger] self.view_cell(
                x,
                y,
            ) == if x == coordinate.x && y == coordinate.y {
                state
            } else {
                old(self).view_cell(x, y)
            } by {
            }
        }
        Ok(())
    }
}

} // verus!
