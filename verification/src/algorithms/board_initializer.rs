use vstd::prelude::*;

use crate::board::grid::in_bounds;
use crate::board::{BoardEditor, CellState};

verus! {

/// Algorithms that give a board its starting state.
///
/// An initializer decides, for each cell of a `w` x `h` board, the state the
/// cell has afterwards, possibly keeping the state it had.
pub trait BoardInitializer {
    /// The state of cell `(x, y)` of a `w` x `h` board after initialization,
    /// `prev` being its state before.
    spec fn initialized_cell(&self, w: nat, h: nat, x: int, y: int, prev: CellState) -> CellState;

    fn initialize<B: BoardEditor + ?Sized>(&self, board: &mut B) -> (r: Result<(), B::Error>)
        ensures
            final(board).view_width() == old(board).view_width(),
            final(board).view_height() == old(board).view_height(),
            old(board).is_infallible() ==> r is Ok,
            r is Ok ==> forall|x: int, y: int|
                in_bounds(old(board).view_width() as int, old(board).view_height() as int, x, y)
                    ==> #[trigger] final(board).view_cell(x, y) == self.initialized_cell(
                    old(board).view_width(),
                    old(board).view_height(),
                    x,
                    y,
                    old(board).view_cell(x, y),
                ),
    ;
}

} // verus!
