use vstd::prelude::*;

use crate::board::{BoardEditor, CellState};

use super::board_initializer::BoardInitializer;

verus! {

/// Seeds every in-bounds cell as alive.
#[derive(Debug, Clone, Copy, Default, PartialEq, Eq, Structural)]
pub struct FullyAliveInitializer;

impl BoardInitializer for FullyAliveInitializer {
    open spec fn initialized_cell(&self, w: nat, h: nat, x: int, y: int, prev: CellState) -> CellState {
        CellState::Alive
    }

    fn initialize<B: BoardEditor + ?Sized>(&self, board: &mut B) -> (r: Result<(), B::Error>) {
        board.fill_cells(CellState::Alive)
    }
}

} // verus!
