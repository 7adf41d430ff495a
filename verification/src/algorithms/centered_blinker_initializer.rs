use vstd::prelude::*;

use crate::board::grid::in_bounds;
use crate::board::{BoardEditor, CellCoordinate, CellState};

use super::board_initializer::BoardInitializer;

verus! {

/// Seeds a horizontal three-cell blinker centered on the board when possible.
#[derive(Debug, Clone, Copy, Default, PartialEq, Eq, Structural)]
pub struct CenteredBlinkerInitializer;

/// Whether `(x, y)` is one of the blinker's cells on a `w` x `h` board: the
/// middle row, from one left of the middle column to one right of it.
pub open spec fn blinker_cell(w: nat, h: nat, x: int, y: int) -> bool {
    w > 0 && h > 0 && y == h / 2 && (w / 2) - 1 <= x <= (w / 2) + 1
}

impl BoardInitializer for CenteredBlinkerInitializer {
    open spec fn initialized_cell(&self, w: nat, h: nat, x: int, y: int, prev: CellState) -> CellState {
        if blinker_cell(w, h, x, y) {
            CellState::Alive
        } else {
            prev
        }
    }

    fn initialize<B: BoardEditor + ?Sized>(&self, board: &mut B) -> (r: Result<(), B::Error>) {
        let width = board.width();
        let height = board.height();
        if width == 0 || height == 0 {
            return Ok(());
        }
        let center_x = width / 2;
        let center_y = height / 2;
        let mut dx: usize = 0;
        while dx < 3
            invariant
                width == old(board).view_width(),
                height == old(board).view_height(),
                board.view_width() == width,
                board.view_height() == height,
                board.is_infallible() == old(board).is_infallible(),
                width > 0,
                height > 0,
                center_x == width / 2,
                center_y == height / 2,
                dx <= 3,
                forall|x: int, y: int|
                    in_bounds(width as int, height as int, x, y) ==> #[trigger] board.view_cell(x, y) == if y
                        == center_y && center_x - 1 <= x < center_x - 1 + dx {
                        CellState::Alive
                    } else {
                        old(board).view_cell(x, y)
                    },
            decreases 3 - dx,
        {
            if dx > 0 || center_x > 0 {
                let x = center_x + dx - 1;
                if x < width {
                    match board.set_cell(CellCoordinate::new(x, center_y), CellState::Alive) {
                        Ok(()) => {},
                        Err(e) => {
                            return Err(e);
                        },
                    }
                }
            }
            dx += 1;
        }
        Ok(())
    }
}

} // verus!
