use vstd::prelude::*;

use crate::board::grid::in_bounds;
use crate::board::{BoardEditor, CellCoordinate, CellState};

use super::board_initializer::BoardInitializer;

verus! {

pub const DEMO_PATTERN_WIDTH: usize = 10;

pub const DEMO_PATTERN_HEIGHT: usize = 10;

/// The live cells of the demo pattern, relative to its top-left corner.
pub open spec fn demo_cells() -> Seq<(usize, usize)> {
    seq![
        (5, 0),
        (9, 1),
        (3, 2),
        (8, 2),
        (1, 3),
        (4, 3),
        (6, 4),
        (0, 5),
        (1, 5),
        (2, 5),
        (6, 5),
        (8, 5),
        (8, 6),
        (8, 7),
        (0, 8),
        (5, 8),
        (6, 8),
        (0, 9),
        (7, 9),
    ]
}

pub(crate) fn demo_cell_list() -> (r: Vec<(usize, usize)>)
    ensures
        r@ == demo_cells(),
{
    let r = vec![
        (5, 0),
        (9, 1),
        (3, 2),
        (8, 2),
        (1, 3),
        (4, 3),
        (6, 4),
        (0, 5),
        (1, 5),
        (2, 5),
        (6, 5),
        (8, 5),
        (8, 6),
        (8, 7),
        (0, 8),
        (5, 8),
        (6, 8),
        (0, 9),
        (7, 9),
    ];
    proof {
        assert(r@ =~= demo_cells());
    }
    r
}

/// Offset that centers the pattern along a dimension of length `n`.
pub open spec fn demo_offset(n: nat) -> int {
    (if n >= 10 { n - 10 } else { 0 }) / 2
}

/// Whether one of the first `k` pattern cells, placed at `(ox, oy)`, is `(x, y)`.
pub open spec fn demo_hit(k: nat, ox: int, oy: int, x: int, y: int) -> bool
    decreases k,
{
    if k == 0 {
        false
    } else {
        demo_hit((k - 1) as nat, ox, oy, x, y) || (ox + demo_cells()[k - 1].0 == x && oy
            + demo_cells()[k - 1].1 == y)
    }
}

/// Seeds a deterministic 10x10 demo pattern, centered, that stabilizes within
/// 20 generations.
#[derive(Debug, Clone, Copy, Default, PartialEq, Eq, Structural)]
pub struct DemoBoardInitializer;

impl BoardInitializer for DemoBoardInitializer {
    open spec fn initialized_cell(&self, w: nat, h: nat, x: int, y: int, prev: CellState) -> CellState {
        if demo_hit(19, demo_offset(w), demo_offset(h), x, y) {
            CellState::Alive
        } else {
            prev
        }
    }

    fn initialize<B: BoardEditor + ?Sized>(&self, board: &mut B) -> (r: Result<(), B::Error>) {
        let width = board.width();
        let height = board.height();
        let offset_x = width.saturating_sub(DEMO_PATTERN_WIDTH) / 2;
        let offset_y = height.saturating_sub(DEMO_PATTERN_HEIGHT) / 2;
        let cells = demo_cell_list();
        let mut k: usize = 0;
        while k < cells.len()
            invariant
                width == old(board).view_width(),
                height == old(board).view_height(),
                board.view_width() == width,
                board.view_height() == height,
                board.is_infallible() == old(board).is_infallible(),
                offset_x == demo_offset(width as nat),
                offset_y == demo_offset(height as nat),
                offset_x <= width / 2,
                offset_y <= height / 2,
                cells@ == demo_cells(),
                k <= cells@.len(),
                forall|x: int, y: int|
                    in_bounds(width as int, height as int, x, y) ==> #[trigger] board.view_cell(x, y) == if demo_hit(
                        k as nat,
                        offset_x as int,
                        offset_y as int,
                        x,
                        y,
                    ) {
                        CellState::Alive
                    } else {
                        old(board).view_cell(x, y)
                    },
            decreases cells@.len() - k,
        {
            let (x, y) = cells[k];
            proof {
                assert(x <= 9 && y <= 9);
            }
            let board_x = offset_x + x;
            let board_y = offset_y + y;
            if board_x < width && board_y < height {
                match board.set_cell(CellCoordinate::new(board_x, board_y), CellState::Alive) {
                    Ok(()) => {},
                    Err(e) => {
                        return Err(e);
                    },
                }
            }
            k += 1;
        }
        Ok(())
    }
}

} // verus!
