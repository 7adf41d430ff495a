use vstd::prelude::*;

use super::cell_state::CellState;
use super::coordinate::CellCoordinate;
use super::grid::in_bounds;

verus! {

/// The board's cells as a function of `(x, y)`.
pub open spec fn cells_of<B: BoardView + ?Sized>(b: &B) -> spec_fn(int, int) -> CellState {
    |x: int, y: int| b.view_cell(x, y)
}

/// The state a read of `(x, y)` returns: the board's cell on the board, `Dead`
/// off the board.
pub open spec fn cell_or_dead<B: BoardView + ?Sized>(b: &B, x: int, y: int) -> CellState {
    if in_bounds(b.view_width() as int, b.view_height() as int, x, y) {
        b.view_cell(x, y)
    } else {
        CellState::Dead
    }
}

/// Read-only random-access board surface used by board algorithms.
///
/// A board is modelled by its width, height and the state of each on-board
/// cell. Reads of off-board coordinates return `Dead`.
pub trait BoardView {
    type Error;

    spec fn view_width(&self) -> nat;

    spec fn view_height(&self) -> nat;

    spec fn view_cell(&self, x: int, y: int) -> CellState;

    /// True for boards whose reads and writes cannot fail.
    spec fn is_infallible(&self) -> bool;

    fn width(&self) -> (r: usize)
        ensures
            r as nat == self.view_width(),
    ;

    fn height(&self) -> (r: usize)
        ensures
            r as nat == self.view_height(),
    ;

    /// Gets the state of a cell; `Dead` for out-of-bounds coordinates.
    fn cell_state(&self, coordinate: CellCoordinate) -> (r: Result<CellState, Self::Error>)
        ensures
            self.is_infallible() ==> r is Ok,
            r matches Ok(s) ==> s == if in_bounds(
                self.view_width() as int,
                self.view_height() as int,
                coordinate.x as int,
                coordinate.y as int,
            ) {
                self.view_cell(coordinate.x as int, coordinate.y as int)
            } else {
                CellState::Dead
            },
    ;

    /// Reads the states at `coordinates`, in order, into `states` (cleared first).
    fn read_cells(&self, coordinates: &[CellCoordinate], states: &mut Vec<CellState>) -> (r: Result<(), Self::Error>)
        ensures
            self.is_infallible() ==> r is Ok,
            r is Ok ==> final(states)@ == coordinates@.map_values(
                |c: CellCoordinate|
                    if in_bounds(self.view_width() as int, self.view_height() as int, c.x as int, c.y as int) {
                        self.view_cell(c.x as int, c.y as int)
                    } else {
                        CellState::Dead
                    },
            ),
    {
        states.clear();
        let mut i: usize = 0;
        while i < coordinates.len()
            invariant
                i <= coordinates@.len(),
                states@ == coordinates@.take(i as int).map_values(
                    |c: CellCoordinate|
                    if in_bounds(self.view_width() as int, self.view_height() as int, c.x as int, c.y as int) {
                        self.view_cell(c.x as int, c.y as int)
                    } else {
                        CellState::Dead
                    },
                ),
            decreases coordinates@.len() - i,
        {
            let s = match self.cell_state(coordinates[i]) {
                Ok(s) => s,
                Err(e) => return Err(e),
            };
            states.push(s);
            assert(coordinates@.take(i + 1) =~= coordinates@.take(i as int).push(coordinates@[i as int]));
            i += 1;
        }
        assert(coordinates@.take(i as int) =~= coordinates@);
        Ok(())
    }
}

} // verus!
