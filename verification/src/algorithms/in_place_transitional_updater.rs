use vstd::prelude::*;

use super::board_updater::BoardUpdater;
use super::cell_rule::{conway_next, CellRule};
use crate::board::editor::{advanced, BoardEditor};
use crate::board::view::BoardView;
use crate::stats::advance_outcome::AdvanceOutcome;

verus! {

/// Conway's B3/S23 rule, applied through the board's two-phase
/// transitional-state update.
#[derive(Debug, Clone, Copy, Default, PartialEq, Eq, Structural)]
pub struct InPlaceTransitionalUpdater;

impl CellRule for InPlaceTransitionalUpdater {
    open spec fn rule_next(&self, currently_alive: bool, live_neighbors: nat) -> bool {
        conway_next(currently_alive, live_neighbors)
    }

    fn next_state(&self, currently_alive: bool, live_neighbors: usize) -> (r: bool) {
        match (currently_alive, live_neighbors) {
            (true, 2) | (true, 3) => true,
            (true, _) => false,
            (false, 3) => true,
            (false, _) => false,
        }
    }
}

impl BoardUpdater for InPlaceTransitionalUpdater {
    fn advance_generation<B: BoardEditor + ?Sized>(&self, board: &mut B) -> (r: Result<AdvanceOutcome, B::Error>)
        ensures
            r matches Ok(outcome) ==> advanced(old(board), final(board), self, outcome),
    {
        board.advance_with_rule(self)
    }
}

} // verus!
