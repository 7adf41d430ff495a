use vstd::prelude::*;

use crate::board::editor::BoardEditor;
use crate::board::view::BoardView;
use crate::stats::advance_outcome::AdvanceOutcome;

verus! {

/// Algorithms that advance a board by one generation.
pub trait BoardUpdater {
    fn advance_generation<B: BoardEditor + ?Sized>(&self, board: &mut B) -> (r: Result<AdvanceOutcome, B::Error>)
        requires
            old(board).view_width() * old(board).view_height() <= u64::MAX,
        ensures
            final(board).view_width() == old(board).view_width(),
            final(board).view_height() == old(board).view_height(),
    ;
}

} // verus!
