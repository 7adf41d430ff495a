//! The original single-buffer board type, kept for its callers: a board of
//! fixed size whose generation update runs in place with transitional
//! states.
use vstd::prelude::*;

use super::editor::advanced;
use super::grid::in_bounds;
use super::{CellState, InMemoryBoard};
use crate::algorithms::InPlaceTransitionalUpdater;
use crate::stats::AdvanceOutcome;

verus! {

/// A Game of Life board with finite boundaries.
#[derive(Debug, PartialEq, Eq)]
pub struct Board {
    inner: InMemoryBoard,
}

/// The display character of a cell: `#` alive, `.` dead, `D` dying, `B`
/// resurrecting.
pub open spec fn display_char(c: CellState) -> char {
    match c {
        CellState::Alive => '#',
        CellState::Dead => '.',
        CellState::Dying => 'D',
        CellState::Resurrecting => 'B',
    }
}

/// The first `n` rows of the board as display characters, each row ended by
/// a newline.
pub open spec fn display_rows(b: InMemoryBoard, n: nat) -> Seq<char>
    decreases n,
{
    if n == 0 {
        Seq::empty()
    } else {
        display_rows(b, (n - 1) as nat) + Seq::new(b.spec_width(), |x: int| display_char(b.cell(x, n - 1)))
            + seq!['\n']
    }
}

impl Board {
    pub closed spec fn cells(&self) -> InMemoryBoard {
        self.inner
    }

    /// A board with all cells dead.
    pub fn new(width: usize, height: usize) -> (r: Self)
        requires
            width * height <= usize::MAX,
        ensures
            r.cells().spec_width() == width,
            r.cells().spec_height() == height,
            forall|x: int, y: int|
                in_bounds(width as int, height as int, x, y) ==> #[trigger] r.cells().cell(x, y) == CellState::Dead,
    {
        Board { inner: InMemoryBoard::new(width, height) }
    }

    pub fn width(&self) -> (r: usize)
        ensures
            r == self.cells().spec_width(),
    {
        self.inner.width()
    }

    pub fn height(&self) -> (r: usize)
        ensures
            r == self.cells().spec_height(),
    {
        self.inner.height()
    }

    /// The state of a cell; `Dead` off the board.
    pub fn get(&self, x: usize, y: usize) -> (r: CellState)
        ensures
            r == if in_bounds(self.cells().spec_width() as int, self.cells().spec_height() as int, x as int, y as int) {
                self.cells().cell(x as int, y as int)
            } else {
                CellState::Dead
            },
    {
        self.inner.get(x, y)
    }

    /// Sets the state of a cell; off-board coordinates are ignored.
    pub fn set(&mut self, x: usize, y: usize, state: CellState)
        ensures
            final(self).cells().spec_width() == old(self).cells().spec_width(),
            final(self).cells().spec_height() == old(self).cells().spec_height(),
            forall|px: int, py: int|
                in_bounds(old(self).cells().spec_width() as int, old(self).cells().spec_height() as int, px, py)
                    ==> #[trigger] final(self).cells().cell(px, py) == if px == x && py == y {
                    state
                } else {
                    old(self).cells().cell(px, py)
                },
    {
        self.inner.set(x, y, state);
    }

    /// Advances the board by one Conway generation in place.
    pub fn advance_generation(&mut self)
        requires
            old(self).cells().spec_width() <= i32::MAX,
            old(self).cells().spec_height() <= i32::MAX,
        ensures
            exists|outcome: AdvanceOutcome|
                advanced(&old(self).cells(), &final(self).cells(), &InPlaceTransitionalUpdater, outcome),
    {
        let ghost before = self.inner;
        self.inner.advance_generation();
        proof {
            let o = choose|o: AdvanceOutcome| advanced(&before, &self.inner, &InPlaceTransitionalUpdater, o);
            assert(advanced(&old(self).cells(), &self.cells(), &InPlaceTransitionalUpdater, o));
        }
    }

    /// The board as text: one line per row, `#` alive, `.` dead, `D` dying,
    /// `B` resurrecting.
    pub fn to_text(&self) -> (r: String)
        ensures
            r@ == display_rows(self.cells(), self.cells().spec_height()),
    {
        board_text(&self.inner)
    }
}

/// A board as text: one line per row, `#` alive, `.` dead, `D` dying, `B`
/// resurrecting.
pub fn board_text(board: &InMemoryBoard) -> (r: String)
    ensures
        r@ == display_rows(*board, board.spec_height()),
{
    let w = board.width();
    let h = board.height();
    let mut out = String::new();
    let mut y: usize = 0;
    while y < h
        invariant
            w == board.spec_width(),
            h == board.spec_height(),
            y <= h,
            out@ == display_rows(*board, y as nat),
        decreases h - y,
    {
        let ghost row_start = out@;
        let mut x: usize = 0;
        while x < w
            invariant
                w == board.spec_width(),
                h == board.spec_height(),
                y < h,
                x <= w,
                out@ == row_start + Seq::new(x as nat, |i: int| display_char(board.cell(i, y as int))),
            decreases w - x,
        {
            let ch = match board.get(x, y) {
                CellState::Alive => '#',
                CellState::Dead => '.',
                CellState::Dying => 'D',
                CellState::Resurrecting => 'B',
            };
            crate::text::push_char(&mut out, ch);
            x += 1;
            proof {
                assert(out@ =~= row_start + Seq::new(x as nat, |i: int| display_char(board.cell(i, y as int))));
            }
        }
        crate::text::push_char(&mut out, '\n');
        y += 1;
        proof {
            assert(out@ =~= display_rows(*board, y as nat));
        }
    }
    out
}

} // verus!
