use vstd::prelude::*;

use super::cell_state::CellState;
use super::coordinate::CellCoordinate;
use super::grid::{
    before, births_of, count_was_alive, deaths_of, grid_count, in_bounds, is_generation_step,
    lemma_count_neighbor_seq, lemma_live_count_agrees, lemma_prefix_count_bound,
    lemma_prefix_lt_area, live_at, neighbor_seq, neighbor_step, next_alive, read_at, row_count,
    survivors_of,
};
use super::view::{cells_of, BoardView};
use crate::algorithms::cell_rule::CellRule;
use crate::stats::advance_outcome::AdvanceOutcome;

verus! {

/// `next` holds the generation that follows `prev` under `rule`, and
/// `outcome` counts its births, deaths and live cells.
pub open spec fn advanced<B: BoardView + ?Sized, R: CellRule + ?Sized>(
    prev: &B,
    next: &B,
    rule: &R,
    outcome: AdvanceOutcome,
) -> bool {
    let w = prev.view_width();
    let h = prev.view_height();
    let g = cells_of(prev);
    &&& next.view_width() == w
    &&& next.view_height() == h
    &&& is_generation_step(g, cells_of(next), w as int, h as int, rule)
    &&& outcome.births == grid_count(births_of(g, w as int, h as int, rule), w, h)
    &&& outcome.deaths == grid_count(deaths_of(g, w as int, h as int, rule), w, h)
    &&& outcome.alive_count == grid_count(survivors_of(g, w as int, h as int, rule), w, h)
}

/// Mutable random-access board surface used by initializers and updaters.
pub trait BoardEditor: BoardView {
    /// Sets the state of a cell; out-of-bounds coordinates are ignored.
    fn set_cell(&mut self, coordinate: CellCoordinate, state: CellState) -> (r: Result<(), Self::Error>)
        ensures
            final(self).view_width() == old(self).view_width(),
            final(self).view_height() == old(self).view_height(),
            final(self).is_infallible() == old(self).is_infallible(),
            old(self).is_infallible() ==> r is Ok,
            r is Ok ==> forall|x: int, y: int|
                in_bounds(old(self).view_width() as int, old(self).view_height() as int, x, y)
                    ==> #[trigger] final(self).view_cell(x, y) == if x == coordinate.x && y == coordinate.y {
                    state
                } else {
                    old(self).view_cell(x, y)
                },
    ;

    /// Sets every in-bounds cell to `state`.
    fn fill_cells(&mut self, state: CellState) -> (r: Result<(), Self::Error>)
        ensures
            final(self).view_width() == old(self).view_width(),
            final(self).view_height() == old(self).view_height(),
            final(self).is_infallible() == old(self).is_infallible(),
            old(self).is_infallible() ==> r is Ok,
            r is Ok ==> forall|x: int, y: int|
                in_bounds(old(self).view_width() as int, old(self).view_height() as int, x, y)
                    ==> #[trigger] final(self).view_cell(x, y) == state,
    {
        let height = self.height();
        let width = self.width();
        let mut y: usize = 0;
        while y < height
            invariant
                height == self.view_height(),
                width == self.view_width(),
                height == old(self).view_height(),
                self.is_infallible() == old(self).is_infallible(),
                width == old(self).view_width(),
                y <= height,
                forall|px: int, py: int|
                    in_bounds(width as int, height as int, px, py) && py < y ==> #[trigger] self.view_cell(px, py)
                        == state,
            decreases height - y,
        {
            let mut x: usize = 0;
            while x < width
                invariant
                    height == self.view_height(),
                    width == self.view_width(),
                    height == old(self).view_height(),
                    self.is_infallible() == old(self).is_infallible(),
                self.is_infallible() == old(self).is_infallible(),
                    width == old(self).view_width(),
                    y < height,
                    x <= width,
                    forall|px: int, py: int|
                        in_bounds(width as int, height as int, px, py) && before(px, py, x as int, y as int)
                            ==> #[trigger] self.view_cell(px, py) == state,
                decreases width - x,
            {
                match self.set_cell(CellCoordinate::new(x, y), state) {
                    Ok(()) => {},
                    Err(e) => return Err(e),
                }
                x += 1;
            }
            y += 1;
        }
        Ok(())
    }

    /// Advances the whole board by one generation under `rule`.
    ///
    /// Boards control iteration order and storage access; the default is the
    /// two-phase in-place update.
    fn advance_with_rule<R: CellRule + ?Sized>(&mut self, rule: &R) -> (r: Result<AdvanceOutcome, Self::Error>)
        requires
            old(self).view_width() * old(self).view_height() <= u64::MAX,
        ensures
            final(self).view_width() == old(self).view_width(),
            final(self).view_height() == old(self).view_height(),
            final(self).is_infallible() == old(self).is_infallible(),
            old(self).is_infallible() ==> r is Ok,
            r matches Ok(outcome) ==> advanced(old(self), final(self), rule, outcome),
    {
        self.two_phase_advance(rule)
    }

    /// Standard two-phase in-place generation update.
    ///
    /// The mark pass writes, for every cell in row-major order, the
    /// transitional state that records whether the cell was alive and whether
    /// it will be alive; neighbor counts read "originally alive", so cells
    /// already rewritten still count as they were. The normalize pass turns
    /// `Dying` into `Dead` and `Resurrecting` into `Alive` and tallies births,
    /// deaths and live cells.
    fn two_phase_advance<R: CellRule + ?Sized>(&mut self, rule: &R) -> (r: Result<AdvanceOutcome, Self::Error>)
        requires
            old(self).view_width() * old(self).view_height() <= u64::MAX,
        ensures
            final(self).view_width() == old(self).view_width(),
            final(self).view_height() == old(self).view_height(),
            final(self).is_infallible() == old(self).is_infallible(),
            old(self).is_infallible() ==> r is Ok,
            r matches Ok(outcome) ==> advanced(old(self), final(self), rule, outcome),
       {
        let ghost g0 = cells_of(&*self);
        let height = self.height();
        let width = self.width();
        let ghost w = width as int;
        let ghost h = height as int;
        let mut neighbor_coordinates: Vec<CellCoordinate> = Vec::with_capacity(8);
        let mut neighbor_states: Vec<CellState> = Vec::with_capacity(8);

        // Mark pass.
        let mut y: usize = 0;
        while y < height
            invariant
                self.view_width() == width,
                self.view_height() == height,
                old(self).view_width() == width,
                old(self).view_height() == height,
                self.is_infallible() == old(self).is_infallible(),
            self.is_infallible() == old(self).is_infallible(),
                g0 == cells_of(old(self)),
                w == width as int,
                h == height as int,
                y <= height,
                forall|px: int, py: int|
                    in_bounds(w, h, px, py) ==> #[trigger] self.view_cell(px, py) == if py < y {
                        CellState::transition(live_at(g0, w, h, px, py), next_alive(g0, w, h, rule, px, py))
                    } else {
                        g0(px, py)
                    },
            decreases height - y,
        {
            let mut x: usize = 0;
            while x < width
                invariant
                    self.view_width() == width,
                    self.view_height() == height,
                    old(self).view_width() == width,
                    old(self).view_height() == height,
                self.is_infallible() == old(self).is_infallible(),
            self.is_infallible() == old(self).is_infallible(),
                    g0 == cells_of(old(self)),
                    w == width as int,
                    h == height as int,
                w == width as int,
                h == height as int,
                    y < height,
                    x <= width,
                    forall|px: int, py: int|
                        in_bounds(w, h, px, py) ==> #[trigger] self.view_cell(px, py) == if before(
                            px,
                            py,
                            x as int,
                            y as int,
                        ) {
                            CellState::transition(live_at(g0, w, h, px, py), next_alive(g0, w, h, rule, px, py))
                        } else {
                            g0(px, py)
                        },
                decreases width - x,
            {
                let coordinate = CellCoordinate::new(x, y);
                let current = match self.cell_state(coordinate) {
                    Ok(s) => s,
                    Err(e) => return Err(e),
                };
                let was_alive = current.is_originally_alive();

                collect_in_bounds_neighbors(width, height, x, y, &mut neighbor_coordinates);
                match self.read_cells(neighbor_coordinates.as_slice(), &mut neighbor_states) {
                    Ok(()) => {},
                    Err(e) => return Err(e),
                }
                let live_neighbors = count_originally_alive(&neighbor_states);
                proof {
                    let gb = cells_of(&*self);
                    assert forall|px: int, py: int| in_bounds(w, h, px, py) implies (#[trigger] gb(px, py)).was_alive()
                        == g0(px, py).was_alive() by {
                        crate::board::cell_state::lemma_transition_round_trip(
                            live_at(g0, w, h, px, py),
                            next_alive(g0, w, h, rule, px, py),
                        );
                    }
                    assert(neighbor_states@ =~= neighbor_seq(w, h, x as int, y as int).map_values(
                        |c: CellCoordinate| read_at(gb, w, h, c),
                    ));
                    lemma_count_neighbor_seq(gb, w, h, x as int, y as int);
                    lemma_live_count_agrees(gb, g0, w, h, x as int, y as int);
                }
                let will_be_alive = rule.next_state(was_alive, live_neighbors);
                match self.set_cell(coordinate, CellState::from_transition(was_alive, will_be_alive)) {
                    Ok(()) => {},
                    Err(e) => return Err(e),
                }
                x += 1;
            }
            y += 1;
        }

        // Normalize pass.
        let ghost fb = births_of(g0, w, h, rule);
        let ghost fd = deaths_of(g0, w, h, rule);
        let ghost fa = survivors_of(g0, w, h, rule);
        let mut births = 0u64;
        let mut deaths = 0u64;
        let mut alive_count = 0u64;
        let mut y: usize = 0;
        while y < height
            invariant
                self.view_width() == width,
                self.view_height() == height,
                old(self).view_width() == width,
                old(self).view_height() == height,
                self.is_infallible() == old(self).is_infallible(),
            self.is_infallible() == old(self).is_infallible(),
                g0 == cells_of(old(self)),
                w == width as int,
                h == height as int,
                width * height <= u64::MAX,
                fb == births_of(g0, w, h, rule),
                fd == deaths_of(g0, w, h, rule),
                fa == survivors_of(g0, w, h, rule),
                y <= height,
                forall|px: int, py: int|
                    in_bounds(w, h, px, py) ==> #[trigger] self.view_cell(px, py) == if py < y {
                        CellState::of_liveness(next_alive(g0, w, h, rule, px, py))
                    } else {
                        CellState::transition(live_at(g0, w, h, px, py), next_alive(g0, w, h, rule, px, py))
                    },
                births == grid_count(fb, width as nat, y as nat),
                deaths == grid_count(fd, width as nat, y as nat),
                alive_count == grid_count(fa, width as nat, y as nat),
            decreases height - y,
        {
            let mut x: usize = 0;
            while x < width
                invariant
                    self.view_width() == width,
                    self.view_height() == height,
                    old(self).view_width() == width,
                    old(self).view_height() == height,
                self.is_infallible() == old(self).is_infallible(),
            self.is_infallible() == old(self).is_infallible(),
                    g0 == cells_of(old(self)),
                    w == width as int,
                    h == height as int,
                w == width as int,
                h == height as int,
                    width * height <= u64::MAX,
                    fb == births_of(g0, w, h, rule),
                    fd == deaths_of(g0, w, h, rule),
                    fa == survivors_of(g0, w, h, rule),
                    y < height,
                    x <= width,
                    forall|px: int, py: int|
                        in_bounds(w, h, px, py) ==> #[trigger] self.view_cell(px, py) == if before(
                            px,
                            py,
                            x as int,
                            y as int,
                        ) {
                            CellState::of_liveness(next_alive(g0, w, h, rule, px, py))
                        } else {
                            CellState::transition(live_at(g0, w, h, px, py), next_alive(g0, w, h, rule, px, py))
                        },
                    births == grid_count(fb, width as nat, y as nat) + row_count(fb, y as int, x as nat),
                    deaths == grid_count(fd, width as nat, y as nat) + row_count(fd, y as int, x as nat),
                    alive_count == grid_count(fa, width as nat, y as nat) + row_count(fa, y as int, x as nat),
                decreases width - x,
            {
                let coordinate = CellCoordinate::new(x, y);
                let raw = match self.cell_state(coordinate) {
                    Ok(s) => s,
                    Err(e) => return Err(e),
                };
                proof {
                    lemma_prefix_count_bound(fb, width as nat, y as nat, x as nat);
                    lemma_prefix_count_bound(fd, width as nat, y as nat, x as nat);
                    lemma_prefix_count_bound(fa, width as nat, y as nat, x as nat);
                    lemma_prefix_lt_area(width as nat, height as nat, y as nat, x as nat);
                }
                match raw {
                    CellState::Resurrecting => births += 1,
                    CellState::Dying => deaths += 1,
                    _ => {},
                }
                let normalized = raw.normalized();
                if matches!(normalized, CellState::Alive) {
                    alive_count += 1;
                }
                match self.set_cell(coordinate, normalized) {
                    Ok(()) => {},
                    Err(e) => return Err(e),
                }
                x += 1;
            }
            y += 1;
        }
        Ok(AdvanceOutcome::from_counts(births, deaths, alive_count))
    }
}

/// The standard two-phase update of [`BoardEditor::two_phase_advance`], reached
/// even where a board supplies its own `advance_with_rule`.
pub fn default_advance_with_rule<B: BoardEditor + ?Sized, R: CellRule + ?Sized>(
    board: &mut B,
    rule: &R,
) -> (r: Result<AdvanceOutcome, B::Error>)
    requires
        old(board).view_width() * old(board).view_height() <= u64::MAX,
    ensures
        final(board).view_width() == old(board).view_width(),
        final(board).view_height() == old(board).view_height(),
        final(board).is_infallible() == old(board).is_infallible(),
        old(board).is_infallible() ==> r is Ok,
        r matches Ok(outcome) ==> advanced(old(board), final(board), rule, outcome),
{
    board.two_phase_advance(rule)
}



/// Number of states in `states` that were originally alive.
fn count_originally_alive(states: &Vec<CellState>) -> (n: usize)
    ensures
        n == count_was_alive(states@),
{
    let mut n: usize = 0;
    let mut i: usize = 0;
    while i < states.len()
        invariant
            i <= states@.len(),
            n == count_was_alive(states@.take(i as int)),
            n <= i,
        decreases states@.len() - i,
    {
        assert(states@.take(i + 1).drop_last() =~= states@.take(i as int));
        if states[i].is_originally_alive() {
            n += 1;
        }
        i += 1;
    }
    assert(states@.take(i as int) =~= states@);
    n
}

/// Appends `(x + dx, y + dy)` when it lies on the board.
fn push_neighbor(
    width: usize,
    height: usize,
    x: usize,
    y: usize,
    dx: isize,
    dy: isize,
    out: &mut Vec<CellCoordinate>,
)
    requires
        -1 <= dx <= 1,
        -1 <= dy <= 1,
    ensures
        final(out)@ == neighbor_step(old(out)@, width as int, height as int, x + dx, y + dy),
{
    let Some(nx) = x.checked_add_signed(dx) else {
        return;
    };
    let Some(ny) = y.checked_add_signed(dy) else {
        return;
    };
    if nx >= width || ny >= height {
        return;
    }
    out.push(CellCoordinate::new(nx, ny));
}

/// Fills `out` with the on-board neighbors of `(x, y)`, row by row from the
/// top-left.
fn collect_in_bounds_neighbors(width: usize, height: usize, x: usize, y: usize, out: &mut Vec<CellCoordinate>)
    ensures
        final(out)@ == neighbor_seq(width as int, height as int, x as int, y as int),
{
    out.clear();
    push_neighbor(width, height, x, y, -1, -1, out);
    push_neighbor(width, height, x, y, 0, -1, out);
    push_neighbor(width, height, x, y, 1, -1, out);
    push_neighbor(width, height, x, y, -1, 0, out);
    push_neighbor(width, height, x, y, 1, 0, out);
    push_neighbor(width, height, x, y, -1, 1, out);
    push_neighbor(width, height, x, y, 0, 1, out);
    push_neighbor(width, height, x, y, 1, 1, out);
}

} // verus!
