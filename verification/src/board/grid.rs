//! Mathematical model of a bounded board and of one generation step.
use vstd::prelude::*;

use super::cell_state::CellState;
use super::coordinate::CellCoordinate;
use crate::algorithms::cell_rule::CellRule;

verus! {

/// True when `(x, y)` lies on a `w × h` board.
pub open spec fn in_bounds(w: int, h: int, x: int, y: int) -> bool {
    0 <= x < w && 0 <= y < h
}

/// `1` for `true`, `0` for `false`.
pub open spec fn bit(b: bool) -> nat {
    if b {
        1nat
    } else {
        0nat
    }
}

/// True when the cell at `(x, y)` is on the board and was alive at the start
/// of the generation. Cells off the board count as dead.
pub open spec fn live_at(g: spec_fn(int, int) -> CellState, w: int, h: int, x: int, y: int) -> bool {
    in_bounds(w, h, x, y) && g(x, y).was_alive()
}

/// Number of originally-alive cells among the eight neighbors of `(x, y)`.
pub open spec fn live_neighbor_count(
    g: spec_fn(int, int) -> CellState,
    w: int,
    h: int,
    x: int,
    y: int,
) -> nat {
    bit(live_at(g, w, h, x - 1, y - 1)) + bit(live_at(g, w, h, x, y - 1)) + bit(
        live_at(g, w, h, x + 1, y - 1),
    ) + bit(live_at(g, w, h, x - 1, y)) + bit(live_at(g, w, h, x + 1, y)) + bit(
        live_at(g, w, h, x - 1, y + 1),
    ) + bit(live_at(g, w, h, x, y + 1)) + bit(live_at(g, w, h, x + 1, y + 1))
}

/// Whether the cell at `(x, y)` is alive after one generation under `rule`.
pub open spec fn next_alive<R: CellRule + ?Sized>(
    g: spec_fn(int, int) -> CellState,
    w: int,
    h: int,
    rule: &R,
    x: int,
    y: int,
) -> bool {
    rule.rule_next(live_at(g, w, h, x, y), live_neighbor_count(g, w, h, x, y))
}

/// `next` is the generation that follows `prev` on a `w × h` board under `rule`:
/// every cell holds `Alive` or `Dead` according to the rule applied to the
/// originally-alive cells of `prev`.
pub open spec fn is_generation_step<R: CellRule + ?Sized>(
    prev: spec_fn(int, int) -> CellState,
    next: spec_fn(int, int) -> CellState,
    w: int,
    h: int,
    rule: &R,
) -> bool {
    forall|x: int, y: int|
        in_bounds(w, h, x, y) ==> #[trigger] next(x, y) == CellState::of_liveness(
            next_alive(prev, w, h, rule, x, y),
        )
}

/// Number of columns `c < n` of row `y` for which `f(c, y)` holds.
pub open spec fn row_count(f: spec_fn(int, int) -> bool, y: int, n: nat) -> nat
    decreases n,
{
    if n == 0 {
        0
    } else {
        row_count(f, y, (n - 1) as nat) + bit(f(n - 1, y))
    }
}

/// Number of cells of the first `h` rows of a `w`-wide board for which `f` holds.
pub open spec fn grid_count(f: spec_fn(int, int) -> bool, w: nat, h: nat) -> nat
    decreases h,
{
    if h == 0 {
        0
    } else {
        grid_count(f, w, (h - 1) as nat) + row_count(f, h - 1, w)
    }
}

/// Cells that are born in the step from `g` under `rule`.
pub open spec fn births_of<R: CellRule + ?Sized>(
    g: spec_fn(int, int) -> CellState,
    w: int,
    h: int,
    rule: &R,
) -> spec_fn(int, int) -> bool {
    |x: int, y: int| !live_at(g, w, h, x, y) && next_alive(g, w, h, rule, x, y)
}

/// Cells that die in the step from `g` under `rule`.
pub open spec fn deaths_of<R: CellRule + ?Sized>(
    g: spec_fn(int, int) -> CellState,
    w: int,
    h: int,
    rule: &R,
) -> spec_fn(int, int) -> bool {
    |x: int, y: int| live_at(g, w, h, x, y) && !next_alive(g, w, h, rule, x, y)
}

/// Cells that are alive after the step from `g` under `rule`.
pub open spec fn survivors_of<R: CellRule + ?Sized>(
    g: spec_fn(int, int) -> CellState,
    w: int,
    h: int,
    rule: &R,
) -> spec_fn(int, int) -> bool {
    |x: int, y: int| next_alive(g, w, h, rule, x, y)
}

pub proof fn lemma_row_count_bound(f: spec_fn(int, int) -> bool, y: int, n: nat)
    ensures
        row_count(f, y, n) <= n,
    decreases n,
{
    if n > 0 {
        lemma_row_count_bound(f, y, (n - 1) as nat);
    }
}

pub proof fn lemma_grid_count_bound(f: spec_fn(int, int) -> bool, w: nat, h: nat)
    ensures
        grid_count(f, w, h) <= w * h,
    decreases h,
{
    if h > 0 {
        lemma_grid_count_bound(f, w, (h - 1) as nat);
        lemma_row_count_bound(f, h - 1, w);
        assert(w * h == w * (h - 1) + w) by (nonlinear_arith);
    }
}

/// The count over the first `y` rows plus `x` cells of row `y` is at most the
/// number of those cells.
pub proof fn lemma_prefix_count_bound(f: spec_fn(int, int) -> bool, w: nat, y: nat, x: nat)
    requires
        x <= w,
    ensures
        grid_count(f, w, y) + row_count(f, y as int, x) <= w * y + x,
{
    lemma_grid_count_bound(f, w, y);
    lemma_row_count_bound(f, y as int, x);
}

pub proof fn lemma_prefix_lt_area(w: nat, h: nat, y: nat, x: nat)
    requires
        y < h,
        x < w,
    ensures
        w * y + x < w * h,
{
    assert(w * y + x < w * (y + 1)) by (nonlinear_arith)
        requires
            x < w,
    ;
    assert(w * (y + 1) <= w * h) by (nonlinear_arith)
        requires
            y + 1 <= h,
    ;
}

// ---- neighbor coordinate sequences ----
/// Appends `(nx, ny)` to `s` when it lies on the board.
pub open spec fn neighbor_step(
    s: Seq<CellCoordinate>,
    w: int,
    h: int,
    nx: int,
    ny: int,
) -> Seq<CellCoordinate> {
    if in_bounds(w, h, nx, ny) {
        s.push(CellCoordinate { x: nx as usize, y: ny as usize })
    } else {
        s
    }
}

/// The on-board neighbors of `(x, y)`, row by row from the top-left.
pub open spec fn neighbor_seq(w: int, h: int, x: int, y: int) -> Seq<CellCoordinate> {
    let s0 = Seq::<CellCoordinate>::empty();
    let s1 = neighbor_step(s0, w, h, x - 1, y - 1);
    let s2 = neighbor_step(s1, w, h, x, y - 1);
    let s3 = neighbor_step(s2, w, h, x + 1, y - 1);
    let s4 = neighbor_step(s3, w, h, x - 1, y);
    let s5 = neighbor_step(s4, w, h, x + 1, y);
    let s6 = neighbor_step(s5, w, h, x - 1, y + 1);
    let s7 = neighbor_step(s6, w, h, x, y + 1);
    neighbor_step(s7, w, h, x + 1, y + 1)
}

/// Number of states in `s` that were alive at the start of the generation.
pub open spec fn count_was_alive(s: Seq<CellState>) -> nat
    decreases s.len(),
{
    if s.len() == 0 {
        0
    } else {
        count_was_alive(s.drop_last()) + bit(s.last().was_alive())
    }
}

/// The state read at a coordinate: the board's cell when on the board, `Dead` otherwise.
pub open spec fn read_at(g: spec_fn(int, int) -> CellState, w: int, h: int, c: CellCoordinate) -> CellState {
    if in_bounds(w, h, c.x as int, c.y as int) {
        g(c.x as int, c.y as int)
    } else {
        CellState::Dead
    }
}

pub proof fn lemma_count_neighbor_step(
    s: Seq<CellCoordinate>,
    g: spec_fn(int, int) -> CellState,
    w: int,
    h: int,
    nx: int,
    ny: int,
)
    requires
        w <= usize::MAX,
        h <= usize::MAX,
    ensures
        count_was_alive(neighbor_step(s, w, h, nx, ny).map_values(|c: CellCoordinate| read_at(g, w, h, c)))
            == count_was_alive(s.map_values(|c: CellCoordinate| read_at(g, w, h, c))) + bit(
            live_at(g, w, h, nx, ny),
        ),
{
    let f = |c: CellCoordinate| read_at(g, w, h, c);
    if in_bounds(w, h, nx, ny) {
        let c = CellCoordinate { x: nx as usize, y: ny as usize };
        let t = s.push(c).map_values(f);
        assert(t.drop_last() =~= s.map_values(f));
        assert(t.last() == f(c));
    }
}

/// Counting the originally-alive states read at the neighbor coordinates
/// gives the live-neighbor count.
pub proof fn lemma_count_neighbor_seq(g: spec_fn(int, int) -> CellState, w: int, h: int, x: int, y: int)
    requires
        w <= usize::MAX,
        h <= usize::MAX,
    ensures
        count_was_alive(neighbor_seq(w, h, x, y).map_values(|c: CellCoordinate| read_at(g, w, h, c)))
            == live_neighbor_count(g, w, h, x, y),
{
    let f = |c: CellCoordinate| read_at(g, w, h, c);
    let s0 = Seq::<CellCoordinate>::empty();
    let s1 = neighbor_step(s0, w, h, x - 1, y - 1);
    let s2 = neighbor_step(s1, w, h, x, y - 1);
    let s3 = neighbor_step(s2, w, h, x + 1, y - 1);
    let s4 = neighbor_step(s3, w, h, x - 1, y);
    let s5 = neighbor_step(s4, w, h, x + 1, y);
    let s6 = neighbor_step(s5, w, h, x - 1, y + 1);
    let s7 = neighbor_step(s6, w, h, x, y + 1);
    assert(s0.map_values(f) =~= Seq::<CellState>::empty());
    lemma_count_neighbor_step(s0, g, w, h, x - 1, y - 1);
    lemma_count_neighbor_step(s1, g, w, h, x, y - 1);
    lemma_count_neighbor_step(s2, g, w, h, x + 1, y - 1);
    lemma_count_neighbor_step(s3, g, w, h, x - 1, y);
    lemma_count_neighbor_step(s4, g, w, h, x + 1, y);
    lemma_count_neighbor_step(s5, g, w, h, x - 1, y + 1);
    lemma_count_neighbor_step(s6, g, w, h, x, y + 1);
    lemma_count_neighbor_step(s7, g, w, h, x + 1, y + 1);
}

/// Two boards whose cells agree on which were originally alive have the same
/// live-neighbor counts.
pub proof fn lemma_live_count_agrees(
    g1: spec_fn(int, int) -> CellState,
    g2: spec_fn(int, int) -> CellState,
    w: int,
    h: int,
    x: int,
    y: int,
)
    requires
        forall|px: int, py: int| in_bounds(w, h, px, py) ==> (#[trigger] g1(px, py)).was_alive() == g2(px, py).was_alive(),
    ensures
        live_neighbor_count(g1, w, h, x, y) == live_neighbor_count(g2, w, h, x, y),
        live_at(g1, w, h, x, y) == live_at(g2, w, h, x, y),
{
    assert(live_at(g1, w, h, x - 1, y - 1) == live_at(g2, w, h, x - 1, y - 1));
    assert(live_at(g1, w, h, x, y - 1) == live_at(g2, w, h, x, y - 1));
    assert(live_at(g1, w, h, x + 1, y - 1) == live_at(g2, w, h, x + 1, y - 1));
    assert(live_at(g1, w, h, x - 1, y) == live_at(g2, w, h, x - 1, y));
    assert(live_at(g1, w, h, x + 1, y) == live_at(g2, w, h, x + 1, y));
    assert(live_at(g1, w, h, x - 1, y + 1) == live_at(g2, w, h, x - 1, y + 1));
    assert(live_at(g1, w, h, x, y + 1) == live_at(g2, w, h, x, y + 1));
    assert(live_at(g1, w, h, x + 1, y + 1) == live_at(g2, w, h, x + 1, y + 1));
    assert(live_at(g1, w, h, x, y) == live_at(g2, w, h, x, y));
}

/// Row-major "already visited" predicate: `(px, py)` comes before `(x, y)`.
pub open spec fn before(px: int, py: int, x: int, y: int) -> bool {
    py < y || (py == y && px < x)
}

} // verus!
