//! The order in which a generation of a streamed board visits its chunks:
//! rows of chunks from the top, each row from the left, every cell owned by
//! exactly one visited chunk. The caller moves the board to each chunk,
//! pages its cells in and out of the scratch file, and hands the counts of
//! each chunk back here.
use vstd::prelude::*;

use vstd::arithmetic::div_mod::{lemma_fundamental_div_mod, lemma_fundamental_div_mod_converse};

use crate::board::streaming_chunk::{grid_position, origin_for, owns, lemma_owned_partition};
use crate::stats::AdvanceOutcome;

verus! {

/// How many steps of `step` it takes to pass `len`.
pub open spec fn chunks_along(len: int, step: int) -> int {
    (len + step - 1) / step
}

/// How many chunks of target size `rows` x `cols` a `w` x `h` board has.
pub open spec fn sweep_len(w: int, h: int, rows: int, cols: int) -> int {
    chunks_along(w, cols) * chunks_along(h, rows)
}

/// The grid position `(top row, left column)` of the chunk visited at step
/// `k` of the sweep over a board `w` cells wide.
pub open spec fn sweep_origin(w: int, rows: int, cols: int, k: int) -> (int, int) {
    let n = chunks_along(w, cols);
    ((k / n) * rows, (k % n) * cols)
}

/// The chunk sizes and board sizes a sweep works with.
pub open spec fn sweep_sizes(w: int, h: int, rows: int, cols: int) -> bool {
    &&& 1 <= rows <= h
    &&& 1 <= cols <= w
}

/// `j` chunks of `step` cells start before `len` exactly when `j` is below
/// the number of chunks along `len`.
proof fn lemma_chunks_along(len: int, step: int, j: int)
    requires
        1 <= step <= len,
        0 <= j,
    ensures
        chunks_along(len, step) >= 1,
        j * step < len <==> j < chunks_along(len, step),
{
    let n = chunks_along(len, step);
    lemma_fundamental_div_mod(len + step - 1, step);
    let r = (len + step - 1) % step;
    assert(0 <= r < step);
    assert(len + step - 1 == step * n + r);
    assert(n >= 1) by (nonlinear_arith)
        requires
            len + step - 1 == step * n + r,
            0 <= r < step,
            1 <= step <= len,
    ;
    if j < n {
        assert(j * step < len) by (nonlinear_arith)
            requires
                j < n,
                0 <= j,
                len + step - 1 == step * n + r,
                0 <= r < step,
                1 <= step,
        ;
    } else {
        assert(j * step >= len) by (nonlinear_arith)
            requires
                j >= n,
                len + step - 1 == step * n + r,
                0 <= r < step,
                1 <= step,
        ;
    }
}

/// Step `k + 1` of the sweep, from step `k`: the next chunk of the same row
/// of chunks, or the first of the next row.
proof fn lemma_sweep_step(w: int, h: int, rows: int, cols: int, k: int)
    requires
        sweep_sizes(w, h, rows, cols),
        0 <= k < sweep_len(w, h, rows, cols),
    ensures
        0 <= sweep_origin(w, rows, cols, k).0 < h,
        0 <= sweep_origin(w, rows, cols, k).1 < w,
        sweep_origin(w, rows, cols, k).1 + cols < w ==> sweep_origin(w, rows, cols, k + 1) == (
            sweep_origin(w, rows, cols, k).0,
            sweep_origin(w, rows, cols, k).1 + cols,
        ) && k + 1 < sweep_len(w, h, rows, cols),
        sweep_origin(w, rows, cols, k).1 + cols >= w && sweep_origin(w, rows, cols, k).0 + rows < h
            ==> sweep_origin(w, rows, cols, k + 1) == (sweep_origin(w, rows, cols, k).0 + rows, 0int)
            && k + 1 < sweep_len(w, h, rows, cols),
        sweep_origin(w, rows, cols, k).1 + cols >= w && sweep_origin(w, rows, cols, k).0 + rows >= h
            ==> k + 1 == sweep_len(w, h, rows, cols),
{
    let n = chunks_along(w, cols);
    let m = chunks_along(h, rows);
    lemma_chunks_along(w, cols, 0);
    lemma_chunks_along(h, rows, 0);
    lemma_fundamental_div_mod(k, n);
    let q = k / n;
    let r = k % n;
    assert(k == n * q + r);
    assert(0 <= r < n);
    assert(q >= 0) by (nonlinear_arith)
        requires
            k == n * q + r,
            0 <= k,
            0 <= r < n,
    ;
    assert(q < m) by (nonlinear_arith)
        requires
            k == n * q + r,
            k < n * m,
            0 <= r < n,
            q >= 0,
    ;
    lemma_chunks_along(w, cols, r);
    lemma_chunks_along(w, cols, r + 1);
    lemma_chunks_along(h, rows, q);
    lemma_chunks_along(h, rows, q + 1);
    assert((r + 1) * cols == r * cols + cols) by (nonlinear_arith);
    assert((q + 1) * rows == q * rows + rows) by (nonlinear_arith);
    assert(q * rows >= 0 && r * cols >= 0) by (nonlinear_arith)
        requires
            q >= 0,
            r >= 0,
            rows >= 1,
            cols >= 1,
    ;
    if r + 1 < n {
        lemma_fundamental_div_mod_converse(k + 1, n, q, r + 1);
        assert(k + 1 < n * m) by (nonlinear_arith)
            requires
                k == n * q + r,
                0 <= r,
                r + 1 < n,
                q < m,
                n >= 1,
        ;
    } else {
        assert(r + 1 == n);
        assert(k + 1 == (q + 1) * n) by (nonlinear_arith)
            requires
                k == n * q + r,
                r + 1 == n,
        ;
        lemma_fundamental_div_mod_converse(k + 1, n, q + 1, 0);
        assert(0int * cols == 0) by (nonlinear_arith);
        if q + 1 < m {
            assert(k + 1 < n * m) by (nonlinear_arith)
                requires
                    k + 1 == n * (q + 1),
                    q + 1 < m,
                    n >= 1,
            ;
        } else {
            assert(k + 1 == n * m) by (nonlinear_arith)
                requires
                    k + 1 == n * (q + 1),
                    q + 1 == m,
            ;
        }
    }
}

/// Every cell of a `w` x `h` board is owned by the chunk visited at exactly
/// one step of the sweep.
pub proof fn lemma_sweep_covers(w: int, h: int, rows: int, cols: int, x: int, y: int)
    requires
        sweep_sizes(w, h, rows, cols),
        0 <= x < w,
        0 <= y < h,
    ensures
        exists|k: int|
            0 <= k < sweep_len(w, h, rows, cols) && #[trigger] owns(
                w,
                h,
                rows,
                cols,
                sweep_origin(w, rows, cols, k).0,
                sweep_origin(w, rows, cols, k).1,
                x,
                y,
            ),
        forall|k1: int, k2: int|
            0 <= k1 < sweep_len(w, h, rows, cols) && 0 <= k2 < sweep_len(w, h, rows, cols) && owns(
                w,
                h,
                rows,
                cols,
                #[trigger] sweep_origin(w, rows, cols, k1).0,
                sweep_origin(w, rows, cols, k1).1,
                x,
                y,
            ) && owns(
                w,
                h,
                rows,
                cols,
                #[trigger] sweep_origin(w, rows, cols, k2).0,
                sweep_origin(w, rows, cols, k2).1,
                x,
                y,
            ) ==> k1 == k2,
{
    let n = chunks_along(w, cols);
    let m = chunks_along(h, rows);
    lemma_chunks_along(w, cols, 0);
    lemma_chunks_along(h, rows, 0);
    let (oy, ox) = origin_for(rows, cols, x, y);
    lemma_owned_partition(w, h, rows, cols, x, y, oy, ox);
    let qy = y / rows;
    let qx = x / cols;
    lemma_fundamental_div_mod(y, rows);
    lemma_fundamental_div_mod(x, cols);
    assert(0 <= qx && 0 <= qy) by (nonlinear_arith)
        requires
            x == cols * qx + x % cols,
            y == rows * qy + y % rows,
            0 <= x % cols < cols,
            0 <= y % rows < rows,
            0 <= x,
            0 <= y,
    ;
    assert(qx * cols <= x && qy * rows <= y) by (nonlinear_arith)
        requires
            x == cols * qx + x % cols,
            y == rows * qy + y % rows,
            0 <= x % cols,
            0 <= y % rows,
    ;
    lemma_chunks_along(w, cols, qx);
    lemma_chunks_along(h, rows, qy);
    let k = qy * n + qx;
    lemma_fundamental_div_mod_converse(k, n, qy, qx);
    assert(k < n * m) by (nonlinear_arith)
        requires
            k == qy * n + qx,
            qx < n,
            qy < m,
            0 <= qx,
    ;
    assert(0 <= k) by (nonlinear_arith)
        requires
            k == qy * n + qx,
            0 <= qx,
            0 <= qy,
            n >= 1,
    ;
    assert(sweep_origin(w, rows, cols, k) == (oy, ox));
    assert(owns(w, h, rows, cols, oy, ox, x, y));
    assert forall|k1: int, k2: int|
        0 <= k1 < sweep_len(w, h, rows, cols) && 0 <= k2 < sweep_len(w, h, rows, cols) && owns(
            w,
            h,
            rows,
            cols,
            #[trigger] sweep_origin(w, rows, cols, k1).0,
            sweep_origin(w, rows, cols, k1).1,
            x,
            y,
        ) && owns(
            w,
            h,
            rows,
            cols,
            #[trigger] sweep_origin(w, rows, cols, k2).0,
            sweep_origin(w, rows, cols, k2).1,
            x,
            y,
        ) implies k1 == k2 by {
        lemma_sweep_origin_grid(w, h, rows, cols, k1);
        lemma_sweep_origin_grid(w, h, rows, cols, k2);
        let o1 = sweep_origin(w, rows, cols, k1);
        let o2 = sweep_origin(w, rows, cols, k2);
        lemma_owned_partition(w, h, rows, cols, x, y, o1.0, o1.1);
        lemma_owned_partition(w, h, rows, cols, x, y, o2.0, o2.1);
        lemma_sweep_origin_injective(w, h, rows, cols, k1, k2);
    }
}

/// The chunk visited at each step of the sweep is at a grid position, and
/// is the chunk that owns its own top-left cell.
pub proof fn lemma_sweep_origin_grid(w: int, h: int, rows: int, cols: int, k: int)
    requires
        sweep_sizes(w, h, rows, cols),
        0 <= k < sweep_len(w, h, rows, cols),
    ensures
        grid_position(w, h, rows, cols, sweep_origin(w, rows, cols, k).0, sweep_origin(w, rows, cols, k).1),
        origin_for(rows, cols, sweep_origin(w, rows, cols, k).1, sweep_origin(w, rows, cols, k).0)
            == sweep_origin(w, rows, cols, k),
{
    let n = chunks_along(w, cols);
    let m = chunks_along(h, rows);
    lemma_sweep_step(w, h, rows, cols, k);
    lemma_fundamental_div_mod(k, n);
    let q = k / n;
    let r = k % n;
    assert(q >= 0) by (nonlinear_arith)
        requires
            k == n * q + r,
            0 <= k,
            0 <= r < n,
    ;
    vstd::arithmetic::div_mod::lemma_mod_multiples_basic(q, rows);
    vstd::arithmetic::div_mod::lemma_mod_multiples_basic(r, cols);
    vstd::arithmetic::div_mod::lemma_div_multiples_vanish(q, rows);
    vstd::arithmetic::div_mod::lemma_div_multiples_vanish(r, cols);
    assert(rows * q == q * rows && cols * r == r * cols) by (nonlinear_arith);
    assert((q * rows) >= 0 && (r * cols) >= 0) by (nonlinear_arith)
        requires
            q >= 0,
            r >= 0,
            rows >= 1,
            cols >= 1,
    ;
}

/// Different steps of the sweep visit different chunks.
proof fn lemma_sweep_origin_injective(w: int, h: int, rows: int, cols: int, k1: int, k2: int)
    requires
        sweep_sizes(w, h, rows, cols),
        0 <= k1 < sweep_len(w, h, rows, cols),
        0 <= k2 < sweep_len(w, h, rows, cols),
        sweep_origin(w, rows, cols, k1) == sweep_origin(w, rows, cols, k2),
    ensures
        k1 == k2,
{
    let n = chunks_along(w, cols);
    lemma_chunks_along(w, cols, 0);
    lemma_fundamental_div_mod(k1, n);
    lemma_fundamental_div_mod(k2, n);
    let (q1, r1) = (k1 / n, k1 % n);
    let (q2, r2) = (k2 / n, k2 % n);
    assert(q1 == q2) by (nonlinear_arith)
        requires
            q1 * rows == q2 * rows,
            rows >= 1,
    ;
    assert(r1 == r2) by (nonlinear_arith)
        requires
            r1 * cols == r2 * cols,
            cols >= 1,
    ;
}

/// Where a sweep over the chunks of a board stands, with the births, deaths
/// and live cells that the visited chunks counted.
pub struct ChunkSweep {
    width: usize,
    height: usize,
    rows: usize,
    cols: usize,
    next: Option<(usize, usize)>,
    births: u64,
    deaths: u64,
    alive: u64,
    steps: Ghost<nat>,
}

impl ChunkSweep {
    pub closed spec fn spec_width(&self) -> int {
        self.width as int
    }

    pub closed spec fn spec_height(&self) -> int {
        self.height as int
    }

    pub closed spec fn spec_rows(&self) -> int {
        self.rows as int
    }

    pub closed spec fn spec_cols(&self) -> int {
        self.cols as int
    }

    /// How many chunks have been visited.
    pub closed spec fn steps(&self) -> nat {
        self.steps@
    }

    /// The totals `(births, deaths, live cells)` counted so far.
    pub closed spec fn totals(&self) -> (u64, u64, u64) {
        (self.births, self.deaths, self.alive)
    }

    /// The top-left cell `(x, y)` of the chunk to visit next, or `None` once
    /// every chunk was visited.
    pub open spec fn next_spec(&self) -> Option<(usize, usize)> {
        if self.steps() < sweep_len(self.spec_width(), self.spec_height(), self.spec_rows(), self.spec_cols()) {
            let o = sweep_origin(self.spec_width(), self.spec_rows(), self.spec_cols(), self.steps() as int);
            Some((o.1 as usize, o.0 as usize))
        } else {
            None
        }
    }

    pub closed spec fn wf(&self) -> bool {
        &&& sweep_sizes(self.width as int, self.height as int, self.rows as int, self.cols as int)
        &&& self.steps@ <= sweep_len(self.width as int, self.height as int, self.rows as int, self.cols as int)
        &&& self.next == self.next_spec()
    }

    /// A sweep over a `width` x `height` board in chunks of target size
    /// `rows` x `cols`, starting at the top-left chunk with nothing counted.
    pub fn new(width: usize, height: usize, rows: usize, cols: usize) -> (r: Self)
        requires
            1 <= rows <= height,
            1 <= cols <= width,
        ensures
            r.wf(),
            r.spec_width() == width,
            r.spec_height() == height,
            r.spec_rows() == rows,
            r.spec_cols() == cols,
            r.steps() == 0,
            r.totals() == (0u64, 0u64, 0u64),
            r.next_spec() == Some((0usize, 0usize)),
    {
        proof {
            lemma_chunks_along(width as int, cols as int, 0);
            lemma_chunks_along(height as int, rows as int, 0);
            let n = chunks_along(width as int, cols as int);
            let m = chunks_along(height as int, rows as int);
            assert(n * m >= 1) by (nonlinear_arith)
                requires
                    n >= 1,
                    m >= 1,
            ;
            assert(0int / n == 0 && 0int % n == 0) by (nonlinear_arith)
                requires
                    n >= 1,
            ;
            assert(0int * rows == 0 && 0int * cols == 0);
        }
        ChunkSweep { width, height, rows, cols, next: Some((0, 0)), births: 0, deaths: 0, alive: 0, steps: Ghost(0) }
    }

    /// The top-left cell `(x, y)` of the chunk to visit next, or `None` once
    /// every chunk was visited.
    pub fn next_cell(&self) -> (r: Option<(usize, usize)>)
        requires
            self.wf(),
        ensures
            r == self.next_spec(),
    {
        self.next
    }

    /// Moves past the chunk just visited, adding the births, deaths and live
    /// cells it counted. Returns `false`, and leaves the totals as they
    /// were, when a total would no longer fit in 64 bits.
    pub fn visited(&mut self, counted: AdvanceOutcome) -> (r: bool)
        requires
            old(self).wf(),
            old(self).next_spec() is Some,
        ensures
            final(self).wf(),
            final(self).spec_width() == old(self).spec_width(),
            final(self).spec_height() == old(self).spec_height(),
            final(self).spec_rows() == old(self).spec_rows(),
            final(self).spec_cols() == old(self).spec_cols(),
            final(self).steps() == old(self).steps() + 1,
            r == (old(self).totals().0 + counted.births <= u64::MAX && old(self).totals().1
                + counted.deaths <= u64::MAX && old(self).totals().2 + counted.alive_count <= u64::MAX),
            r ==> final(self).totals() == ((old(self).totals().0 + counted.births) as u64, (old(
                self,
            ).totals().1 + counted.deaths) as u64, (old(self).totals().2 + counted.alive_count) as u64),
            !r ==> final(self).totals() == old(self).totals(),
    {
        let ghost k = self.steps@ as int;
        proof {
            lemma_sweep_step(self.width as int, self.height as int, self.rows as int, self.cols as int, k);
        }
        let (x, y) = match self.next {
            Some(p) => p,
            None => (0, 0),
        };
        if self.cols < self.width - x {
            self.next = Some((x + self.cols, y));
        } else if self.rows < self.height - y {
            self.next = Some((0, y + self.rows));
        } else {
            self.next = None;
        }
        self.steps = Ghost((k + 1) as nat);
        let fits = counted.births <= u64::MAX - self.births && counted.deaths <= u64::MAX - self.deaths
            && counted.alive_count <= u64::MAX - self.alive;
        if fits {
            self.births = self.births + counted.births;
            self.deaths = self.deaths + counted.deaths;
            self.alive = self.alive + counted.alive_count;
        }
        fits
    }

    /// The totals `(births, deaths, live cells)` counted so far.
    pub fn counts(&self) -> (r: AdvanceOutcome)
        ensures
            r.births == self.totals().0,
            r.deaths == self.totals().1,
            r.alive_count == self.totals().2,
    {
        AdvanceOutcome { births: self.births, deaths: self.deaths, alive_count: self.alive }
    }
}

} // verus!
