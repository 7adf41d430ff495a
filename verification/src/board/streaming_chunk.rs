//! The in-memory side of a streaming board: which chunk of the board is
//! loaded, and the generation update on it.
//!
//! A chunk position owns a rectangle of the board; the owned rectangles of
//! all positions, laid out on a grid of the target owned size, partition
//! the board. The loaded rectangle adds a one-cell halo on every side that
//! is not a board edge, so that every neighbor of an owned cell is at
//! hand. Moving the chunk, and reading and writing its rows in the scratch
//! file, is the caller's part: this type says which rows to read and
//! write and takes the cells read.
use vstd::prelude::*;

use super::cell_state::CellState;
use super::grid::{grid_count, in_bounds, live_at, live_neighbor_count, next_alive, row_count};
use super::in_memory_board::InMemoryBoard;
use super::streaming_board::{chunk_dimensions, derive_chunk_dimensions, StreamingBoardCreationError};
use crate::algorithms::cell_rule::CellRule;
use crate::stats::advance_outcome::AdvanceOutcome;

verus! {

pub open spec fn min_int(a: int, b: int) -> int {
    if a < b {
        a
    } else {
        b
    }
}

/// The grid position (top row, left column) of the chunk that owns
/// `(x, y)`, for target owned size `rows` x `cols`.
pub open spec fn origin_for(rows: int, cols: int, x: int, y: int) -> (int, int) {
    ((y / rows) * rows, (x / cols) * cols)
}

/// The owned size at grid position `(oy, ox)`: the target size, clamped at
/// the bottom and right edges of a `w` x `h` board.
pub open spec fn owned_size_at(w: int, h: int, rows: int, cols: int, oy: int, ox: int) -> (int, int) {
    (min_int(rows, h - oy), min_int(cols, w - ox))
}

/// The loaded rectangle `((top, left), (rows, cols))` around the owned
/// rectangle at `(oy, ox)` of size `(orows, ocols)`.
pub open spec fn loaded_for(w: int, h: int, oy: int, ox: int, orows: int, ocols: int) -> ((int, int), (int, int)) {
    let ys = if oy == 0 {
        0
    } else {
        oy - 1
    };
    let xs = if ox == 0 {
        0
    } else {
        ox - 1
    };
    let ye = min_int(oy + orows + 1, h);
    let xe = min_int(ox + ocols + 1, w);
    ((ys, xs), (ye - ys, xe - xs))
}

/// Whether `(x, y)` lies in the rectangle at `(top, left)` of `size`.
pub open spec fn in_rect(top: int, left: int, rows: int, cols: int, x: int, y: int) -> bool {
    top <= y < top + rows && left <= x < left + cols
}

/// Whether `(oy, ox)` is a chunk position of the grid on a `w` x `h`
/// board.
pub open spec fn grid_position(w: int, h: int, rows: int, cols: int, oy: int, ox: int) -> bool {
    0 <= oy < h && 0 <= ox < w && oy % rows == 0 && ox % cols == 0
}

/// Whether the chunk at grid position `(oy, ox)` owns `(x, y)`.
pub open spec fn owns(w: int, h: int, rows: int, cols: int, oy: int, ox: int, x: int, y: int) -> bool {
    let size = owned_size_at(w, h, rows, cols, oy, ox);
    in_rect(oy, ox, size.0, size.1, x, y)
}

/// Every cell of the board is owned by exactly one chunk position: the one
/// `origin_for` names.
pub proof fn lemma_owned_partition(w: int, h: int, rows: int, cols: int, x: int, y: int, oy: int, ox: int)
    requires
        1 <= rows,
        1 <= cols,
        in_bounds(w, h, x, y),
    ensures
        grid_position(w, h, rows, cols, origin_for(rows, cols, x, y).0, origin_for(rows, cols, x, y).1),
        owns(w, h, rows, cols, origin_for(rows, cols, x, y).0, origin_for(rows, cols, x, y).1, x, y),
        grid_position(w, h, rows, cols, oy, ox) && owns(w, h, rows, cols, oy, ox, x, y) ==> oy == origin_for(
            rows,
            cols,
            x,
            y,
        ).0 && ox == origin_for(rows, cols, x, y).1,
{
    lemma_grid_axis(y, rows, oy);
    lemma_grid_axis(x, cols, ox);
}

proof fn lemma_grid_axis(v: int, n: int, o: int)
    requires
        1 <= n,
        0 <= v,
    ensures
        (v / n) * n <= v < (v / n) * n + n,
        ((v / n) * n) % n == 0,
        0 <= o && o % n == 0 && o <= v < o + n ==> o == (v / n) * n,
{
    assert((v / n) * n <= v < (v / n) * n + n) by (nonlinear_arith)
        requires
            1 <= n,
            0 <= v,
    ;
    assert(((v / n) * n) % n == 0) by (nonlinear_arith)
        requires
            1 <= n,
    ;
    if 0 <= o && o % n == 0 && o <= v < o + n {
        assert(o == (v / n) * n) by (nonlinear_arith)
            requires
                1 <= n,
                0 <= o,
                o % n == 0,
                o <= v < o + n,
                (v / n) * n <= v < (v / n) * n + n,
                ((v / n) * n) % n == 0,
        ;
    }
}

/// Every neighbor on the board of a cell that a chunk owns lies in its
/// loaded rectangle.
pub proof fn lemma_halo_covers(w: int, h: int, oy: int, ox: int, orows: int, ocols: int, x: int, y: int, nx: int, ny: int)
    requires
        0 <= oy,
        0 <= ox,
        oy + orows <= h,
        ox + ocols <= w,
        in_rect(oy, ox, orows, ocols, x, y),
        in_bounds(w, h, nx, ny),
        x - 1 <= nx <= x + 1,
        y - 1 <= ny <= y + 1,
    ensures
        ({
            let l = loaded_for(w, h, oy, ox, orows, ocols);
            in_rect(l.0.0, l.0.1, l.1.0, l.1.1, nx, ny)
        }),
{
}

/// A board too large to hold, paged through a scratch file one chunk at a
/// time; this is its in-memory part.
pub struct StreamingBoard {
    board_width: usize,
    board_height: usize,
    chunk: InMemoryBoard,
    loaded_origin: (usize, usize),
    loaded_size: (usize, usize),
    owned_origin: (usize, usize),
    owned_size: (usize, usize),
    dirty_rows: Vec<bool>,
    target_owned_rows: usize,
    target_owned_cols: usize,
}

impl StreamingBoard {
    pub closed spec fn spec_width(&self) -> int {
        self.board_width as int
    }

    pub closed spec fn spec_height(&self) -> int {
        self.board_height as int
    }

    pub closed spec fn target_rows(&self) -> int {
        self.target_owned_rows as int
    }

    pub closed spec fn target_cols(&self) -> int {
        self.target_owned_cols as int
    }

    /// The owned rectangle `((top, left), (rows, cols))`.
    pub closed spec fn owned(&self) -> ((int, int), (int, int)) {
        (
            (self.owned_origin.0 as int, self.owned_origin.1 as int),
            (self.owned_size.0 as int, self.owned_size.1 as int),
        )
    }

    /// The loaded rectangle `((top, left), (rows, cols))`.
    pub closed spec fn loaded(&self) -> ((int, int), (int, int)) {
        (
            (self.loaded_origin.0 as int, self.loaded_origin.1 as int),
            (self.loaded_size.0 as int, self.loaded_size.1 as int),
        )
    }

    /// Which owned rows were written since the last flush.
    pub closed spec fn dirty(&self) -> Seq<bool> {
        self.dirty_rows@
    }

    pub open spec fn is_owned(&self, x: int, y: int) -> bool {
        in_rect(self.owned().0.0, self.owned().0.1, self.owned().1.0, self.owned().1.1, x, y)
    }

    pub open spec fn is_loaded(&self, x: int, y: int) -> bool {
        in_rect(self.loaded().0.0, self.loaded().0.1, self.loaded().1.0, self.loaded().1.1, x, y)
    }

    /// The board as far as the chunk shows it: the loaded cells, and
    /// `Dead` elsewhere.
    pub closed spec fn global_cell(&self, x: int, y: int) -> CellState {
        if self.is_loaded(x, y) {
            self.chunk.cell(x - self.loaded_origin.1, y - self.loaded_origin.0)
        } else {
            CellState::Dead
        }
    }

    pub closed spec fn wf(&self) -> bool {
        let w = self.board_width as int;
        let h = self.board_height as int;
        let tr = self.target_owned_rows as int;
        let tc = self.target_owned_cols as int;
        let o = self.owned();
        &&& w > 0 && h > 0
        &&& w + 2 <= usize::MAX && h + 2 <= usize::MAX
        &&& 1 <= tr <= h && 1 <= tc <= w
        &&& self.chunk.spec_width() == min_int(tc + 2, w)
        &&& self.chunk.spec_height() == min_int(tr + 2, h)
        &&& grid_position(w, h, tr, tc, o.0.0, o.0.1)
        &&& o.1 == owned_size_at(w, h, tr, tc, o.0.0, o.0.1)
        &&& self.loaded() == loaded_for(w, h, o.0.0, o.0.1, o.1.0, o.1.1)
        &&& self.dirty_rows@.len() == o.1.0
        &&& self.chunk.spec_width() * self.chunk.spec_height() <= usize::MAX
    }

    /// Facts that follow from well-formedness.
    pub proof fn lemma_wf(&self)
        requires
            self.wf(),
        ensures
            self.spec_width() > 0,
            self.spec_height() > 0,
            1 <= self.owned().1.0 <= self.target_rows(),
            1 <= self.owned().1.1 <= self.target_cols(),
            self.owned().0.0 + self.owned().1.0 <= self.spec_height(),
            self.owned().0.1 + self.owned().1.1 <= self.spec_width(),
            self.loaded().1.0 <= self.chunk_rows(),
            self.loaded().1.1 <= self.chunk_cols(),
            self.loaded().0.0 <= self.owned().0.0,
            self.loaded().0.1 <= self.owned().0.1,
            self.owned().0.0 + self.owned().1.0 <= self.loaded().0.0 + self.loaded().1.0,
            self.owned().0.1 + self.owned().1.1 <= self.loaded().0.1 + self.loaded().1.1,
            self.loaded().0.0 + self.loaded().1.0 <= self.spec_height(),
            self.loaded().0.1 + self.loaded().1.1 <= self.spec_width(),
    {
        let w = self.board_width as int;
        let h = self.board_height as int;
        let tr = self.target_owned_rows as int;
        let tc = self.target_owned_cols as int;
        let o = self.owned();
        assert(o.0.0 + tr - 1 < h + tr - 1);
    }

    /// The board as far as the chunk shows it, as a function.
    pub open spec fn view(&self) -> spec_fn(int, int) -> CellState {
        |x: int, y: int| self.global_cell(x, y)
    }

    pub closed spec fn chunk_rows(&self) -> int {
        self.chunk.spec_height() as int
    }

    pub closed spec fn chunk_cols(&self) -> int {
        self.chunk.spec_width() as int
    }

    pub fn width(&self) -> (r: usize)
        ensures
            r == self.spec_width(),
    {
        self.board_width
    }

    pub fn height(&self) -> (r: usize)
        ensures
            r == self.spec_height(),
    {
        self.board_height
    }

    /// The target owned chunk size `(rows, cols)`; chunks at the bottom and
    /// right edges may own less.
    pub fn target_owned_chunk(&self) -> (r: (usize, usize))
        ensures
            r.0 == self.target_rows(),
            r.1 == self.target_cols(),
    {
        (self.target_owned_rows, self.target_owned_cols)
    }

    /// Whether every chunk spans the full board width.
    pub fn is_row_band_fast_path(&self) -> (r: bool)
        ensures
            r == (self.target_cols() == self.spec_width()),
    {
        self.target_owned_cols == self.board_width
    }

    /// The owned rectangle: `(top, left, rows, cols)`.
    pub fn owned_window(&self) -> (r: (usize, usize, usize, usize))
        ensures
            r.0 == self.owned().0.0,
            r.1 == self.owned().0.1,
            r.2 == self.owned().1.0,
            r.3 == self.owned().1.1,
    {
        (self.owned_origin.0, self.owned_origin.1, self.owned_size.0, self.owned_size.1)
    }

    /// The loaded rectangle: `(top, left, rows, cols)`.
    pub fn loaded_window(&self) -> (r: (usize, usize, usize, usize))
        ensures
            r.0 == self.loaded().0.0,
            r.1 == self.loaded().0.1,
            r.2 == self.loaded().1.0,
            r.3 == self.loaded().1.1,
    {
        (self.loaded_origin.0, self.loaded_origin.1, self.loaded_size.0, self.loaded_size.1)
    }
}

/// The cells of owned row `i` of `b`, left to right.
pub open spec fn owned_row_cells(b: StreamingBoard, i: int) -> Seq<CellState> {
    Seq::new(b.owned().1.1 as nat, |j: int| b.global_cell(b.owned().0.1 + j, b.owned().0.0 + i))
}

/// The rows to write back, among the first `n` owned rows: `(row, first
/// column, cells)` for each dirty one, top to bottom.
pub open spec fn dirty_entries(b: StreamingBoard, n: nat) -> Seq<(int, int, Seq<CellState>)>
    decreases n,
{
    if n == 0 {
        Seq::empty()
    } else {
        let rest = dirty_entries(b, (n - 1) as nat);
        if b.dirty()[n - 1] {
            rest.push((b.owned().0.0 + n - 1, b.owned().0.1, owned_row_cells(b, n - 1)))
        } else {
            rest
        }
    }
}

/// Row entries as plain values.
pub open spec fn entries_view(s: Seq<(usize, usize, Vec<CellState>)>) -> Seq<(int, int, Seq<CellState>)> {
    s.map_values(|e: (usize, usize, Vec<CellState>)| (e.0 as int, e.1 as int, e.2@))
}

/// How many owned cells of `b` satisfy `f`.
pub open spec fn owned_count(b: StreamingBoard, f: spec_fn(CellState) -> bool) -> nat {
    grid_count(
        |a: int, c: int| f(b.global_cell(b.owned().0.1 + a, b.owned().0.0 + c)),
        b.owned().1.1 as nat,
        b.owned().1.0 as nat,
    )
}

/// `new` and `old` show the same chunk window on the same board.
pub open spec fn same_window(new: StreamingBoard, old: StreamingBoard) -> bool {
    &&& new.spec_width() == old.spec_width()
    &&& new.spec_height() == old.spec_height()
    &&& new.target_rows() == old.target_rows()
    &&& new.target_cols() == old.target_cols()
    &&& new.owned() == old.owned()
    &&& new.loaded() == old.loaded()
}

impl StreamingBoard {
    /// A streaming board of `width` x `height` dead cells, its chunk sized
    /// from the memory budget (or the overrides) and placed at the top
    /// left.
    pub fn new(
        width: usize,
        height: usize,
        max_board_memory_bytes: usize,
        chunk_rows_override: Option<usize>,
        chunk_cols_override: Option<usize>,
    ) -> (r: Result<Self, StreamingBoardCreationError>)
        requires
            width + 2 <= usize::MAX,
            height + 2 <= usize::MAX,
            chunk_dimensions(
                width as int,
                height as int,
                max_board_memory_bytes as int,
                chunk_rows_override,
                chunk_cols_override,
            ) matches Some(d) ==> min_int(d.0 + 2, height as int) * min_int(d.1 + 2, width as int)
                <= usize::MAX,
        ensures
            width == 0 || height == 0 ==> (r matches Err(StreamingBoardCreationError::InvalidDimensions { width: a, height: b })
                && a == width && b == height),
            width > 0 && height > 0 ==> match chunk_dimensions(
                width as int,
                height as int,
                max_board_memory_bytes as int,
                chunk_rows_override,
                chunk_cols_override,
            ) {
                None => r matches Err(StreamingBoardCreationError::InsufficientMemoryBudget { .. }),
                Some(d) => (r matches Ok(b) && {
                    &&& b.wf()
                    &&& b.spec_width() == width && b.spec_height() == height
                    &&& b.target_rows() == d.0 && b.target_cols() == d.1
                    &&& b.owned().0 == (0int, 0int)
                    &&& forall|x: int, y: int| #[trigger] b.global_cell(x, y) == CellState::Dead
                    &&& forall|i: int| 0 <= i < b.dirty().len() ==> !#[trigger] b.dirty()[i]
                }),
            },
    {
        if width == 0 || height == 0 {
            return Err(StreamingBoardCreationError::InvalidDimensions { width, height });
        }
        let (rows, cols) = match derive_chunk_dimensions(
            width,
            height,
            max_board_memory_bytes,
            chunk_rows_override,
            chunk_cols_override,
        ) {
            Ok(d) => d,
            Err(e) => return Err(e),
        };
        let ghost d = chunk_dimensions(
            width as int,
            height as int,
            max_board_memory_bytes as int,
            chunk_rows_override,
            chunk_cols_override,
        );
        proof {
            assert(d is Some);
            assert(rows == d.unwrap().0 && cols == d.unwrap().1);
            lemma_dimensions_in_range(
                width as int,
                height as int,
                max_board_memory_bytes as int,
                chunk_rows_override,
                chunk_cols_override,
            );
        }
        let max_rows = if rows + 2 < height { rows + 2 } else { height };
        let max_cols = if cols + 2 < width { cols + 2 } else { width };
        proof {
            assert(max_rows == min_int(d.unwrap().0 + 2, height as int));
            assert(max_cols == min_int(d.unwrap().1 + 2, width as int));
            assert(max_cols * max_rows == max_rows * max_cols) by (nonlinear_arith);
        }
        let chunk = InMemoryBoard::new(max_cols, max_rows);
        let orows = if rows < height { rows } else { height };
        let ocols = if cols < width { cols } else { width };
        let ly_end = if orows + 1 < height { orows + 1 } else { height };
        let lx_end = if ocols + 1 < width { ocols + 1 } else { width };
        let mut dirty_rows: Vec<bool> = Vec::new();
        let mut i: usize = 0;
        while i < orows
            invariant
                i <= orows,
                dirty_rows@.len() == i,
                forall|j: int| 0 <= j < i ==> !#[trigger] dirty_rows@[j],
            decreases orows - i,
        {
            dirty_rows.push(false);
            i = i + 1;
        }
        let b = StreamingBoard {
            board_width: width,
            board_height: height,
            chunk,
            loaded_origin: (0, 0),
            loaded_size: (ly_end, lx_end),
            owned_origin: (0, 0),
            owned_size: (orows, ocols),
            dirty_rows,
            target_owned_rows: rows,
            target_owned_cols: cols,
        };
        proof {
            assert forall|x: int, y: int| #[trigger] b.global_cell(x, y) == CellState::Dead by {
                if b.is_loaded(x, y) {
                    assert(in_bounds(max_cols as int, max_rows as int, x, y));
                }
            }
        }
        Ok(b)
    }

    /// The cell at `(x, y)` of the loaded rectangle.
    pub fn get_loaded(&self, x: usize, y: usize) -> (r: CellState)
        requires
            self.wf(),
            self.is_loaded(x as int, y as int),
        ensures
            r == self.global_cell(x as int, y as int),
    {
        proof {
            self.lemma_wf();
        }
        self.chunk.get(x - self.loaded_origin.1, y - self.loaded_origin.0)
    }

    /// The cell at `(x, y)`: `Dead` off the board, else read from the
    /// loaded rectangle.
    pub fn chunk_cell_at_global(&self, x: usize, y: usize) -> (r: CellState)
        requires
            self.wf(),
            in_bounds(self.spec_width(), self.spec_height(), x as int, y as int) ==> self.is_loaded(
                x as int,
                y as int,
            ),
        ensures
            r == if in_bounds(self.spec_width(), self.spec_height(), x as int, y as int) {
                self.global_cell(x as int, y as int)
            } else {
                CellState::Dead
            },
    {
        if x >= self.board_width || y >= self.board_height {
            return CellState::Dead;
        }
        self.get_loaded(x, y)
    }

    fn live_exec(&self, x: usize, y: usize) -> (r: bool)
        requires
            self.wf(),
            in_bounds(self.spec_width(), self.spec_height(), x as int, y as int) ==> self.is_loaded(
                x as int,
                y as int,
            ),
        ensures
            r == live_at(self.view(), self.spec_width(), self.spec_height(), x as int, y as int),
    {
        if x < self.board_width && y < self.board_height {
            self.get_loaded(x, y).is_originally_alive()
        } else {
            false
        }
    }

    /// The number of originally-alive neighbors of owned cell `(x, y)`.
    fn count_live_neighbors(&self, x: usize, y: usize) -> (r: usize)
        requires
            self.wf(),
            self.is_owned(x as int, y as int),
        ensures
            r == live_neighbor_count(self.view(), self.spec_width(), self.spec_height(), x as int, y as int),
    {
        let ghost w = self.spec_width();
        let ghost h = self.spec_height();
        let ghost o = self.owned();
        proof {
            self.lemma_wf();
            assert forall|nx: int, ny: int|
                in_bounds(w, h, nx, ny) && x - 1 <= nx <= x + 1 && y - 1 <= ny <= y + 1 implies self.is_loaded(
                nx,
                ny,
            ) by {
                lemma_halo_covers(w, h, o.0.0, o.0.1, o.1.0, o.1.1, x as int, y as int, nx, ny);
            }
        }
        let mut n: usize = 0;
        if x > 0 && y > 0 && self.live_exec(x - 1, y - 1) {
            n = n + 1;
        }
        if y > 0 && self.live_exec(x, y - 1) {
            n = n + 1;
        }
        if y > 0 && self.live_exec(x + 1, y - 1) {
            n = n + 1;
        }
        if x > 0 && self.live_exec(x - 1, y) {
            n = n + 1;
        }
        if self.live_exec(x + 1, y) {
            n = n + 1;
        }
        if x > 0 && self.live_exec(x - 1, y + 1) {
            n = n + 1;
        }
        if self.live_exec(x, y + 1) {
            n = n + 1;
        }
        if self.live_exec(x + 1, y + 1) {
            n = n + 1;
        }
        n
    }
}

proof fn lemma_dimensions_in_range(
    width: int,
    height: int,
    budget: int,
    rows_override: Option<usize>,
    cols_override: Option<usize>,
)
    requires
        width >= 1,
        height >= 1,
        chunk_dimensions(width, height, budget, rows_override, cols_override) is Some,
    ensures
        ({
            let d = chunk_dimensions(width, height, budget, rows_override, cols_override)->0;
            1 <= d.0 <= height && 1 <= d.1 <= width
        }),
{
    let d = chunk_dimensions(width, height, budget, rows_override, cols_override)->0;
    if !(rows_override is Some && cols_override is Some) {
        match super::streaming_board::best_row_band(width, height, budget) {
            Some(r) => {},
            None => {},
        }
    }
}

/// The state the mark pass gives cell `(x, y)` of board `g`: its old and
/// its next liveness under `rule`.
pub open spec fn marked_cell<R: CellRule + ?Sized>(
    g: spec_fn(int, int) -> CellState,
    w: int,
    h: int,
    rule: &R,
    x: int,
    y: int,
) -> CellState {
    CellState::transition(live_at(g, w, h, x, y), next_alive(g, w, h, rule, x, y))
}

/// Owned cells of `b` that are coming alive, in owned coordinates.
pub open spec fn resurrecting_cells(b: StreamingBoard) -> spec_fn(int, int) -> bool {
    |a: int, c: int| b.global_cell(b.owned().0.1 + a, b.owned().0.0 + c) is Resurrecting
}

/// Owned cells of `b` that are dying, in owned coordinates.
pub open spec fn dying_cells(b: StreamingBoard) -> spec_fn(int, int) -> bool {
    |a: int, c: int| b.global_cell(b.owned().0.1 + a, b.owned().0.0 + c) is Dying
}

/// Owned cells of `b` that are alive once normalized, in owned coordinates.
pub open spec fn alive_after_cells(b: StreamingBoard) -> spec_fn(int, int) -> bool {
    |a: int, c: int| b.global_cell(b.owned().0.1 + a, b.owned().0.0 + c).normal_form() == CellState::Alive
}

/// Owned row-major order inside the owned rectangle at `(oy, ox)`: `(x,
/// y)` comes before owned offset `(dx, dy)`.
pub open spec fn visited(oy: int, ox: int, x: int, y: int, dx: int, dy: int) -> bool {
    y - oy < dy || (y - oy == dy && x - ox < dx)
}

impl StreamingBoard {
    /// Places the chunk at the position that owns `(x, y)`. The chunk's
    /// cells are then to be read from the scratch file, row by row, with
    /// `load_row`; the rows written since the last flush must have been
    /// written back first.
    pub fn move_to_chunk_containing(&mut self, x: usize, y: usize)
        requires
            old(self).wf(),
            (x as int) < old(self).spec_width(),
            (y as int) < old(self).spec_height(),
        ensures
            final(self).wf(),
            final(self).spec_width() == old(self).spec_width(),
            final(self).spec_height() == old(self).spec_height(),
            final(self).target_rows() == old(self).target_rows(),
            final(self).target_cols() == old(self).target_cols(),
            final(self).owned().0 == origin_for(old(self).target_rows(), old(self).target_cols(), x as int, y as int),
            final(self).is_owned(x as int, y as int),
            forall|i: int| 0 <= i < final(self).dirty().len() ==> !#[trigger] final(self).dirty()[i],
    {
        let tr = self.target_owned_rows;
        let tc = self.target_owned_cols;
        proof {
            lemma_owned_partition(
                self.board_width as int,
                self.board_height as int,
                tr as int,
                tc as int,
                x as int,
                y as int,
                0,
                0,
            );
        }
        let oy = (y / tr) * tr;
        let ox = (x / tc) * tc;
        let rows = if tr < self.board_height - oy { tr } else { self.board_height - oy };
        let cols = if tc < self.board_width - ox { tc } else { self.board_width - ox };
        let ys = if oy == 0 { 0 } else { oy - 1 };
        let xs = if ox == 0 { 0 } else { ox - 1 };
        let ye = if oy + rows + 1 < self.board_height { oy + rows + 1 } else { self.board_height };
        let xe = if ox + cols + 1 < self.board_width { ox + cols + 1 } else { self.board_width };
        let mut dirty_rows: Vec<bool> = Vec::new();
        let mut i: usize = 0;
        while i < rows
            invariant
                i <= rows,
                dirty_rows@.len() == i,
                forall|j: int| 0 <= j < i ==> !#[trigger] dirty_rows@[j],
            decreases rows - i,
        {
            dirty_rows.push(false);
            i = i + 1;
        }
        self.owned_origin = (oy, ox);
        self.owned_size = (rows, cols);
        self.loaded_origin = (ys, xs);
        self.loaded_size = (ye - ys, xe - xs);
        self.dirty_rows = dirty_rows;
    }

    /// Takes the cells read from the scratch file for loaded row `local_y`
    /// (counted from the top of the loaded rectangle).
    pub fn load_row(&mut self, local_y: usize, cells: &[CellState])
        requires
            old(self).wf(),
            (local_y as int) < old(self).loaded().1.0,
            cells@.len() == old(self).loaded().1.1,
        ensures
            final(self).wf(),
            same_window(*final(self), *old(self)),
            final(self).dirty() == old(self).dirty(),
            forall|x: int, y: int| #[trigger]
                final(self).global_cell(x, y) == if old(self).is_loaded(x, y) && y == old(self).loaded().0.0
                    + local_y {
                    cells@[x - old(self).loaded().0.1]
                } else {
                    old(self).global_cell(x, y)
                },
    {
        proof {
            self.lemma_wf();
        }
        let cols = self.loaded_size.1;
        let ghost c0 = self.chunk;
        let mut i: usize = 0;
        while i < cols
            invariant
                old(self).wf(),
                i <= cols,
                cols == old(self).loaded().1.1,
                cells@.len() == cols,
                (local_y as int) < old(self).loaded().1.0,
                old(self).loaded().1.0 <= old(self).chunk_rows(),
                old(self).loaded().1.1 <= old(self).chunk_cols(),
                c0 == old(self).chunk,
                self.board_width == old(self).board_width,
                self.board_height == old(self).board_height,
                self.target_owned_rows == old(self).target_owned_rows,
                self.target_owned_cols == old(self).target_owned_cols,
                self.owned_origin == old(self).owned_origin,
                self.owned_size == old(self).owned_size,
                self.loaded_origin == old(self).loaded_origin,
                self.loaded_size == old(self).loaded_size,
                self.dirty_rows == old(self).dirty_rows,
                self.chunk.spec_width() == c0.spec_width(),
                self.chunk.spec_height() == c0.spec_height(),
                forall|a: int, b: int|
                    in_bounds(c0.spec_width() as int, c0.spec_height() as int, a, b) ==> #[trigger] self.chunk.cell(a, b)
                        == if b == local_y && a < i {
                        cells@[a]
                    } else {
                        c0.cell(a, b)
                    },
            decreases cols - i,
        {
            self.chunk.set(i, local_y, cells[i]);
            i = i + 1;
        }
    }

    /// Writes `state` into owned cell `(x, y)` and marks its row dirty.
    pub fn set_owned_cell(&mut self, x: usize, y: usize, state: CellState)
        requires
            old(self).wf(),
            old(self).is_owned(x as int, y as int),
        ensures
            final(self).wf(),
            same_window(*final(self), *old(self)),
            final(self).dirty() == old(self).dirty().update(y - old(self).owned().0.0, true),
            forall|px: int, py: int| #[trigger]
                final(self).global_cell(px, py) == if px == x && py == y {
                    state
                } else {
                    old(self).global_cell(px, py)
                },
    {
        proof {
            self.lemma_wf();
        }
        self.chunk.set(x - self.loaded_origin.1, y - self.loaded_origin.0, state);
        self.dirty_rows.set(y - self.owned_origin.0, true);
    }

    /// Marks every row as written back.
    pub fn clear_dirty(&mut self)
        requires
            old(self).wf(),
        ensures
            final(self).wf(),
            same_window(*final(self), *old(self)),
            final(self).dirty().len() == old(self).dirty().len(),
            forall|i: int| 0 <= i < final(self).dirty().len() ==> !#[trigger] final(self).dirty()[i],
            forall|x: int, y: int| #[trigger] final(self).global_cell(x, y) == old(self).global_cell(x, y),
    {
        let n = self.dirty_rows.len();
        let mut i: usize = 0;
        while i < n
            invariant
                i <= n,
                n == self.dirty_rows@.len(),
                self.dirty_rows@.len() == old(self).dirty_rows@.len(),
                self.board_width == old(self).board_width,
                self.board_height == old(self).board_height,
                self.target_owned_rows == old(self).target_owned_rows,
                self.target_owned_cols == old(self).target_owned_cols,
                self.owned_origin == old(self).owned_origin,
                self.owned_size == old(self).owned_size,
                self.loaded_origin == old(self).loaded_origin,
                self.loaded_size == old(self).loaded_size,
                self.chunk == old(self).chunk,
                forall|j: int| 0 <= j < i ==> !#[trigger] self.dirty_rows@[j],
            decreases n - i,
        {
            self.dirty_rows.set(i, false);
            i = i + 1;
        }
    }

    /// The rows to write back to the scratch file: `(row, first column,
    /// cells)` for each owned row written since the last flush, top to
    /// bottom.
    pub fn dirty_row_cells(&self) -> (r: Vec<(usize, usize, Vec<CellState>)>)
        requires
            self.wf(),
        ensures
            entries_view(r@) == dirty_entries(*self, self.owned().1.0 as nat),
    {
        proof {
            self.lemma_wf();
        }
        let (oy, ox) = self.owned_origin;
        let (orows, ocols) = self.owned_size;
        let mut out: Vec<(usize, usize, Vec<CellState>)> = Vec::new();
        let mut i: usize = 0;
        while i < orows
            invariant
                self.wf(),
                i <= orows,
                oy == self.owned().0.0,
                ox == self.owned().0.1,
                orows == self.owned().1.0,
                ocols == self.owned().1.1,
                self.loaded().0.0 <= oy,
                self.loaded().0.1 <= ox,
                oy + orows <= self.loaded().0.0 + self.loaded().1.0,
                ox + ocols <= self.loaded().0.1 + self.loaded().1.1,
                entries_view(out@) == dirty_entries(*self, i as nat),
            decreases orows - i,
        {
            if self.dirty_rows[i] {
                let mut row: Vec<CellState> = Vec::new();
                let mut j: usize = 0;
                while j < ocols
                    invariant
                        self.wf(),
                        j <= ocols,
                        i < orows,
                        oy == self.owned().0.0,
                        ox == self.owned().0.1,
                        orows == self.owned().1.0,
                        ocols == self.owned().1.1,
                        self.loaded().0.0 <= oy,
                        self.loaded().0.1 <= ox,
                        oy + orows <= self.loaded().0.0 + self.loaded().1.0,
                        ox + ocols <= self.loaded().0.1 + self.loaded().1.1,
                        row@.len() == j,
                        forall|m: int| 0 <= m < j ==> row@[m] == #[trigger] owned_row_cells(*self, i as int)[m],
                    decreases ocols - j,
                {
                    row.push(self.get_loaded(ox + j, oy + i));
                    j = j + 1;
                }
                proof {
                    assert(row@ =~= owned_row_cells(*self, i as int));
                }
                let ghost before = out@;
                out.push((oy + i, ox, row));
                proof {
                    assert(entries_view(out@) =~= entries_view(before).push(
                        (oy + i, ox as int, owned_row_cells(*self, i as int)),
                    ));
                }
            }
            i = i + 1;
        }
        out
    }
}

impl StreamingBoard {
    /// The mark pass on the chunk: every owned cell gets the transitional
    /// state that records its liveness and its liveness in the next
    /// generation under `rule`, counted from the originally-alive cells
    /// of the loaded rectangle (cells marked before still count as they
    /// were). All owned rows become dirty.
    #[verifier::spinoff_prover]
    #[verifier::rlimit(50)]
    pub fn mark_current_chunk<R: CellRule + ?Sized>(&mut self, rule: &R)
        requires
            old(self).wf(),
        ensures
            final(self).wf(),
            same_window(*final(self), *old(self)),
            final(self).dirty().len() == old(self).dirty().len(),
            forall|i: int| 0 <= i < final(self).dirty().len() ==> #[trigger] final(self).dirty()[i],
            forall|x: int, y: int| #[trigger]
                final(self).global_cell(x, y) == if old(self).is_owned(x, y) {
                    marked_cell(old(self).view(), old(self).spec_width(), old(self).spec_height(), rule, x, y)
                } else {
                    old(self).global_cell(x, y)
                },
    {
        proof {
            self.lemma_wf();
        }
        let ghost g0 = self.view();
        let ghost w = self.spec_width();
        let ghost h = self.spec_height();
        let (oy, ox) = self.owned_origin;
        let (orows, ocols) = self.owned_size;
        let mut dy: usize = 0;
        while dy < orows
            invariant
                self.wf(),
                same_window(*self, *old(self)),
                g0 == old(self).view(),
                w == old(self).spec_width(),
                h == old(self).spec_height(),
                oy == old(self).owned().0.0,
                ox == old(self).owned().0.1,
                orows == old(self).owned().1.0,
                ocols == old(self).owned().1.1,
                1 <= ocols,
                dy <= orows,
                self.dirty().len() == orows,
                forall|i: int| 0 <= i < dy ==> #[trigger] self.dirty()[i],
                forall|x: int, y: int| #[trigger]
                    self.global_cell(x, y) == if old(self).is_owned(x, y) && visited(
                        oy as int,
                        ox as int,
                        x,
                        y,
                        0,
                        dy as int,
                    ) {
                        marked_cell(g0, w, h, rule, x, y)
                    } else {
                        g0(x, y)
                    },
            decreases orows - dy,
        {
            let mut dx: usize = 0;
            while dx < ocols
                invariant
                    self.wf(),
                    same_window(*self, *old(self)),
                    g0 == old(self).view(),
                    w == old(self).spec_width(),
                    h == old(self).spec_height(),
                    oy == old(self).owned().0.0,
                    ox == old(self).owned().0.1,
                    orows == old(self).owned().1.0,
                    ocols == old(self).owned().1.1,
                    1 <= ocols,
                    dy < orows,
                    dx <= ocols,
                    self.dirty().len() == orows,
                    forall|i: int| 0 <= i < dy ==> #[trigger] self.dirty()[i],
                    dx > 0 ==> self.dirty()[dy as int],
                    forall|x: int, y: int| #[trigger]
                        self.global_cell(x, y) == if old(self).is_owned(x, y) && visited(
                            oy as int,
                            ox as int,
                            x,
                            y,
                            dx as int,
                            dy as int,
                        ) {
                            marked_cell(g0, w, h, rule, x, y)
                        } else {
                            g0(x, y)
                        },
                decreases ocols - dx,
            {
                let gx = ox + dx;
                let gy = oy + dy;
                proof {
                    self.lemma_wf();
                    assert forall|px: int, py: int| in_bounds(w, h, px, py) implies (#[trigger] self.view()(
                        px,
                        py,
                    )).was_alive() == g0(px, py).was_alive() by {
                        assert(self.view()(px, py) == self.global_cell(px, py));
                        if old(self).is_owned(px, py) && visited(oy as int, ox as int, px, py, dx as int, dy as int) {
                            crate::board::cell_state::lemma_transition_round_trip(
                                live_at(g0, w, h, px, py),
                                next_alive(g0, w, h, rule, px, py),
                            );
                        }
                    }
                    super::grid::lemma_live_count_agrees(self.view(), g0, w, h, gx as int, gy as int);
                    assert(self.global_cell(gx as int, gy as int) == g0(gx as int, gy as int));
                }
                let current = self.get_loaded(gx, gy);
                let was_alive = current.is_originally_alive();
                let live = self.count_live_neighbors(gx, gy);
                let will_be_alive = rule.next_state(was_alive, live);
                let ghost before = *self;
                self.chunk.set(gx - self.loaded_origin.1, gy - self.loaded_origin.0, CellState::from_transition(was_alive, will_be_alive));
                self.dirty_rows.set(dy, true);
                proof {
                    assert(live_at(g0, w, h, gx as int, gy as int) == was_alive);
                    assert forall|x: int, y: int| #[trigger]
                        self.global_cell(x, y) == if old(self).is_owned(x, y) && visited(
                            oy as int,
                            ox as int,
                            x,
                            y,
                            dx + 1,
                            dy as int,
                        ) {
                            marked_cell(g0, w, h, rule, x, y)
                        } else {
                            g0(x, y)
                        } by {
                        assert(before.global_cell(x, y) == if old(self).is_owned(x, y) && visited(
                            oy as int,
                            ox as int,
                            x,
                            y,
                            dx as int,
                            dy as int,
                        ) {
                            marked_cell(g0, w, h, rule, x, y)
                        } else {
                            g0(x, y)
                        });
                        if self.is_loaded(x, y) {
                            assert(in_bounds(
                                self.chunk_cols(),
                                self.chunk_rows(),
                                x - self.loaded().0.1,
                                y - self.loaded().0.0,
                            ));
                        }
                    }
                }
                dx = dx + 1;
            }
            proof {
                assert forall|x: int, y: int| #[trigger]
                    self.global_cell(x, y) == if old(self).is_owned(x, y) && visited(
                        oy as int,
                        ox as int,
                        x,
                        y,
                        0,
                        dy + 1,
                    ) {
                        marked_cell(g0, w, h, rule, x, y)
                    } else {
                        g0(x, y)
                    } by {
                    assert(self.global_cell(x, y) == if old(self).is_owned(x, y) && visited(
                        oy as int,
                        ox as int,
                        x,
                        y,
                        ocols as int,
                        dy as int,
                    ) {
                        marked_cell(g0, w, h, rule, x, y)
                    } else {
                        g0(x, y)
                    });
                }
            }
            dy = dy + 1;
        }
        proof {
            assert forall|x: int, y: int| #[trigger]
                self.global_cell(x, y) == if old(self).is_owned(x, y) {
                    marked_cell(g0, w, h, rule, x, y)
                } else {
                    old(self).global_cell(x, y)
                } by {
                assert(g0(x, y) == old(self).global_cell(x, y));
            }
        }
    }
}

impl StreamingBoard {
    /// The normalize pass on the chunk: every owned cell takes its
    /// two-state form, and the owned cells coming alive, dying, and alive
    /// afterwards are counted. All owned rows become dirty.
    #[verifier::spinoff_prover]
    #[verifier::rlimit(50)]
    pub fn normalize_current_chunk(&mut self) -> (r: AdvanceOutcome)
        requires
            old(self).wf(),
        ensures
            final(self).wf(),
            same_window(*final(self), *old(self)),
            final(self).dirty().len() == old(self).dirty().len(),
            forall|i: int| 0 <= i < final(self).dirty().len() ==> #[trigger] final(self).dirty()[i],
            forall|x: int, y: int| #[trigger]
                final(self).global_cell(x, y) == if old(self).is_owned(x, y) {
                    old(self).global_cell(x, y).normal_form()
                } else {
                    old(self).global_cell(x, y)
                },
            r.births == grid_count(
                resurrecting_cells(*old(self)),
                old(self).owned().1.1 as nat,
                old(self).owned().1.0 as nat,
            ),
            r.deaths == grid_count(dying_cells(*old(self)), old(self).owned().1.1 as nat, old(self).owned().1.0 as nat),
            r.alive_count == grid_count(
                alive_after_cells(*old(self)),
                old(self).owned().1.1 as nat,
                old(self).owned().1.0 as nat,
            ),
    {
        proof {
            self.lemma_wf();
        }
        let ghost b0 = *self;
        let ghost fb = resurrecting_cells(b0);
        let ghost fd = dying_cells(b0);
        let ghost fa = alive_after_cells(b0);
        let (oy, ox) = self.owned_origin;
        let (orows, ocols) = self.owned_size;
        let ghost wn = ocols as nat;
        let ghost hn = orows as nat;
        proof {
            assert(ocols * orows <= self.chunk_cols() * self.chunk_rows()) by (nonlinear_arith)
                requires
                    ocols <= self.chunk_cols(),
                    orows <= self.chunk_rows(),
                    0 <= ocols,
                    0 <= orows,
            ;
            assert(self.chunk_cols() * self.chunk_rows() <= usize::MAX);
        }
        let mut births: u64 = 0;
        let mut deaths: u64 = 0;
        let mut alive: u64 = 0;
        let mut dy: usize = 0;
        while dy < orows
            invariant
                self.wf(),
                same_window(*self, b0),
                b0 == *old(self),
                fb == resurrecting_cells(b0),
                fd == dying_cells(b0),
                fa == alive_after_cells(b0),
                oy == b0.owned().0.0,
                ox == b0.owned().0.1,
                orows == b0.owned().1.0,
                ocols == b0.owned().1.1,
                wn == ocols,
                hn == orows,
                ocols * orows <= usize::MAX,
                1 <= ocols,
                dy <= orows,
                self.dirty().len() == orows,
                forall|i: int| 0 <= i < dy ==> #[trigger] self.dirty()[i],
                births == grid_count(fb, wn, dy as nat),
                deaths == grid_count(fd, wn, dy as nat),
                alive == grid_count(fa, wn, dy as nat),
                forall|x: int, y: int| #[trigger]
                    self.global_cell(x, y) == if b0.is_owned(x, y) && visited(oy as int, ox as int, x, y, 0, dy as int) {
                        b0.global_cell(x, y).normal_form()
                    } else {
                        b0.global_cell(x, y)
                    },
            decreases orows - dy,
        {
            let mut dx: usize = 0;
            while dx < ocols
                invariant
                    self.wf(),
                    same_window(*self, b0),
                    b0 == *old(self),
                    fb == resurrecting_cells(b0),
                    fd == dying_cells(b0),
                    fa == alive_after_cells(b0),
                    oy == b0.owned().0.0,
                    ox == b0.owned().0.1,
                    orows == b0.owned().1.0,
                    ocols == b0.owned().1.1,
                    wn == ocols,
                    hn == orows,
                    ocols * orows <= usize::MAX,
                    1 <= ocols,
                    dy < orows,
                    dx <= ocols,
                    self.dirty().len() == orows,
                    forall|i: int| 0 <= i < dy ==> #[trigger] self.dirty()[i],
                    dx > 0 ==> self.dirty()[dy as int],
                    births == grid_count(fb, wn, dy as nat) + row_count(fb, dy as int, dx as nat),
                    deaths == grid_count(fd, wn, dy as nat) + row_count(fd, dy as int, dx as nat),
                    alive == grid_count(fa, wn, dy as nat) + row_count(fa, dy as int, dx as nat),
                    forall|x: int, y: int| #[trigger]
                        self.global_cell(x, y) == if b0.is_owned(x, y) && visited(
                            oy as int,
                            ox as int,
                            x,
                            y,
                            dx as int,
                            dy as int,
                        ) {
                            b0.global_cell(x, y).normal_form()
                        } else {
                            b0.global_cell(x, y)
                        },
                decreases ocols - dx,
            {
                let gx = ox + dx;
                let gy = oy + dy;
                proof {
                    self.lemma_wf();
                    super::grid::lemma_prefix_count_bound(fb, wn, dy as nat, dx as nat);
                    super::grid::lemma_prefix_count_bound(fd, wn, dy as nat, dx as nat);
                    super::grid::lemma_prefix_count_bound(fa, wn, dy as nat, dx as nat);
                    super::grid::lemma_prefix_lt_area(wn, hn, dy as nat, dx as nat);
                    assert(self.global_cell(gx as int, gy as int) == b0.global_cell(gx as int, gy as int));
                }
                let raw = self.get_loaded(gx, gy);
                proof {
                    assert(raw == b0.global_cell(gx as int, gy as int));
                    assert(fb(dx as int, dy as int) == (b0.global_cell(ox + dx, oy + dy) is Resurrecting));
                    assert(fd(dx as int, dy as int) == (b0.global_cell(ox + dx, oy + dy) is Dying));
                    assert(fa(dx as int, dy as int) == (b0.global_cell(ox + dx, oy + dy).normal_form() == CellState::Alive));
                }
                match raw {
                    CellState::Resurrecting => births = births + 1,
                    CellState::Dying => deaths = deaths + 1,
                    _ => {},
                }
                let normalized = raw.normalized();
                if normalized == CellState::Alive {
                    alive = alive + 1;
                }
                let ghost before = *self;
                self.chunk.set(gx - self.loaded_origin.1, gy - self.loaded_origin.0, normalized);
                self.dirty_rows.set(dy, true);
                proof {
                    assert(fb(dx as int, dy as int) == (raw is Resurrecting));
                    assert(fd(dx as int, dy as int) == (raw is Dying));
                    assert(fa(dx as int, dy as int) == (normalized == CellState::Alive));
                    assert forall|x: int, y: int| #[trigger]
                        self.global_cell(x, y) == if b0.is_owned(x, y) && visited(
                            oy as int,
                            ox as int,
                            x,
                            y,
                            dx + 1,
                            dy as int,
                        ) {
                            b0.global_cell(x, y).normal_form()
                        } else {
                            b0.global_cell(x, y)
                        } by {
                        assert(before.global_cell(x, y) == if b0.is_owned(x, y) && visited(
                            oy as int,
                            ox as int,
                            x,
                            y,
                            dx as int,
                            dy as int,
                        ) {
                            b0.global_cell(x, y).normal_form()
                        } else {
                            b0.global_cell(x, y)
                        });
                        if self.is_loaded(x, y) {
                            assert(in_bounds(
                                self.chunk_cols(),
                                self.chunk_rows(),
                                x - self.loaded().0.1,
                                y - self.loaded().0.0,
                            ));
                        }
                    }
                }
                dx = dx + 1;
            }
            proof {
                assert forall|x: int, y: int| #[trigger]
                    self.global_cell(x, y) == if b0.is_owned(x, y) && visited(oy as int, ox as int, x, y, 0, dy + 1) {
                        b0.global_cell(x, y).normal_form()
                    } else {
                        b0.global_cell(x, y)
                    } by {
                    assert(self.global_cell(x, y) == if b0.is_owned(x, y) && visited(
                        oy as int,
                        ox as int,
                        x,
                        y,
                        ocols as int,
                        dy as int,
                    ) {
                        b0.global_cell(x, y).normal_form()
                    } else {
                        b0.global_cell(x, y)
                    });
                }
            }
            dy = dy + 1;
        }
        AdvanceOutcome::from_counts(births, deaths, alive)
    }
}

} // verus!

verus! {

pub open spec fn creation_error_prefix(e: StreamingBoardCreationError) -> Seq<char> {
    match e {
        StreamingBoardCreationError::Scratch(s) => crate::persistence::scratch::scratch_error_text(s),
        StreamingBoardCreationError::InvalidDimensions { width, height } => "Streaming board dimensions "@
            + crate::text::decimal_digits(width as nat) + "x"@ + crate::text::decimal_digits(height as nat)
            + " must both be positive."@,
        StreamingBoardCreationError::InsufficientMemoryBudget {
            width,
            height,
            max_memory_bytes,
            required_min_bytes,
            suggested_min_bytes,
        } => "Streaming board for "@ + crate::text::decimal_digits(width as nat) + "x"@
            + crate::text::decimal_digits(height as nat) + " requires at least "@
            + crate::text::decimal_digits(required_min_bytes as nat)
            + " bytes of working memory (the minimum 3x3 loaded chunk plus dirty-row tracking) but --max-board-memory is "@
            + crate::text::decimal_digits(max_memory_bytes as nat) + " bytes. Try --max-board-memory "@
            + crate::text::decimal_digits(suggested_min_bytes as nat) + "."@,
        StreamingBoardCreationError::WorkingDirUnavailable { path, .. } =>
            "Could not prepare --working-dir '"@ + path@ + "' for the scratch file: "@,
    }
}

/// Whether the message of `e` is its text alone, with no system
/// description of an I/O error after it.
pub open spec fn creation_error_exact(e: StreamingBoardCreationError) -> bool {
    match e {
        StreamingBoardCreationError::Scratch(s) => !(s is Io),
        StreamingBoardCreationError::WorkingDirUnavailable { .. } => false,
        _ => true,
    }
}

fn push_usize(s: &mut String, n: usize)
    ensures
        final(s)@ == old(s)@ + crate::text::decimal_digits(n as nat),
{
    crate::config::messages::push_decimal(s, n as u64);
}

impl StreamingBoardCreationError {
    /// The error as the user sees it; an I/O error is followed by the
    /// system's description.
    pub fn message(&self) -> (r: String)
        ensures
            crate::persistence::messages::describes(r@, creation_error_prefix(*self), creation_error_exact(*self)),
    {
        let mut s = String::new();
        match self {
            StreamingBoardCreationError::Scratch(e) => {
                return e.message();
            },
            StreamingBoardCreationError::InvalidDimensions { width, height } => {
                crate::text::push_str(&mut s, "Streaming board dimensions ");
                push_usize(&mut s, *width);
                crate::text::push_str(&mut s, "x");
                push_usize(&mut s, *height);
                crate::text::push_str(&mut s, " must both be positive.");
            },
            StreamingBoardCreationError::InsufficientMemoryBudget {
                width,
                height,
                max_memory_bytes,
                required_min_bytes,
                suggested_min_bytes,
            } => {
                crate::text::push_str(&mut s, "Streaming board for ");
                push_usize(&mut s, *width);
                crate::text::push_str(&mut s, "x");
                push_usize(&mut s, *height);
                crate::text::push_str(&mut s, " requires at least ");
                push_usize(&mut s, *required_min_bytes);
                crate::text::push_str(
                    &mut s,
                    " bytes of working memory (the minimum 3x3 loaded chunk plus dirty-row tracking) but --max-board-memory is ",
                );
                push_usize(&mut s, *max_memory_bytes);
                crate::text::push_str(&mut s, " bytes. Try --max-board-memory ");
                push_usize(&mut s, *suggested_min_bytes);
                crate::text::push_str(&mut s, ".");
            },
            StreamingBoardCreationError::WorkingDirUnavailable { path, source } => {
                crate::text::push_str(&mut s, "Could not prepare --working-dir '");
                crate::text::push_str(&mut s, path.as_str());
                crate::text::push_str(&mut s, "' for the scratch file: ");
                let ghost prefix = s@;
                crate::text::push_str(&mut s, crate::persistence::messages::io_error_text(source).as_str());
                proof {
                    assert(prefix =~= creation_error_prefix(*self));
                    assert(s@.take(prefix.len() as int) =~= prefix);
                }
                return s;
            },
        }
        proof {
            assert(s@ =~= creation_error_prefix(*self));
        }
        s
    }
}

} // verus!
