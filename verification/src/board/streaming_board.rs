//! Chunk sizing for boards that are paged through a scratch file.
//!
//! A streaming board keeps one rectangular chunk of cells in memory: the
//! cells it owns plus a one-cell halo on each side. The owned dimensions are
//! derived from the memory budget, preferring a chunk that spans the full
//! board width (a "row band") whenever the budget allows it.
use vstd::prelude::*;
use crate::board::CellState;
use crate::persistence::scratch::ScratchFileError;

verus! {

/// Errors returned when a streaming board is set up.
#[derive(Debug)]
pub enum StreamingBoardCreationError {
    Scratch(ScratchFileError),
    InvalidDimensions { width: usize, height: usize },
    InsufficientMemoryBudget {
        width: usize,
        height: usize,
        max_memory_bytes: usize,
        required_min_bytes: usize,
        suggested_min_bytes: usize,
    },
    WorkingDirUnavailable { path: String, source: std::io::Error },
}

/// Parameters used when constructing a streaming board.
#[derive(Debug, Clone)]
pub struct StreamingBoardParams<'a> {
    pub width: usize,
    pub height: usize,
    pub max_board_memory_bytes: usize,
    pub working_dir: Option<&'a str>,
    pub scratch_name_hint: &'a str,
    pub chunk_rows_override: Option<usize>,
    pub chunk_cols_override: Option<usize>,
}

/// `a * b`, saturating at `usize::MAX`.
pub open spec fn sat_mul(a: int, b: int) -> int {
    if a * b > usize::MAX { usize::MAX as int } else { a * b }
}

/// `a + b`, saturating at `usize::MAX`.
pub open spec fn sat_add(a: int, b: int) -> int {
    if a + b > usize::MAX { usize::MAX as int } else { a + b }
}

/// Bytes that one in-memory cell takes.
pub open spec fn cell_bytes() -> int {
    vstd::layout::size_of::<CellState>() as int
}

/// Bytes that one dirty-row flag takes.
pub open spec fn flag_bytes() -> int {
    vstd::layout::size_of::<bool>() as int
}

/// Working-set cost of a chunk owning `rows` x `cols` cells: the loaded
/// `(rows + 2) x (cols + 2)` rectangle plus one dirty flag per owned row,
/// each product and the sum saturating.
pub open spec fn ram_cost(rows: int, cols: int) -> int {
    sat_add(
        sat_mul(sat_mul(rows + 2, cols + 2), cell_bytes()),
        sat_mul(rows, flag_bytes()),
    )
}

/// The smallest budget a streaming board accepts: one owned cell.
pub open spec fn min_required_bytes() -> int {
    ram_cost(1, 1)
}

/// Whether a full-width chunk of `rows` owned rows fits the budget.
pub open spec fn row_band_fits(width: int, rows: int, budget: int) -> bool {
    ram_cost(rows, width) <= budget
}

/// The largest number of owned rows in `1..=height` for which a full-width
/// chunk fits, if any does.
pub open spec fn best_row_band(width: int, height: int, budget: int) -> Option<int> {
    if exists|r: int| 1 <= r <= height && row_band_fits(width, r, budget) {
        Some(choose|r: int|
            1 <= r <= height && row_band_fits(width, r, budget) && forall|q: int|
                r < q <= height ==> !#[trigger] row_band_fits(width, q, budget))
    } else {
        None
    }
}

/// Owned columns of the one-row chunk used when not even a one-row band fits.
pub open spec fn two_d_cols(width: int, budget: int) -> int {
    let available = if budget - flag_bytes() < 0 { 0 } else { budget - flag_bytes() };
    let denom = if sat_mul(3, cell_bytes()) < 1 { 1 } else { sat_mul(3, cell_bytes()) };
    let c = if available / denom - 2 < 0 { 0 } else { available / denom - 2 };
    let c1 = if c == 0 { 1 } else { c };
    if c1 < width { c1 } else { width }
}

pub open spec fn clamp_dim(v: int, limit: int) -> int {
    let at_least_one = if v < 1 { 1 } else { v };
    if at_least_one < limit { at_least_one } else { limit }
}

/// Whether `derive_chunk_dimensions` runs its own search (no pair of
/// overrides, budget above the minimum).
pub open spec fn searches(
    max_memory_bytes: int,
    rows_override: Option<usize>,
    cols_override: Option<usize>,
) -> bool {
    max_memory_bytes >= min_required_bytes() && !(rows_override is Some && cols_override is Some)
}

/// The owned chunk dimensions chosen for a board and budget.
pub open spec fn chunk_dimensions(
    width: int,
    height: int,
    max_memory_bytes: int,
    rows_override: Option<usize>,
    cols_override: Option<usize>,
) -> Option<(int, int)> {
    if max_memory_bytes < min_required_bytes() {
        None
    } else if rows_override is Some && cols_override is Some {
        Some((clamp_dim(rows_override->0 as int, height), clamp_dim(cols_override->0 as int, width)))
    } else {
        match best_row_band(width, height, max_memory_bytes) {
            Some(r) => Some((clamp_dim(r, height), width)),
            None => Some((if 1 < height { 1 } else { height }, two_d_cols(width, max_memory_bytes))),
        }
    }
}

proof fn lemma_sat_mul_monotone(a1: int, a2: int, b: int)
    requires
        0 <= a1 <= a2,
        0 <= b,
    ensures
        sat_mul(a1, b) <= sat_mul(a2, b),
        0 <= sat_mul(a1, b),
{
    assert(a1 * b <= a2 * b) by (nonlinear_arith)
        requires
            0 <= a1 <= a2,
            0 <= b,
    ;
    assert(0 <= a1 * b) by (nonlinear_arith)
        requires
            0 <= a1,
            0 <= b,
    ;
}

/// A chunk with more owned rows never costs less.
proof fn lemma_ram_cost_monotone(r1: int, r2: int, cols: int)
    requires
        0 <= r1 <= r2,
        0 <= cols,
    ensures
        ram_cost(r1, cols) <= ram_cost(r2, cols),
{
    lemma_sat_mul_monotone(r1 + 2, r2 + 2, cols + 2);
    lemma_sat_mul_monotone(sat_mul(r1 + 2, cols + 2), sat_mul(r2 + 2, cols + 2), cell_bytes());
    lemma_sat_mul_monotone(r1, r2, flag_bytes());
}

fn saturating_mul(a: usize, b: usize) -> (r: usize)
    ensures
        r == sat_mul(a as int, b as int),
{
    match a.checked_mul(b) {
        Some(p) => p,
        None => usize::MAX,
    }
}

fn chunk_cost(owned_rows: usize, owned_cols: usize, cell: usize, flag: usize) -> (r: usize)
    requires
        owned_rows + 2 <= usize::MAX,
        owned_cols + 2 <= usize::MAX,
        cell == cell_bytes(),
        flag == flag_bytes(),
    ensures
        r == ram_cost(owned_rows as int, owned_cols as int),
{
    let loaded_rows = owned_rows + 2;
    let loaded_cols = owned_cols + 2;
    saturating_mul(saturating_mul(loaded_rows, loaded_cols), cell).saturating_add(
        saturating_mul(owned_rows, flag),
    )
}

/// Working-set RAM cost of a chunk owning `owned_rows` x `owned_cols` cells.
pub fn ram_cost_for(owned_rows: usize, owned_cols: usize) -> (r: usize)
    requires
        owned_rows + 2 <= usize::MAX,
        owned_cols + 2 <= usize::MAX,
    ensures
        r == ram_cost(owned_rows as int, owned_cols as int),
{
    chunk_cost(owned_rows, owned_cols, core::mem::size_of::<CellState>(), core::mem::size_of::<bool>())
}

fn best_owned_rows_for_full_width(
    board_width: usize,
    board_height: usize,
    max_memory_bytes: usize,
    cell: usize,
    flag: usize,
) -> (r: Option<usize>)
    requires
        board_width + 2 <= usize::MAX,
        board_height + 2 <= usize::MAX,
        cell == cell_bytes(),
        flag == flag_bytes(),
    ensures
        match r {
            Some(rows) => {
                &&& 1 <= rows <= board_height
                &&& row_band_fits(board_width as int, rows as int, max_memory_bytes as int)
                &&& forall|q: int|
                    rows < q <= board_height ==> !#[trigger] row_band_fits(
                        board_width as int,
                        q,
                        max_memory_bytes as int,
                    )
            },
            None => forall|q: int|
                1 <= q <= board_height ==> !#[trigger] row_band_fits(
                    board_width as int,
                    q,
                    max_memory_bytes as int,
                ),
        },
{
    let ghost w = board_width as int;
    let ghost m = max_memory_bytes as int;
    let mut lo: usize = 1;
    let mut hi: usize = board_height;
    let mut best: Option<usize> = None;
    while lo <= hi
        invariant_except_break
            1 <= lo <= hi + 1,
            hi <= board_height,
            board_width + 2 <= usize::MAX,
            board_height + 2 <= usize::MAX,
            cell == cell_bytes(),
            flag == flag_bytes(),
            w == board_width,
            m == max_memory_bytes,
            best == (if lo == 1 { None::<usize> } else { Some((lo - 1) as usize) }),
            lo > 1 ==> row_band_fits(w, lo - 1, m),
            forall|q: int| hi < q <= board_height ==> !#[trigger] row_band_fits(w, q, m),
        ensures
            match best {
                Some(rows) => {
                    &&& 1 <= rows <= board_height
                    &&& row_band_fits(w, rows as int, m)
                    &&& forall|q: int| rows < q <= board_height ==> !#[trigger] row_band_fits(w, q, m)
                },
                None => forall|q: int| 1 <= q <= board_height ==> !#[trigger] row_band_fits(w, q, m),
            },
        decreases hi + 1 - lo,
    {
        let mid = lo + (hi - lo) / 2;
        let cost = chunk_cost(mid, board_width, cell, flag);
        if cost <= max_memory_bytes {
            best = Some(mid);
            if mid == hi {
                break;
            }
            lo = mid + 1;
        } else {
            assert forall|q: int| mid <= q <= board_height implies !#[trigger] row_band_fits(w, q, m) by {
                lemma_ram_cost_monotone(mid as int, q, w);
            }
            if mid == 1 {
                return None;
            }
            hi = mid - 1;
        }
    }
    best
}

fn derive_2d_chunk(board_width: usize, max_memory_bytes: usize, cell: usize, flag: usize) -> (r: (
    usize,
    usize,
))
    requires
        cell == cell_bytes(),
        flag == flag_bytes(),
    ensures
        r.0 == 1,
        r.1 == two_d_cols(board_width as int, max_memory_bytes as int),
{
    let owned_rows: usize = 1;
    let available_for_cells = max_memory_bytes.saturating_sub(flag);
    let denom = saturating_mul(3, cell);
    let denom = if denom < 1 { 1 } else { denom };
    let max_c_plus_2 = available_for_cells / denom;
    let mut owned_cols = max_c_plus_2.saturating_sub(2);
    if owned_cols == 0 {
        owned_cols = 1;
    }
    if board_width < owned_cols {
        owned_cols = board_width;
    }
    (owned_rows, owned_cols)
}

fn clamp_to(v: usize, limit: usize) -> (r: usize)
    ensures
        r == clamp_dim(v as int, limit as int),
{
    let at_least_one = if v < 1 { 1 } else { v };
    if at_least_one < limit { at_least_one } else { limit }
}

/// Derives the owned chunk dimensions `(rows, cols)` from the memory budget
/// and the optional overrides: width first, so a full-width row band is used
/// whenever the budget affords one.
pub fn derive_chunk_dimensions(
    board_width: usize,
    board_height: usize,
    max_memory_bytes: usize,
    chunk_rows_override: Option<usize>,
    chunk_cols_override: Option<usize>,
) -> (r: Result<(usize, usize), StreamingBoardCreationError>)
    requires
        searches(max_memory_bytes as int, chunk_rows_override, chunk_cols_override) ==> {
            &&& board_width + 2 <= usize::MAX
            &&& board_height + 2 <= usize::MAX
        },
    ensures
        match chunk_dimensions(
            board_width as int,
            board_height as int,
            max_memory_bytes as int,
            chunk_rows_override,
            chunk_cols_override,
        ) {
            Some(dims) => r matches Ok(got) && got.0 == dims.0 && got.1 == dims.1,
            None => r matches Err(StreamingBoardCreationError::InsufficientMemoryBudget {
                width,
                height,
                max_memory_bytes: budget,
                required_min_bytes,
                suggested_min_bytes,
            }) && width == board_width && height == board_height && budget == max_memory_bytes
                && required_min_bytes == min_required_bytes() && suggested_min_bytes
                == min_required_bytes(),
        },
{
    let cell = core::mem::size_of::<CellState>();
    let flag = core::mem::size_of::<bool>();
    let min_required_bytes = chunk_cost(1, 1, cell, flag);
    if max_memory_bytes < min_required_bytes {
        return Err(
            StreamingBoardCreationError::InsufficientMemoryBudget {
                width: board_width,
                height: board_height,
                max_memory_bytes,
                required_min_bytes: min_required_bytes,
                suggested_min_bytes: min_required_bytes,
            },
        );
    }
    if let (Some(rows), Some(cols)) = (chunk_rows_override, chunk_cols_override) {
        return Ok((clamp_to(rows, board_height), clamp_to(cols, board_width)));
    }
    let ghost w = board_width as int;
    let ghost h = board_height as int;
    let ghost m = max_memory_bytes as int;
    match best_owned_rows_for_full_width(board_width, board_height, max_memory_bytes, cell, flag) {
        Some(rows) => {
            proof {
                assert(exists|q: int| 1 <= q <= h && row_band_fits(w, q, m)) by {
                    assert(row_band_fits(w, rows as int, m));
                }
                let c = choose|q: int|
                    1 <= q <= h && row_band_fits(w, q, m) && forall|p: int|
                        q < p <= h ==> !#[trigger] row_band_fits(w, p, m);
                assert(1 <= rows <= h && row_band_fits(w, rows as int, m) && forall|p: int|
                    rows < p <= h ==> !#[trigger] row_band_fits(w, p, m));
                if c < rows {
                    assert(!row_band_fits(w, rows as int, m));
                }
                if c > rows {
                    assert(!row_band_fits(w, c, m));
                }
                assert(best_row_band(w, h, m) == Some(rows as int));
            }
            Ok((clamp_to(rows, board_height), board_width))
        },
        None => {
            let (rows, cols) = derive_2d_chunk(board_width, max_memory_bytes, cell, flag);
            let rows = if rows < board_height { rows } else { board_height };
            Ok((rows, cols))
        },
    }
}

} // verus!
