//! Compact board signatures: the board's size, its alive count and one bit
//! per cell, row-major, least significant bit first within each byte.
use vstd::prelude::*;

use crate::stats::AdvanceOutcome;

use super::grid::{grid_count, in_bounds, lemma_grid_count_bound, lemma_prefix_count_bound, lemma_prefix_lt_area, row_count};
use super::view::BoardView;
use super::{CellCoordinate, CellState};

verus! {

/// Bit `i` of a row-major bit set stored in bytes.
pub open spec fn bit_set(bytes: Seq<u8>, i: int) -> bool {
    (bytes[i / 8] >> ((i % 8) as u8)) & 1u8 == 1u8
}

/// Bytes needed for `w * h` bits, the products saturating as the
/// accumulator computes them.
pub open spec fn byte_count(w: nat, h: nat) -> nat {
    let cells = if w * h > usize::MAX { usize::MAX as nat } else { w * h };
    let padded = if cells + 7 > usize::MAX { usize::MAX as nat } else { cells + 7 };
    padded / 8
}

proof fn lemma_bit_update(b: u8, k: u8, j: u8)
    by (bit_vector)
    requires
        k < 8,
        j < 8,
    ensures
        ((b | (1u8 << k)) >> j) & 1u8 == if j == k {
            1u8
        } else {
            (b >> j) & 1u8
        },
{
}

proof fn lemma_zero_bits(j: u8)
    by (bit_vector)
    requires
        j < 8,
    ensures
        (0u8 >> j) & 1u8 == 0u8,
{
}

/// A board's size, alive count and cell bits.
#[derive(Debug, Clone, PartialEq, Eq, Hash)]
pub struct BoardSignature {
    width: usize,
    height: usize,
    alive_count: u64,
    cells: Vec<u8>,
}

impl View for BoardSignature {
    type V = (usize, usize, u64, Seq<u8>);

    closed spec fn view(&self) -> (usize, usize, u64, Seq<u8>) {
        (self.width, self.height, self.alive_count, self.cells@)
    }
}

impl BoardSignature {
    pub fn width(&self) -> (r: usize)
        ensures
            r == self@.0,
    {
        self.width
    }

    pub fn height(&self) -> (r: usize)
        ensures
            r == self@.1,
    {
        self.height
    }

    pub fn alive_count(&self) -> (r: u64)
        ensures
            r == self@.2,
    {
        self.alive_count
    }

    pub fn cells(&self) -> (r: &[u8])
        ensures
            r@ == self@.3,
    {
        self.cells.as_slice()
    }

    /// A copy of this signature.
    pub fn duplicate(&self) -> (r: Self)
        ensures
            r@ == self@,
    {
        let mut cells: Vec<u8> = Vec::new();
        let mut i: usize = 0;
        while i < self.cells.len()
            invariant
                i <= self.cells@.len(),
                cells@ == self.cells@.take(i as int),
            decreases self.cells@.len() - i,
        {
            cells.push(self.cells[i]);
            i += 1;
            proof {
                assert(cells@ =~= self.cells@.take(i as int));
            }
        }
        proof {
            assert(self.cells@.take(i as int) =~= self.cells@);
        }
        BoardSignature { width: self.width, height: self.height, alive_count: self.alive_count, cells }
    }

    /// Whether two signatures are equal, field by field.
    pub fn same_as(&self, other: &BoardSignature) -> (r: bool)
        ensures
            r == (self@ == other@),
    {
        if self.width != other.width || self.height != other.height || self.alive_count
            != other.alive_count || self.cells.len() != other.cells.len() {
            return false;
        }
        let mut i: usize = 0;
        while i < self.cells.len()
            invariant
                i <= self.cells@.len() == other.cells@.len(),
                forall|j: int| 0 <= j < i ==> self.cells@[j] == other.cells@[j],
            decreases self.cells@.len() - i,
        {
            if self.cells[i] != other.cells[i] {
                return false;
            }
            i += 1;
        }
        proof {
            assert(self.cells@ =~= other.cells@);
        }
        true
    }

    /// The signature of a board: its size, the number of cells that are
    /// alive once normalized, and one bit per cell telling which.
    pub fn from_view<B: BoardView + ?Sized>(board: &B) -> (r: Result<Self, B::Error>)
        requires
            board.view_width() * board.view_height() + 7 <= usize::MAX,
        ensures
            board.is_infallible() ==> r is Ok,
            r matches Ok(sig) ==> {
                let w = board.view_width();
                let h = board.view_height();
                let f = |x: int, y: int| board.view_cell(x, y).normal_form() == CellState::Alive;
                &&& sig@.0 == w
                &&& sig@.1 == h
                &&& sig@.2 == grid_count(f, w, h)
                &&& sig@.3.len() == byte_count(w, h)
                &&& forall|i: int|
                    0 <= i < sig@.3.len() * 8 ==> #[trigger] bit_set(sig@.3, i) == (i < w * h && f(
                        i % (w as int),
                        i / (w as int),
                    ))
            },
    {
        let w = board.width();
        let h = board.height();
        let ghost f = |x: int, y: int| board.view_cell(x, y).normal_form() == CellState::Alive;
        let mut accumulator = BoardSignatureAccumulator::new(w, h);
        let mut y: usize = 0;
        while y < h
            invariant
                w == board.view_width(),
                h == board.view_height(),
                w * h + 7 <= usize::MAX,
                y <= h,
                f == (|x: int, y: int| board.view_cell(x, y).normal_form() == CellState::Alive),
                accumulator.wf(),
                accumulator.acc_width() == w,
                accumulator.acc_height() == h,
                accumulator.acc_alive() == grid_count(f, w as nat, y as nat),
                forall|i: int|
                    0 <= i < accumulator.bytes().len() * 8 ==> #[trigger] bit_set(accumulator.bytes(), i)
                        == (i < w * y && f(i % (w as int), i / (w as int))),
            decreases h - y,
        {
            let mut x: usize = 0;
            while x < w
                invariant
                    w == board.view_width(),
                    h == board.view_height(),
                    w * h + 7 <= usize::MAX,
                    y < h,
                    x <= w,
                    f == (|x: int, y: int| board.view_cell(x, y).normal_form() == CellState::Alive),
                    accumulator.wf(),
                    accumulator.acc_width() == w,
                    accumulator.acc_height() == h,
                    accumulator.acc_alive() == grid_count(f, w as nat, y as nat) + row_count(f, y as int, x as nat),
                    forall|i: int|
                        0 <= i < accumulator.bytes().len() * 8 ==> #[trigger] bit_set(accumulator.bytes(), i)
                            == (i < w * y + x && f(i % (w as int), i / (w as int))),
                decreases w - x,
            {
                proof {
                    lemma_prefix_count_bound(f, w as nat, y as nat, x as nat);
                    lemma_prefix_lt_area(w as nat, h as nat, y as nat, x as nat);
                }
                let coordinate = CellCoordinate::new(x, y);
                let state = match board.cell_state(coordinate) {
                    Ok(s) => s,
                    Err(e) => {
                        return Err(e);
                    },
                };
                let ghost before = accumulator.bytes();
                accumulator.observe(coordinate, state);
                proof {
                    let idx = w * y + x;
                    assert(idx % (w as int) == x && idx / (w as int) == y) by (nonlinear_arith)
                        requires
                            idx == w * y + x,
                            x < w,
                    ;
                    assert forall|i: int|
                        0 <= i < accumulator.bytes().len() * 8 implies #[trigger] bit_set(
                        accumulator.bytes(),
                        i,
                    ) == (i < w * y + x + 1 && f(i % (w as int), i / (w as int))) by {
                        if i != idx {
                            assert(bit_set(accumulator.bytes(), i) == bit_set(before, i));
                        }
                    }
                }
                x += 1;
            }
            proof {
                assert(w * y + w == w * (y + 1)) by (nonlinear_arith);
            }
            y += 1;
        }
        proof {
            lemma_grid_count_bound(f, w as nat, h as nat);
        }
        Ok(accumulator.finish())
    }
}

/// Whether observing `state` at `c` counts on a `w` x `h` board: the cell
/// is on the board and alive once normalized.
pub open spec fn counts_alive(w: nat, h: nat, c: CellCoordinate, state: CellState) -> bool {
    in_bounds(w as int, h as int, c.x as int, c.y as int) && state.normal_form() == CellState::Alive
}

/// `new` is `old` after observing `state` at `c`.
pub open spec fn observed(
    old: BoardSignatureAccumulator,
    c: CellCoordinate,
    state: CellState,
    new: BoardSignatureAccumulator,
) -> bool {
    let idx = old.acc_width() * c.y + c.x;
    &&& new.wf()
    &&& new.acc_width() == old.acc_width()
    &&& new.acc_height() == old.acc_height()
    &&& new.bytes().len() == old.bytes().len()
    &&& if counts_alive(old.acc_width(), old.acc_height(), c, state) {
        &&& new.acc_alive() == old.acc_alive() + 1
        &&& forall|i: int|
            0 <= i < new.bytes().len() * 8 ==> #[trigger] bit_set(new.bytes(), i) == (i == idx || bit_set(
                old.bytes(),
                i,
            ))
    } else {
        &&& new.acc_alive() == old.acc_alive()
        &&& new.bytes() == old.bytes()
    }
}

/// How many of the observations count as alive cells on a `w` x `h` board.
pub open spec fn alive_observations(w: nat, h: nat, obs: Seq<(CellCoordinate, CellState)>) -> nat
    decreases obs.len(),
{
    if obs.len() == 0 {
        0
    } else {
        alive_observations(w, h, obs.drop_last()) + if counts_alive(w, h, obs.last().0, obs.last().1) {
            1nat
        } else {
            0nat
        }
    }
}

/// Whether one of the observations is an alive cell at bit `j`.
pub open spec fn marks_bit(w: nat, h: nat, obs: Seq<(CellCoordinate, CellState)>, j: int) -> bool {
    exists|i: int|
        0 <= i < obs.len() && counts_alive(w, h, obs[i].0, obs[i].1) && #[trigger] obs[i].0.y * w + obs[i].0.x == j
}

/// A signature accumulated from a fresh accumulator for a `w` x `h` board
/// through the observations `obs`, in order, has that board's size, one
/// alive count per observation of an alive on-board cell, and the bit of
/// exactly those cells set.
pub proof fn lemma_accumulated(
    w: nat,
    h: nat,
    obs: Seq<(CellCoordinate, CellState)>,
    accs: Seq<BoardSignatureAccumulator>,
    sig: BoardSignature,
)
    requires
        accs.len() == obs.len() + 1,
        accs[0].wf(),
        accs[0].acc_width() == w,
        accs[0].acc_height() == h,
        accs[0].acc_alive() == 0,
        accs[0].bytes().len() == byte_count(w, h),
        forall|i: int| 0 <= i < accs[0].bytes().len() * 8 ==> !#[trigger] bit_set(accs[0].bytes(), i),
        forall|i: int| 0 <= i < obs.len() ==> observed(accs[i], (#[trigger] obs[i]).0, obs[i].1, accs[i + 1]),
        sig@.0 == accs.last().acc_width(),
        sig@.1 == accs.last().acc_height(),
        sig@.2 == accs.last().acc_alive(),
        sig@.3 == accs.last().bytes(),
    ensures
        sig@.0 == w,
        sig@.1 == h,
        sig@.3.len() == byte_count(w, h),
        sig@.2 == alive_observations(w, h, obs),
        forall|j: int| 0 <= j < sig@.3.len() * 8 ==> (#[trigger] bit_set(sig@.3, j) <==> marks_bit(w, h, obs, j)),
{
    lemma_accumulated_prefix(w, h, obs, accs, obs.len() as int);
    assert(obs.take(obs.len() as int) =~= obs);
    assert(accs.last() == accs[obs.len() as int]);
}

proof fn lemma_accumulated_prefix(
    w: nat,
    h: nat,
    obs: Seq<(CellCoordinate, CellState)>,
    accs: Seq<BoardSignatureAccumulator>,
    n: int,
)
    requires
        accs.len() == obs.len() + 1,
        accs[0].wf(),
        accs[0].acc_width() == w,
        accs[0].acc_height() == h,
        accs[0].acc_alive() == 0,
        accs[0].bytes().len() == byte_count(w, h),
        forall|i: int| 0 <= i < accs[0].bytes().len() * 8 ==> !#[trigger] bit_set(accs[0].bytes(), i),
        forall|i: int| 0 <= i < obs.len() ==> observed(accs[i], (#[trigger] obs[i]).0, obs[i].1, accs[i + 1]),
        0 <= n <= obs.len(),
    ensures
        accs[n].acc_width() == w,
        accs[n].acc_height() == h,
        accs[n].bytes().len() == byte_count(w, h),
        accs[n].acc_alive() == alive_observations(w, h, obs.take(n)),
        forall|j: int|
            0 <= j < accs[n].bytes().len() * 8 ==> (#[trigger] bit_set(accs[n].bytes(), j) <==> marks_bit(
                w,
                h,
                obs.take(n),
                j,
            )),
    decreases n,
{
    if n == 0 {
        assert(alive_observations(w, h, obs.take(0)) == 0);
    } else {
        let m = n - 1;
        lemma_accumulated_prefix(w, h, obs, accs, m);
        assert(observed(accs[m], obs[m].0, obs[m].1, accs[m + 1]));
        let t = obs.take(n);
        assert(t.drop_last() =~= obs.take(m));
        assert(t.last() == obs[m]);
        assert forall|j: int|
            0 <= j < accs[n].bytes().len() * 8 implies (#[trigger] bit_set(accs[n].bytes(), j) <==> marks_bit(w, h, t, j)) by {
            if marks_bit(w, h, t, j) {
                let i = choose|i: int|
                    0 <= i < t.len() && counts_alive(w, h, t[i].0, t[i].1) && #[trigger] t[i].0.y * w + t[i].0.x == j;
                if i < m {
                    assert(obs.take(m)[i] == t[i]);
                    assert(marks_bit(w, h, obs.take(m), j));
                } else {
                    assert(w * obs[m].0.y == obs[m].0.y * w) by (nonlinear_arith);
                }
            }
            if bit_set(accs[n].bytes(), j) {
                if bit_set(accs[m].bytes(), j) {
                    assert(marks_bit(w, h, obs.take(m), j));
                    let i = choose|i: int|
                        0 <= i < obs.take(m).len() && counts_alive(w, h, obs.take(m)[i].0, obs.take(m)[i].1)
                            && #[trigger] obs.take(m)[i].0.y * w + obs.take(m)[i].0.x == j;
                    assert(t[i] == obs.take(m)[i]);
                } else {
                    assert(w * obs[m].0.y == obs[m].0.y * w) by (nonlinear_arith);
                    assert(t[m] == obs[m]);
                }
            }
        }
    }
}

/// Builds a signature one observed cell at a time.
#[derive(Debug, Clone)]
pub struct BoardSignatureAccumulator {
    width: usize,
    height: usize,
    alive_count: u64,
    cells: Vec<u8>,
}

impl BoardSignatureAccumulator {
    pub closed spec fn acc_width(&self) -> nat {
        self.width as nat
    }

    pub closed spec fn acc_height(&self) -> nat {
        self.height as nat
    }

    pub closed spec fn acc_alive(&self) -> nat {
        self.alive_count as nat
    }

    pub closed spec fn bytes(&self) -> Seq<u8> {
        self.cells@
    }

    /// The bit storage has room for every cell.
    pub closed spec fn wf(&self) -> bool {
        self.cells@.len() == byte_count(self.width as nat, self.height as nat)
    }

    /// An accumulator for a `width` x `height` board with no cell alive.
    pub fn new(width: usize, height: usize) -> (r: Self)
        ensures
            r.wf(),
            r.acc_width() == width,
            r.acc_height() == height,
            r.acc_alive() == 0,
            r.bytes().len() == byte_count(width as nat, height as nat),
            forall|i: int| 0 <= i < r.bytes().len() * 8 ==> !#[trigger] bit_set(r.bytes(), i),
    {
        let cell_count = match width.checked_mul(height) {
            Some(c) => c,
            None => usize::MAX,
        };
        let byte_count = cell_count.saturating_add(7) / 8;
        let mut cells: Vec<u8> = Vec::new();
        let mut k: usize = 0;
        while k < byte_count
            invariant
                k <= byte_count,
                cells@.len() == k,
                forall|j: int| 0 <= j < k ==> cells@[j] == 0u8,
            decreases byte_count - k,
        {
            cells.push(0u8);
            k += 1;
        }
        let r = Self { width, height, alive_count: 0, cells };
        proof {
            assert forall|i: int| 0 <= i < r.bytes().len() * 8 implies !#[trigger] bit_set(r.bytes(), i) by {
                lemma_zero_bits((i % 8) as u8);
            }
        }
        r
    }

    /// Records the state of one cell: an on-board cell that is alive once
    /// normalized counts once more and has its bit set; anything else is
    /// ignored.
    pub fn observe(&mut self, coordinate: CellCoordinate, state: CellState)
        requires
            old(self).wf(),
            old(self).acc_width() * old(self).acc_height() + 7 <= usize::MAX,
            in_bounds(old(self).acc_width() as int, old(self).acc_height() as int, coordinate.x as int, coordinate.y as int)
                && state.normal_form() == CellState::Alive ==> old(self).acc_alive() < u64::MAX,
        ensures
            observed(*old(self), coordinate, state, *final(self)),
    {
        if coordinate.x >= self.width || coordinate.y >= self.height {
            return;
        }
        if state.normalized() == CellState::Alive {
            self.alive_count += 1;
            proof {
                assert(coordinate.y * self.width + coordinate.x < self.width * self.height) by (nonlinear_arith)
                    requires
                        coordinate.x < self.width,
                        coordinate.y < self.height,
                ;
            }
            let index = coordinate.y * self.width + coordinate.x;
            proof {
                assert(coordinate.y * self.width == self.width * coordinate.y) by (nonlinear_arith);
            }
            let k = (index % 8) as u8;
            let ghost before = self.cells@;
            let b = self.cells[index / 8];
            self.cells.set(index / 8, b | (1u8 << k));
            proof {
                assert forall|i: int| 0 <= i < self.cells@.len() * 8 implies #[trigger] bit_set(self.cells@, i)
                    == (i == index || bit_set(before, i)) by {
                    lemma_bit_update(before[i / 8], k, (i % 8) as u8);
                    if i / 8 == index / 8 {
                        if i % 8 == index % 8 {
                            assert(i == index);
                        } else {
                            assert(i != index);
                        }
                    } else {
                        assert(i != index);
                    }
                }
            }
        }
    }

    /// The signature built so far.
    pub fn finish(self) -> (r: BoardSignature)
        ensures
            r@.0 == self.acc_width(),
            r@.1 == self.acc_height(),
            r@.2 == self.acc_alive(),
            r@.3 == self.bytes(),
    {
        BoardSignature {
            width: self.width,
            height: self.height,
            alive_count: self.alive_count,
            cells: self.cells,
        }
    }
}

/// What one generation step produced, with the new board's signature when
/// the board computes one.
#[derive(Debug, Clone, PartialEq, Eq)]
pub struct GenerationSummary {
    pub outcome: AdvanceOutcome,
    pub signature: Option<BoardSignature>,
}

impl GenerationSummary {
    pub fn new(outcome: AdvanceOutcome, signature: Option<BoardSignature>) -> (r: Self)
        ensures
            r.outcome == outcome,
            r.signature == signature,
    {
        Self { outcome, signature }
    }
}

/// A board that can produce its own signature.
pub trait BoardSignatureSource {
    type Error;

    fn board_signature(&mut self) -> Result<BoardSignature, Self::Error>;
}

} // verus!
