//! When a run's boards repeat: a board signature names exactly the cells
//! that are alive, so equal signatures mean equal boards, and a cycle
//! detector that keeps the signature of every generation of a run finds the
//! first generation that repeats an earlier one.
use vstd::prelude::*;

use vstd::arithmetic::div_mod::lemma_fundamental_div_mod_converse;

use crate::algorithms::in_place_transitional_updater::InPlaceTransitionalUpdater;
use crate::board::grid::{births_of, deaths_of, grid_count, in_bounds, live_at, next_alive, row_count};
use crate::board::signature::{bit_set, byte_count};
use crate::board::CellState;
use crate::pattern_analysis::{first_seen, SeenEntries};
use crate::simulation::{alive_in, births_after, conway_step, deaths_after, generation};

verus! {

/// The grids `g1` and `g2` have the same cells alive on a `w × h` board
/// (transitional states taken by what they settle to).
pub open spec fn same_alive(g1: spec_fn(int, int) -> CellState, g2: spec_fn(int, int) -> CellState, w: nat, h: nat) -> bool {
    forall|x: int, y: int|
        #![trigger g1(x, y), g2(x, y)]
        in_bounds(w as int, h as int, x, y) ==> (g1(x, y).normal_form() == CellState::Alive) == (g2(
            x,
            y,
        ).normal_form() == CellState::Alive)
}

/// No two of the first `n` generations of the run from `g0` have the same
/// cells alive.
pub open spec fn distinct_generations(g0: spec_fn(int, int) -> CellState, w: nat, h: nat, n: nat) -> bool {
    forall|i: nat, j: nat|
        #![trigger generation(g0, w as int, h as int, i), generation(g0, w as int, h as int, j)]
        i < j < n ==> !same_alive(generation(g0, w as int, h as int, i), generation(g0, w as int, h as int, j), w, h)
}

/// `key` is the signature of the grid `g` on a `w × h` board: its size, the
/// number of cells alive, and one bit per cell, row-major.
pub open spec fn signature_for(key: (usize, usize, u64, Seq<u8>), g: spec_fn(int, int) -> CellState, w: nat, h: nat) -> bool {
    &&& key.0 == w
    &&& key.1 == h
    &&& key.2 == alive_in(g, w, h)
    &&& key.3.len() == byte_count(w, h)
    &&& forall|i: int|
        0 <= i < key.3.len() * 8 ==> #[trigger] bit_set(key.3, i) == (i < w * h && g(
            i % (w as int),
            i / (w as int),
        ).normal_form() == CellState::Alive)
}

/// The detector entries `e` hold, in order, the signature of each of the
/// first `n` generations of the run from `g0`, each at its generation, and
/// no signature twice.
pub open spec fn tracks_generations(e: SeenEntries, g0: spec_fn(int, int) -> CellState, w: nat, h: nat, n: nat) -> bool {
    &&& e.len() == n
    &&& forall|j: int|
        0 <= j < n ==> #[trigger] e[j].1 == j && signature_for(
            e[j].0,
            generation(g0, w as int, h as int, j as nat),
            w,
            h,
        )
    &&& forall|i: int, j: int| 0 <= i < j < n ==> #[trigger] e[i].0 != #[trigger] e[j].0
}

proof fn lemma_row_count_agrees(f1: spec_fn(int, int) -> bool, f2: spec_fn(int, int) -> bool, y: int, n: nat)
    requires
        forall|x: int| 0 <= x < n ==> #[trigger] f1(x, y) == f2(x, y),
    ensures
        row_count(f1, y, n) == row_count(f2, y, n),
    decreases n,
{
    if n > 0 {
        lemma_row_count_agrees(f1, f2, y, (n - 1) as nat);
        assert(f1(n - 1, y) == f2(n - 1, y));
    }
}

/// Two predicates that agree on a `w × h` board count the same cells on it.
pub proof fn lemma_grid_count_agrees(f1: spec_fn(int, int) -> bool, f2: spec_fn(int, int) -> bool, w: nat, h: nat)
    requires
        forall|x: int, y: int| 0 <= x < w && 0 <= y < h ==> #[trigger] f1(x, y) == f2(x, y),
    ensures
        grid_count(f1, w, h) == grid_count(f2, w, h),
    decreases h,
{
    if h > 0 {
        lemma_grid_count_agrees(f1, f2, w, (h - 1) as nat);
        assert forall|x: int| 0 <= x < w implies #[trigger] f1(x, h - 1) == f2(x, h - 1) by {
            assert(f1(x, h - 1) == f2(x, h - 1));
        }
        lemma_row_count_agrees(f1, f2, h - 1, w);
    }
}

/// A predicate that counts no cell of a `w × h` board holds nowhere on it.
proof fn lemma_grid_count_zero(f: spec_fn(int, int) -> bool, w: nat, h: nat, x: int, y: int)
    requires
        grid_count(f, w, h) == 0,
        0 <= x < w,
        0 <= y < h,
    ensures
        !f(x, y),
    decreases h,
{
    if y < h - 1 {
        lemma_grid_count_zero(f, w, (h - 1) as nat, x, y);
    } else {
        lemma_row_count_zero(f, y, w, x);
    }
}

proof fn lemma_row_count_zero(f: spec_fn(int, int) -> bool, y: int, n: nat, x: int)
    requires
        row_count(f, y, n) == 0,
        0 <= x < n,
    ensures
        !f(x, y),
    decreases n,
{
    if x < n - 1 {
        lemma_row_count_zero(f, y, (n - 1) as nat, x);
    }
}

/// Cell `i` of a row-major `w × h` board, for `i < w * h`.
proof fn lemma_cell_index(i: int, w: nat, h: nat)
    requires
        0 <= i < w * h,
    ensures
        w > 0,
        in_bounds(w as int, h as int, i % (w as int), i / (w as int)),
{
    assert(w > 0) by (nonlinear_arith)
        requires
            0 <= i < w * h,
    ;
    assert(0 <= i / (w as int) < h && 0 <= i % (w as int) < w) by (nonlinear_arith)
        requires
            0 <= i < w * h,
            w > 0,
    ;
}

/// A signature of `g1` is one of every grid with the same cells alive.
pub proof fn lemma_signature_same_alive(key: (usize, usize, u64, Seq<u8>), g1: spec_fn(int, int) -> CellState, g2: spec_fn(int, int) -> CellState, w: nat, h: nat)
    requires
        signature_for(key, g1, w, h),
        same_alive(g1, g2, w, h),
    ensures
        signature_for(key, g2, w, h),
{
    let f1 = |x: int, y: int| g1(x, y).normal_form() == CellState::Alive;
    let f2 = |x: int, y: int| g2(x, y).normal_form() == CellState::Alive;
    assert forall|x: int, y: int| 0 <= x < w && 0 <= y < h implies #[trigger] f1(x, y) == f2(x, y) by {
        assert(in_bounds(w as int, h as int, x, y));
        assert(g1(x, y) == g1(x, y) && g2(x, y) == g2(x, y));
    }
    lemma_grid_count_agrees(f1, f2, w, h);
    assert forall|i: int| 0 <= i < key.3.len() * 8 implies #[trigger] bit_set(key.3, i) == (i < w * h
        && g2(i % (w as int), i / (w as int)).normal_form() == CellState::Alive) by {
        if i < w * h {
            lemma_cell_index(i, w, h);
            let x = i % (w as int);
            let y = i / (w as int);
            assert(g1(x, y) == g1(x, y) && g2(x, y) == g2(x, y));
        }
    }
}

/// Grids with the same signature have the same cells alive.
pub proof fn lemma_signature_determines(key: (usize, usize, u64, Seq<u8>), g1: spec_fn(int, int) -> CellState, g2: spec_fn(int, int) -> CellState, w: nat, h: nat)
    requires
        signature_for(key, g1, w, h),
        signature_for(key, g2, w, h),
        w * h + 7 <= usize::MAX,
    ensures
        same_alive(g1, g2, w, h),
{
    assert forall|x: int, y: int| #![trigger g1(x, y), g2(x, y)] in_bounds(w as int, h as int, x, y) implies (g1(
        x,
        y,
    ).normal_form() == CellState::Alive) == (g2(x, y).normal_form() == CellState::Alive) by {
        let i = y * w + x;
        assert(0 <= i < w * h && i % (w as int) == x && i / (w as int) == y) by (nonlinear_arith)
            requires
                i == y * w + x,
                0 <= x < w,
                0 <= y < h,
        ;
        let n = w * h;
        assert(key.3.len() == (n + 7) / 8);
        assert(i < key.3.len() * 8) by (nonlinear_arith)
            requires
                key.3.len() == (n + 7) / 8,
                i < n,
        ;
        assert(bit_set(key.3, i) == (i < w * h && g1(i % (w as int), i / (w as int)).normal_form()
            == CellState::Alive));
        assert(bit_set(key.3, i) == (i < w * h && g2(i % (w as int), i / (w as int)).normal_form()
            == CellState::Alive));
        assert(g1(i % (w as int), i / (w as int)) == g1(x, y));
        assert(g2(i % (w as int), i / (w as int)) == g2(x, y));
    }
}

proof fn lemma_byte_of_bits(a: u8, b: u8)
    by (bit_vector)
    requires
        ((a >> 0u8) & 1u8 == 1u8) == ((b >> 0u8) & 1u8 == 1u8),
        ((a >> 1u8) & 1u8 == 1u8) == ((b >> 1u8) & 1u8 == 1u8),
        ((a >> 2u8) & 1u8 == 1u8) == ((b >> 2u8) & 1u8 == 1u8),
        ((a >> 3u8) & 1u8 == 1u8) == ((b >> 3u8) & 1u8 == 1u8),
        ((a >> 4u8) & 1u8 == 1u8) == ((b >> 4u8) & 1u8 == 1u8),
        ((a >> 5u8) & 1u8 == 1u8) == ((b >> 5u8) & 1u8 == 1u8),
        ((a >> 6u8) & 1u8 == 1u8) == ((b >> 6u8) & 1u8 == 1u8),
        ((a >> 7u8) & 1u8 == 1u8) == ((b >> 7u8) & 1u8 == 1u8),
    ensures
        a == b,
{
}

/// Bit `r` of byte `q`.
proof fn lemma_bit_of_byte(bytes: Seq<u8>, q: int, r: u8)
    requires
        r < 8,
    ensures
        bit_set(bytes, 8 * q + r) == ((bytes[q] >> r) & 1u8 == 1u8),
{
    lemma_fundamental_div_mod_converse(8 * q + r, 8, q, r as int);
}

/// Bit `r` of byte `q` is the same in two bit sets that agree bit by bit.
proof fn lemma_bits_agree(a: Seq<u8>, b: Seq<u8>, q: int, r: u8)
    requires
        a.len() == b.len(),
        0 <= q < a.len(),
        r < 8,
        forall|i: int| 0 <= i < a.len() * 8 ==> #[trigger] bit_set(a, i) == bit_set(b, i),
    ensures
        ((a[q] >> r) & 1u8 == 1u8) == ((b[q] >> r) & 1u8 == 1u8),
{
    lemma_bit_of_byte(a, q, r);
    lemma_bit_of_byte(b, q, r);
    assert(0 <= 8 * q + r < a.len() * 8);
    assert(bit_set(a, 8 * q + r) == bit_set(b, 8 * q + r));
}

/// Grids with the same cells alive have the same signature.
pub proof fn lemma_signature_unique(k1: (usize, usize, u64, Seq<u8>), k2: (usize, usize, u64, Seq<u8>), g1: spec_fn(int, int) -> CellState, g2: spec_fn(int, int) -> CellState, w: nat, h: nat)
    requires
        signature_for(k1, g1, w, h),
        signature_for(k2, g2, w, h),
        same_alive(g1, g2, w, h),
    ensures
        k1 == k2,
{
    lemma_signature_same_alive(k1, g1, g2, w, h);
    let a = k1.3;
    let b = k2.3;
    assert forall|i: int| 0 <= i < a.len() * 8 implies #[trigger] bit_set(a, i) == bit_set(b, i) by {}
    assert forall|q: int| 0 <= q < a.len() implies a[q] == b[q] by {
        lemma_bits_agree(a, b, q, 0);
        lemma_bits_agree(a, b, q, 1);
        lemma_bits_agree(a, b, q, 2);
        lemma_bits_agree(a, b, q, 3);
        lemma_bits_agree(a, b, q, 4);
        lemma_bits_agree(a, b, q, 5);
        lemma_bits_agree(a, b, q, 6);
        lemma_bits_agree(a, b, q, 7);
        lemma_byte_of_bits(a[q], b[q]);
    }
    assert(a =~= b);
}

/// Entries that track every generation tell every two of those generations
/// apart.
pub proof fn lemma_tracked_distinct(e: SeenEntries, g0: spec_fn(int, int) -> CellState, w: nat, h: nat, n: nat)
    requires
        tracks_generations(e, g0, w, h, n),
    ensures
        distinct_generations(g0, w, h, n),
{
    assert forall|i: nat, j: nat|
        #![trigger generation(g0, w as int, h as int, i), generation(g0, w as int, h as int, j)]
        i < j < n implies !same_alive(generation(g0, w as int, h as int, i), generation(g0, w as int, h as int, j), w, h) by {
        assert(e[i as int].1 == i);
        assert(e[j as int].1 == j);
        if same_alive(generation(g0, w as int, h as int, i), generation(g0, w as int, h as int, j), w, h) {
            lemma_signature_unique(
                e[i as int].0,
                e[j as int].0,
                generation(g0, w as int, h as int, i),
                generation(g0, w as int, h as int, j),
                w,
                h,
            );
            assert(e[i as int].0 != e[j as int].0);
        }
    }
}

/// Where `first_seen` finds `key`: an entry holding it at the generation
/// reported; when it finds nothing, no entry holds `key`.
pub proof fn lemma_first_seen_at(e: SeenEntries, key: (usize, usize, u64, Seq<u8>)) -> (j: int)
    ensures
        first_seen(e, key) matches Some(g) ==> 0 <= j < e.len() && e[j].0 == key && e[j].1 == g,
        first_seen(e, key) is None ==> forall|i: int| 0 <= i < e.len() ==> #[trigger] e[i].0 != key,
    decreases e.len(),
{
    if e.len() == 0 {
        0
    } else if e[0].0 == key {
        0
    } else {
        let rest = e.drop_first();
        let j = lemma_first_seen_at(rest, key);
        assert forall|i: int| 0 < i < e.len() implies #[trigger] e[i] == rest[i - 1] by {}
        j + 1
    }
}

/// Tracking one more generation: its signature, seen for the first time.
pub proof fn lemma_track_new(
    e: SeenEntries,
    key: (usize, usize, u64, Seq<u8>),
    g0: spec_fn(int, int) -> CellState,
    w: nat,
    h: nat,
    n: nat,
)
    requires
        tracks_generations(e, g0, w, h, n),
        signature_for(key, generation(g0, w as int, h as int, n), w, h),
        first_seen(e, key) is None,
        n <= u64::MAX,
    ensures
        tracks_generations(e.push((key, n as u64)), g0, w, h, n + 1),
{
    let _ = lemma_first_seen_at(e, key);
    let e2 = e.push((key, n as u64));
    assert forall|i: int, j: int| 0 <= i < j < n + 1 implies #[trigger] e2[i].0 != #[trigger] e2[j].0 by {
        if j == n {
            assert(e2[i] == e[i]);
        } else {
            assert(e2[i] == e[i] && e2[j] == e[j]);
        }
    }
}

/// A generation whose signature was seen before repeats the generation it
/// was first seen at, and none of the generations before it repeats another.
pub proof fn lemma_track_repeat(
    e: SeenEntries,
    key: (usize, usize, u64, Seq<u8>),
    g0: spec_fn(int, int) -> CellState,
    w: nat,
    h: nat,
    n: nat,
)
    requires
        tracks_generations(e, g0, w, h, n),
        signature_for(key, generation(g0, w as int, h as int, n), w, h),
        first_seen(e, key) is Some,
        w * h + 7 <= usize::MAX,
    ensures
        first_seen(e, key)->0 < n,
        same_alive(generation(g0, w as int, h as int, first_seen(e, key)->0 as nat), generation(g0, w as int, h as int, n), w, h),
        distinct_generations(g0, w, h, n),
{
    let j = lemma_first_seen_at(e, key);
    let g = first_seen(e, key)->0;
    assert(e[j].1 == j);
    lemma_signature_determines(key, generation(g0, w as int, h as int, g as nat), generation(g0, w as int, h as int, n), w, h);
    lemma_tracked_distinct(e, g0, w, h, n);
}

/// A step that neither gives birth nor kills leads to another such step.
pub proof fn lemma_still_stays_still(g: spec_fn(int, int) -> CellState, w: nat, h: nat)
    requires
        births_after(g, w, h) == 0,
        deaths_after(g, w, h) == 0,
    ensures
        births_after(conway_step(g, w as int, h as int), w, h) == 0,
        deaths_after(conway_step(g, w as int, h as int), w, h) == 0,
{
    let wi = w as int;
    let hi = h as int;
    let r = InPlaceTransitionalUpdater;
    let g2 = conway_step(g, wi, hi);
    assert forall|x: int, y: int| #[trigger] live_at(g2, wi, hi, x, y) == live_at(g, wi, hi, x, y) by {
        if in_bounds(wi, hi, x, y) {
            if live_at(g, wi, hi, x, y) {
                lemma_grid_count_zero(deaths_of(g, wi, hi, &r), w, h, x, y);
            } else {
                lemma_grid_count_zero(births_of(g, wi, hi, &r), w, h, x, y);
            }
        }
    }
    assert forall|x: int, y: int| #[trigger] next_alive(g2, wi, hi, &r, x, y) == next_alive(g, wi, hi, &r, x, y) by {
        assert(live_at(g2, wi, hi, x - 1, y - 1) == live_at(g, wi, hi, x - 1, y - 1));
        assert(live_at(g2, wi, hi, x, y - 1) == live_at(g, wi, hi, x, y - 1));
        assert(live_at(g2, wi, hi, x + 1, y - 1) == live_at(g, wi, hi, x + 1, y - 1));
        assert(live_at(g2, wi, hi, x - 1, y) == live_at(g, wi, hi, x - 1, y));
        assert(live_at(g2, wi, hi, x, y) == live_at(g, wi, hi, x, y));
        assert(live_at(g2, wi, hi, x + 1, y) == live_at(g, wi, hi, x + 1, y));
        assert(live_at(g2, wi, hi, x - 1, y + 1) == live_at(g, wi, hi, x - 1, y + 1));
        assert(live_at(g2, wi, hi, x, y + 1) == live_at(g, wi, hi, x, y + 1));
        assert(live_at(g2, wi, hi, x + 1, y + 1) == live_at(g, wi, hi, x + 1, y + 1));
    }
    assert(births_of(g2, wi, hi, &r) =~= births_of(g, wi, hi, &r));
    assert(deaths_of(g2, wi, hi, &r) =~= deaths_of(g, wi, hi, &r));
}

/// The detector entries `e` hold the signatures of the boards `seen`, each
/// with the generation it was seen at, and no signature twice.
pub open spec fn tracks_seen(e: SeenEntries, seen: Seq<(u64, spec_fn(int, int) -> CellState)>, w: nat, h: nat) -> bool {
    &&& e.len() == seen.len()
    &&& forall|j: int|
        0 <= j < e.len() ==> #[trigger] e[j].1 == seen[j].0 && signature_for(e[j].0, seen[j].1, w, h)
    &&& forall|i: int, j: int| 0 <= i < j < e.len() ==> #[trigger] e[i].0 != #[trigger] e[j].0
}

/// No two of the boards `seen` have the same cells alive.
pub open spec fn distinct_seen(seen: Seq<(u64, spec_fn(int, int) -> CellState)>, w: nat, h: nat) -> bool {
    forall|i: int, j: int| 0 <= i < j < seen.len() ==> !same_alive(#[trigger] seen[i].1, #[trigger] seen[j].1, w, h)
}

/// The board seen at generation `start` among `seen` has the cells of `g`
/// alive.
pub open spec fn repeats_seen(seen: Seq<(u64, spec_fn(int, int) -> CellState)>, start: u64, g: spec_fn(int, int) -> CellState, w: nat, h: nat) -> bool {
    exists|j: int| 0 <= j < seen.len() && #[trigger] seen[j].0 == start && same_alive(seen[j].1, g, w, h)
}

/// Entries that track the boards seen tell every two of them apart.
pub proof fn lemma_seen_distinct(e: SeenEntries, seen: Seq<(u64, spec_fn(int, int) -> CellState)>, w: nat, h: nat)
    requires
        tracks_seen(e, seen, w, h),
    ensures
        distinct_seen(seen, w, h),
{
    assert forall|i: int, j: int| 0 <= i < j < seen.len() implies !same_alive(
        #[trigger] seen[i].1,
        #[trigger] seen[j].1,
        w,
        h,
    ) by {
        assert(e[i].1 == seen[i].0);
        assert(e[j].1 == seen[j].0);
        if same_alive(seen[i].1, seen[j].1, w, h) {
            lemma_signature_unique(e[i].0, e[j].0, seen[i].1, seen[j].1, w, h);
            assert(e[i].0 != e[j].0);
        }
    }
}

/// Seeing a board whose signature was not seen before.
pub proof fn lemma_seen_new(
    e: SeenEntries,
    seen: Seq<(u64, spec_fn(int, int) -> CellState)>,
    key: (usize, usize, u64, Seq<u8>),
    generation_seen: u64,
    g: spec_fn(int, int) -> CellState,
    w: nat,
    h: nat,
)
    requires
        tracks_seen(e, seen, w, h),
        signature_for(key, g, w, h),
        first_seen(e, key) is None,
    ensures
        tracks_seen(e.push((key, generation_seen)), seen.push((generation_seen, g)), w, h),
{
    let _ = lemma_first_seen_at(e, key);
    let e2 = e.push((key, generation_seen));
    let s2 = seen.push((generation_seen, g));
    assert forall|j: int| 0 <= j < e2.len() implies #[trigger] e2[j].1 == s2[j].0 && signature_for(
        e2[j].0,
        s2[j].1,
        w,
        h,
    ) by {
        if j < e.len() {
            assert(e2[j] == e[j] && s2[j] == seen[j]);
        }
    }
    assert forall|i: int, j: int| 0 <= i < j < e2.len() implies #[trigger] e2[i].0 != #[trigger] e2[j].0 by {
        if j == e.len() {
            assert(e2[i] == e[i]);
        } else {
            assert(e2[i] == e[i] && e2[j] == e[j]);
        }
    }
}

/// A board whose signature was seen before repeats the board seen at the
/// generation the signature was first seen at.
pub proof fn lemma_seen_repeat(
    e: SeenEntries,
    seen: Seq<(u64, spec_fn(int, int) -> CellState)>,
    key: (usize, usize, u64, Seq<u8>),
    g: spec_fn(int, int) -> CellState,
    w: nat,
    h: nat,
)
    requires
        tracks_seen(e, seen, w, h),
        signature_for(key, g, w, h),
        first_seen(e, key) is Some,
        w * h + 7 <= usize::MAX,
    ensures
        repeats_seen(seen, first_seen(e, key)->0, g, w, h),
{
    let j = lemma_first_seen_at(e, key);
    assert(e[j].1 == seen[j].0);
    lemma_signature_determines(key, seen[j].1, g, w, h);
}

} // verus!
