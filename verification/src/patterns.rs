//! Recognition of the common still lifes (block, beehive, loaf, boat, tub)
//! among the 8-connected components of alive cells.
use vstd::prelude::*;

use crate::board::{BoardView, CellCoordinate, CellState};
use crate::board::grid::{grid_count, in_bounds, row_count};

verus! {

/// Components with more cells than this are never in the catalog.
pub const MAX_CATALOG_PATTERN_CELLS: usize = 7;

#[derive(Debug, Clone, Copy, PartialEq, Eq, PartialOrd, Ord, Hash, Structural)]
pub enum StillLifePattern {
    Block,
    Beehive,
    Loaf,
    Boat,
    Tub,
}

/// Position of a pattern in the catalog (and in the order of `Ord`).
pub open spec fn pattern_rank(p: StillLifePattern) -> nat {
    match p {
        StillLifePattern::Block => 0,
        StillLifePattern::Beehive => 1,
        StillLifePattern::Loaf => 2,
        StillLifePattern::Boat => 3,
        StillLifePattern::Tub => 4,
    }
}

pub open spec fn pattern_name(p: StillLifePattern) -> Seq<char> {
    match p {
        StillLifePattern::Block => "block"@,
        StillLifePattern::Beehive => "beehive"@,
        StillLifePattern::Loaf => "loaf"@,
        StillLifePattern::Boat => "boat"@,
        StillLifePattern::Tub => "tub"@,
    }
}

impl StillLifePattern {
    pub fn as_str(self) -> (r: &'static str)
        ensures
            r@ == pattern_name(self),
    {
        match self {
            StillLifePattern::Block => "block",
            StillLifePattern::Beehive => "beehive",
            StillLifePattern::Loaf => "loaf",
            StillLifePattern::Boat => "boat",
            StillLifePattern::Tub => "tub",
        }
    }
}

#[derive(Debug, Clone, PartialEq, Eq)]
pub struct StillLifePatternCount {
    pub pattern: StillLifePattern,
    pub count: usize,
}

#[derive(Debug, Clone, PartialEq, Eq)]
pub struct StillLifePatternSummary {
    pub counts: Vec<StillLifePatternCount>,
    pub unknown_components: usize,
}

/// The count recorded for `p`, 0 if none is.
pub open spec fn count_of(counts: Seq<StillLifePatternCount>, p: StillLifePattern) -> nat
    decreases counts.len(),
{
    if counts.len() == 0 {
        0
    } else if counts[0].pattern == p {
        counts[0].count as nat
    } else {
        count_of(counts.drop_first(), p)
    }
}

pub open spec fn counts_total(counts: Seq<StillLifePatternCount>) -> nat
    decreases counts.len(),
{
    if counts.len() == 0 {
        0
    } else {
        counts[0].count as nat + counts_total(counts.drop_first())
    }
}

impl Default for StillLifePatternSummary {
    fn default() -> (r: Self)
        ensures
            r.counts@.len() == 0,
            r.unknown_components == 0,
    {
        StillLifePatternSummary { counts: Vec::new(), unknown_components: 0 }
    }
}

impl StillLifePatternSummary {
    /// The number of components recognized as `pattern`.
    pub fn count(&self, pattern: StillLifePattern) -> (r: usize)
        ensures
            r == count_of(self.counts@, pattern),
    {
        let mut i: usize = 0;
        proof {
            assert(self.counts@.skip(0) =~= self.counts@);
        }
        while i < self.counts.len()
            invariant
                i <= self.counts@.len(),
                count_of(self.counts@, pattern) == count_of(self.counts@.skip(i as int), pattern),
            decreases self.counts@.len() - i,
        {
            proof {
                assert(self.counts@.skip(i as int).drop_first() =~= self.counts@.skip(i + 1));
            }
            if self.counts[i].pattern == pattern {
                return self.counts[i].count;
            }
            i += 1;
        }
        0
    }

    /// The number of recognized components of all patterns.
    pub fn total_known_components(&self) -> (r: usize)
        requires
            counts_total(self.counts@) <= usize::MAX,
        ensures
            r == counts_total(self.counts@),
    {
        let mut total: usize = 0;
        let mut i: usize = self.counts.len();
        proof {
            assert(self.counts@.skip(i as int) =~= Seq::<StillLifePatternCount>::empty());
            assert(self.counts@.take(i as int) =~= self.counts@);
        }
        while i > 0
            invariant
                i <= self.counts@.len(),
                counts_total(self.counts@) <= usize::MAX,
                total == counts_total(self.counts@.skip(i as int)),
                counts_total(self.counts@) == counts_total(self.counts@.take(i as int)) + total,
            decreases i,
        {
            proof {
                lemma_counts_total_split(self.counts@.take(i as int), i - 1);
                assert(self.counts@.take(i as int).take(i - 1) =~= self.counts@.take(i - 1));
                assert(self.counts@.skip(i - 1).drop_first() =~= self.counts@.skip(i as int));
            }
            total = total + self.counts[i - 1].count;
            i -= 1;
        }
        proof {
            assert(self.counts@.skip(0) =~= self.counts@);
        }
        total
    }

    /// Whether any component was recognized.
    pub fn has_known_patterns(&self) -> (r: bool)
        requires
            counts_total(self.counts@) <= usize::MAX,
        ensures
            r == (counts_total(self.counts@) > 0),
    {
        self.total_known_components() > 0
    }
}

proof fn lemma_counts_total_split(c: Seq<StillLifePatternCount>, k: int)
    requires
        0 <= k < c.len(),
    ensures
        counts_total(c) == counts_total(c.take(k)) + c[k].count + counts_total(c.skip(k + 1)),
    decreases k,
{
    if k == 0 {
        assert(c.take(0) =~= Seq::<StillLifePatternCount>::empty());
        assert(c.drop_first() =~= c.skip(1));
    } else {
        lemma_counts_total_split(c.drop_first(), k - 1);
        assert(c.drop_first().take(k - 1) =~= c.take(k).drop_first());
        assert(c.drop_first().skip(k) =~= c.skip(k + 1));
        assert(c.take(k)[0] == c[0]);
    }
}

/// The symmetry `t` of the square (one of eight) applied to `p`.
pub open spec fn transform_spec(t: int, p: (i64, i64)) -> (int, int) {
    let x = p.0 as int;
    let y = p.1 as int;
    if t == 0 {
        (x, y)
    } else if t == 1 {
        (x, -y)
    } else if t == 2 {
        (-x, y)
    } else if t == 3 {
        (-x, -y)
    } else if t == 4 {
        (y, x)
    } else if t == 5 {
        (y, -x)
    } else if t == 6 {
        (-y, x)
    } else {
        (-y, -x)
    }
}

/// The eight symmetries of the square, as maps on points.
fn transform(t: usize, p: (i64, i64)) -> (r: (i64, i64))
    requires
        -8 <= p.0 <= 8,
        -8 <= p.1 <= 8,
    ensures
        -8 <= r.0 <= 8,
        -8 <= r.1 <= 8,
        r.0 as int == transform_spec(t as int, p).0,
        r.1 as int == transform_spec(t as int, p).1,
{
    let (x, y) = p;
    if t == 0 {
        (x, y)
    } else if t == 1 {
        (x, -y)
    } else if t == 2 {
        (-x, y)
    } else if t == 3 {
        (-x, -y)
    } else if t == 4 {
        (y, x)
    } else if t == 5 {
        (y, -x)
    } else if t == 6 {
        (-y, x)
    } else {
        (-y, -x)
    }
}

/// The cells of a catalog pattern.
pub open spec fn catalog_points(p: StillLifePattern) -> Seq<(i64, i64)> {
    match p {
        StillLifePattern::Block => seq![(0i64, 0i64), (1, 0), (0, 1), (1, 1)],
        StillLifePattern::Beehive => seq![(1i64, 0i64), (2, 0), (0, 1), (3, 1), (1, 2), (2, 2)],
        StillLifePattern::Loaf => seq![(1i64, 0i64), (2, 0), (0, 1), (3, 1), (1, 2), (3, 2), (2, 3)],
        StillLifePattern::Boat => seq![(0i64, 0i64), (1, 0), (0, 1), (2, 1), (1, 2)],
        StillLifePattern::Tub => seq![(1i64, 0i64), (0, 1), (2, 1), (1, 2)],
    }
}

/// The cells of a catalog pattern.
fn catalog_shape(p: StillLifePattern) -> (r: Vec<(i64, i64)>)
    ensures
        r@ == catalog_points(p),
        r@.len() <= MAX_CATALOG_PATTERN_CELLS,
        forall|i: int| 0 <= i < r@.len() ==> 0 <= #[trigger] r@[i].0 <= 3 && 0 <= r@[i].1 <= 3,
{
    let r = match p {
        StillLifePattern::Block => vec![(0, 0), (1, 0), (0, 1), (1, 1)],
        StillLifePattern::Beehive => vec![(1, 0), (2, 0), (0, 1), (3, 1), (1, 2), (2, 2)],
        StillLifePattern::Loaf => vec![(1, 0), (2, 0), (0, 1), (3, 1), (1, 2), (3, 2), (2, 3)],
        StillLifePattern::Boat => vec![(0, 0), (1, 0), (0, 1), (2, 1), (1, 2)],
        StillLifePattern::Tub => vec![(1, 0), (0, 1), (2, 1), (1, 2)],
    };
    proof {
        assert(r@ =~= catalog_points(p));
    }
    r
}

pub open spec fn in_box(p: (i64, i64), min_x: i64, min_y: i64) -> bool {
    min_x <= p.0 <= 8 && min_y <= p.1 <= 8
}

/// The points of `shape` under symmetry `t`.
pub open spec fn moved_points(shape: Seq<(i64, i64)>, t: int) -> Seq<(int, int)> {
    Seq::new(shape.len(), |i: int| transform_spec(t, shape[i]))
}

/// The smallest first coordinate among `s`, or `m` if that is smaller.
pub open spec fn min_first(s: Seq<(int, int)>, m: int) -> int
    decreases s.len(),
{
    if s.len() == 0 {
        m
    } else {
        let r = min_first(s.drop_last(), m);
        if s.last().0 < r {
            s.last().0
        } else {
            r
        }
    }
}

/// The smallest second coordinate among `s`, or `m` if that is smaller.
pub open spec fn min_second(s: Seq<(int, int)>, m: int) -> int
    decreases s.len(),
{
    if s.len() == 0 {
        m
    } else {
        let r = min_second(s.drop_last(), m);
        if s.last().1 < r {
            s.last().1
        } else {
            r
        }
    }
}

proof fn lemma_min_first_bound(s: Seq<(int, int)>, m: int, j: int)
    requires
        0 <= j < s.len(),
    ensures
        min_first(s, m) <= s[j].0,
        min_second(s, m) <= s[j].1,
        min_first(s, m) <= m,
        min_second(s, m) <= m,
    decreases s.len(),
{
    lemma_min_init_bound(s, m);
    if j < s.len() - 1 {
        lemma_min_first_bound(s.drop_last(), m, j);
    } else {
        lemma_min_init_bound(s.drop_last(), m);
    }
}

proof fn lemma_min_init_bound(s: Seq<(int, int)>, m: int)
    ensures
        min_first(s, m) <= m,
        min_second(s, m) <= m,
    decreases s.len(),
{
    if s.len() > 0 {
        lemma_min_init_bound(s.drop_last(), m);
    }
}

/// A list of points moved so that its smallest coordinates (capped at
/// `cap`) are 0.
pub open spec fn shifted(s: Seq<(int, int)>, cap: int) -> Seq<(usize, usize)> {
    Seq::new(
        s.len(),
        |i: int| ((s[i].0 - min_first(s, cap)) as usize, (s[i].1 - min_second(s, cap)) as usize),
    )
}

/// The shape under symmetry `t`, moved so that its smallest coordinates are 0.
pub open spec fn variant_of(shape: Seq<(i64, i64)>, t: int) -> Seq<(usize, usize)> {
    shifted(moved_points(shape, t), 8)
}

/// The shape under symmetry `t`, moved so that its smallest coordinates are 0.
fn normalized_variant(shape: &Vec<(i64, i64)>, t: usize) -> (r: Vec<(usize, usize)>)
    requires
        forall|i: int| 0 <= i < shape@.len() ==> 0 <= #[trigger] shape@[i].0 <= 3 && 0 <= shape@[i].1 <= 3,
    ensures
        r@ == variant_of(shape@, t as int),
{
    let ghost mp = moved_points(shape@, t as int);
    let mut moved: Vec<(i64, i64)> = Vec::new();
    let mut min_x: i64 = 8;
    let mut min_y: i64 = 8;
    let mut i: usize = 0;
    while i < shape.len()
        invariant
            i <= shape@.len(),
            mp == moved_points(shape@, t as int),
            moved@.len() == i,
            forall|j: int| 0 <= j < shape@.len() ==> 0 <= #[trigger] shape@[j].0 <= 3 && 0 <= shape@[j].1 <= 3,
            -8 <= min_x <= 8,
            -8 <= min_y <= 8,
            min_x as int == min_first(mp.take(i as int), 8),
            min_y as int == min_second(mp.take(i as int), 8),
            forall|j: int| 0 <= j < i ==> in_box(#[trigger] moved@[j], min_x, min_y),
            forall|j: int| 0 <= j < i ==> (#[trigger] moved@[j]).0 as int == mp[j].0 && moved@[j].1 as int == mp[j].1,
        decreases shape@.len() - i,
    {
        let p = transform(t, shape[i]);
        if p.0 < min_x {
            min_x = p.0;
        }
        if p.1 < min_y {
            min_y = p.1;
        }
        let ghost old_moved = moved@;
        moved.push(p);
        proof {
            assert(mp.take(i + 1).drop_last() =~= mp.take(i as int));
            assert(mp.take(i + 1).last() == mp[i as int]);
            assert forall|j: int| 0 <= j < i + 1 implies in_box(#[trigger] moved@[j], min_x, min_y) by {
                if j < i {
                    assert(moved@[j] == old_moved[j]);
                }
            }
            assert forall|j: int| 0 <= j < i + 1 implies (#[trigger] moved@[j]).0 as int == mp[j].0
                && moved@[j].1 as int == mp[j].1 by {
                if j < i {
                    assert(moved@[j] == old_moved[j]);
                }
            }
        }
        i += 1;
    }
    proof {
        assert(mp.take(shape@.len() as int) =~= mp);
    }
    let mut out: Vec<(usize, usize)> = Vec::new();
    let mut k: usize = 0;
    while k < moved.len()
        invariant
            k <= moved@.len(),
            moved@.len() == mp.len(),
            mp == moved_points(shape@, t as int),
            out@.len() == k,
            forall|j: int| 0 <= j < moved@.len() ==> in_box(#[trigger] moved@[j], min_x, min_y),
            forall|j: int| 0 <= j < moved@.len() ==> (#[trigger] moved@[j]).0 as int == mp[j].0 && moved@[j].1 as int == mp[j].1,
            min_x as int == min_first(mp, 8),
            min_y as int == min_second(mp, 8),
            -8 <= min_x <= 8,
            -8 <= min_y <= 8,
            forall|j: int| 0 <= j < k ==> #[trigger] out@[j] == shifted(mp, 8)[j],
        decreases moved@.len() - k,
    {
        let (x, y) = moved[k];
        out.push(((x - min_x) as usize, (y - min_y) as usize));
        k += 1;
    }
    proof {
        assert(out@ =~= variant_of(shape@, t as int));
    }
    out
}

/// Every point of `a` is among the points of `b`.
pub open spec fn points_within(a: Seq<(usize, usize)>, b: Seq<(usize, usize)>) -> bool {
    forall|i: int| 0 <= i < a.len() ==> #[trigger] has_point(b, a[i])
}

/// Whether `p` is among the points of `b`.
pub open spec fn has_point(b: Seq<(usize, usize)>, p: (usize, usize)) -> bool {
    exists|j: int| 0 <= j < b.len() && b[j] == p
}

/// Whether every point of `a` is in `b`.
fn all_in(a: &Vec<(usize, usize)>, b: &Vec<(usize, usize)>) -> (r: bool)
    ensures
        r == points_within(a@, b@),
{
    let mut i: usize = 0;
    while i < a.len()
        invariant
            i <= a@.len(),
            forall|k: int| 0 <= k < i ==> #[trigger] has_point(b@, a@[k]),
        decreases a@.len() - i,
    {
        let mut found = false;
        let mut j: usize = 0;
        while j < b.len()
            invariant
                j <= b@.len(),
                i < a@.len(),
                found <==> exists|m: int| 0 <= m < j && b@[m] == a@[i as int],
            decreases b@.len() - j,
        {
            if a[i].0 == b[j].0 && a[i].1 == b[j].1 {
                found = true;
            }
            j += 1;
        }
        if !found {
            proof {
                assert(!has_point(b@, a@[i as int]));
            }
            return false;
        }
        i += 1;
    }
    true
}

/// The smallest x and y of a component's cells (`usize::MAX` when empty).
pub open spec fn coordinate_points(c: Seq<CellCoordinate>) -> Seq<(int, int)> {
    Seq::new(c.len(), |i: int| (c[i].x as int, c[i].y as int))
}

/// The component's cells moved so that their smallest coordinates are 0.
pub open spec fn component_signature(c: Seq<CellCoordinate>) -> Seq<(usize, usize)> {
    shifted(coordinate_points(c), usize::MAX as int)
}

/// The component's cells moved so that their smallest coordinates are 0.
fn normalize_component(component: &Vec<CellCoordinate>) -> (r: Vec<(usize, usize)>)
    ensures
        r@ == component_signature(component@),
{
    let ghost cp = coordinate_points(component@);
    let mut min_x: usize = usize::MAX;
    let mut min_y: usize = usize::MAX;
    let mut i: usize = 0;
    while i < component.len()
        invariant
            i <= component@.len(),
            cp == coordinate_points(component@),
            min_x as int == min_first(cp.take(i as int), usize::MAX as int),
            min_y as int == min_second(cp.take(i as int), usize::MAX as int),
        decreases component@.len() - i,
    {
        if component[i].x < min_x {
            min_x = component[i].x;
        }
        if component[i].y < min_y {
            min_y = component[i].y;
        }
        proof {
            assert(cp.take(i + 1).drop_last() =~= cp.take(i as int));
            assert(cp.take(i + 1).last() == cp[i as int]);
        }
        i += 1;
    }
    proof {
        assert(cp.take(component@.len() as int) =~= cp);
    }
    let mut out: Vec<(usize, usize)> = Vec::new();
    let mut k: usize = 0;
    while k < component.len()
        invariant
            k <= component@.len(),
            cp == coordinate_points(component@),
            min_x as int == min_first(cp, usize::MAX as int),
            min_y as int == min_second(cp, usize::MAX as int),
            out@.len() == k,
            forall|j: int| 0 <= j < k ==> #[trigger] out@[j] == shifted(cp, usize::MAX as int)[j],
        decreases component@.len() - k,
    {
        proof {
            lemma_min_first_bound(cp, usize::MAX as int, k as int);
        }
        out.push((component[k].x - min_x, component[k].y - min_y));
        k += 1;
    }
    proof {
        assert(out@ =~= component_signature(component@));
    }
    out
}

/// The patterns of the catalog, in the order they are tried.
pub open spec fn catalog_order() -> Seq<StillLifePattern> {
    seq![
        StillLifePattern::Block,
        StillLifePattern::Beehive,
        StillLifePattern::Loaf,
        StillLifePattern::Boat,
        StillLifePattern::Tub,
    ]
}

/// Whether a signature is pattern `p` under one of the eight symmetries:
/// as many cells, and each of its cells among the pattern's.
pub open spec fn shape_matches(sig: Seq<(usize, usize)>, p: StillLifePattern) -> bool {
    &&& catalog_points(p).len() == sig.len()
    &&& exists|t: int| 0 <= t < 8 && #[trigger] points_within(sig, variant_of(catalog_points(p), t))
}

/// The first catalog pattern from position `k` on that the signature
/// matches.
pub open spec fn first_match(sig: Seq<(usize, usize)>, k: nat) -> Option<StillLifePattern>
    decreases 5 - k,
{
    if k >= 5 {
        None
    } else if shape_matches(sig, catalog_order()[k as int]) {
        Some(catalog_order()[k as int])
    } else {
        first_match(sig, k + 1)
    }
}

/// The catalog pattern a component is, under some symmetry: the first of
/// block, beehive, loaf, boat and tub whose shape it matches.
pub open spec fn classified(component: Seq<CellCoordinate>) -> Option<StillLifePattern> {
    first_match(component_signature(component), 0)
}

/// The catalog pattern the component's shape is, under some symmetry.
fn classify_component(component: &Vec<CellCoordinate>) -> (r: Option<StillLifePattern>)
    ensures
        r == classified(component@),
{
    let signature = normalize_component(component);
    let ghost sig = signature@;
    let catalog: Vec<StillLifePattern> = vec![
        StillLifePattern::Block,
        StillLifePattern::Beehive,
        StillLifePattern::Loaf,
        StillLifePattern::Boat,
        StillLifePattern::Tub,
    ];
    proof {
        assert(catalog@ =~= catalog_order());
    }
    let mut c: usize = 0;
    while c < catalog.len()
        invariant
            c <= catalog@.len() == 5,
            catalog@ == catalog_order(),
            sig == signature@,
            sig == component_signature(component@),
            first_match(sig, 0) == first_match(sig, c as nat),
        decreases catalog@.len() - c,
    {
        let shape = catalog_shape(catalog[c]);
        let ghost p = catalog_order()[c as int];
        if shape.len() == signature.len() {
            let mut t: usize = 0;
            while t < 8
                invariant
                    t <= 8,
                    c < catalog@.len(),
                    catalog@ == catalog_order(),
                    p == catalog_order()[c as int],
                    shape@ == catalog_points(p),
                    sig == signature@,
                    sig == component_signature(component@),
                    shape@.len() == sig.len(),
                    first_match(sig, 0) == first_match(sig, c as nat),
                    forall|i: int| 0 <= i < shape@.len() ==> 0 <= #[trigger] shape@[i].0 <= 3 && 0 <= shape@[i].1 <= 3,
                    forall|u: int| 0 <= u < t ==> !#[trigger] points_within(sig, variant_of(catalog_points(p), u)),
                decreases 8 - t,
            {
                let variant = normalized_variant(&shape, t);
                if all_in(&signature, &variant) {
                    proof {
                        assert(shape_matches(sig, p));
                    }
                    return Some(catalog[c]);
                }
                t += 1;
            }
            proof {
                assert(!shape_matches(sig, p));
            }
        } else {
            proof {
                assert(!shape_matches(sig, p));
            }
        }
        c += 1;
    }
    None
}

// ---- components of alive cells ----

/// Whether `c` is on the board and alive once normalized.
pub open spec fn live_cell<B: BoardView + ?Sized>(b: &B, c: CellCoordinate) -> bool {
    &&& in_bounds(b.view_width() as int, b.view_height() as int, c.x as int, c.y as int)
    &&& b.view_cell(c.x as int, c.y as int).normal_form() == CellState::Alive
}

/// Whether two distinct cells touch, sides or corners.
pub open spec fn touching(a: CellCoordinate, c: CellCoordinate) -> bool {
    &&& a != c
    &&& -1 <= a.x - c.x <= 1
    &&& -1 <= a.y - c.y <= 1
}

/// A walk through alive cells, each touching the next.
pub open spec fn live_path<B: BoardView + ?Sized>(b: &B, p: Seq<CellCoordinate>) -> bool {
    &&& p.len() >= 1
    &&& forall|i: int| 0 <= i < p.len() ==> live_cell(b, #[trigger] p[i])
    &&& forall|i: int| 0 <= i < p.len() - 1 ==> #[trigger] touching(p[i], p[i + 1])
}

/// Whether `c` is in the 8-connected component of alive cells of `a`.
pub open spec fn linked<B: BoardView + ?Sized>(b: &B, a: CellCoordinate, c: CellCoordinate) -> bool {
    exists|p: Seq<CellCoordinate>| #[trigger] live_path(b, p) && p[0] == a && p.last() == c
}

/// Row-major order: `c` comes before `a`.
pub open spec fn before_cell(c: CellCoordinate, a: CellCoordinate) -> bool {
    c.y < a.y || (c.y == a.y && c.x < a.x)
}

/// Whether `a` is alive and the first cell of its component in row-major
/// order; each component has exactly one such cell.
pub open spec fn leads<B: BoardView + ?Sized>(b: &B, a: CellCoordinate) -> bool {
    &&& live_cell(b, a)
    &&& forall|c: CellCoordinate| #[trigger] linked(b, a, c) ==> !before_cell(c, a)
}

/// `s` lists the component of `a`, each cell once.
pub open spec fn enumerates<B: BoardView + ?Sized>(b: &B, a: CellCoordinate, s: Seq<CellCoordinate>) -> bool {
    &&& s.no_duplicates()
    &&& forall|c: CellCoordinate| #[trigger] s.contains(c) <==> linked(b, a, c)
}

/// What the component of `a` is: the catalog pattern its cells make (a
/// component of at most 7 cells, classified as `classified` says), or
/// `None`.
pub open spec fn component_class<B: BoardView + ?Sized>(b: &B, a: CellCoordinate) -> Option<StillLifePattern> {
    if exists|s: Seq<CellCoordinate>| #[trigger] enumerates(b, a, s) && s.len() <= MAX_CATALOG_PATTERN_CELLS {
        classified(choose|s: Seq<CellCoordinate>| #[trigger] enumerates(b, a, s) && s.len() <= MAX_CATALOG_PATTERN_CELLS)
    } else {
        None
    }
}

/// The components of the first `n` rows' leaders whose class is `k`, as
/// `(x, y)` predicate.
pub open spec fn leads_with<B: BoardView + ?Sized>(b: &B, k: Option<StillLifePattern>) -> spec_fn(int, int) -> bool {
    |x: int, y: int| {
        let c = CellCoordinate { x: x as usize, y: y as usize };
        leads(b, c) && component_class(b, c) == k
    }
}

/// The number of components of alive cells on the board whose class is
/// `k`.
pub open spec fn components_of<B: BoardView + ?Sized>(b: &B, k: Option<StillLifePattern>) -> nat {
    grid_count(leads_with(b, k), b.view_width(), b.view_height())
}

proof fn lemma_linked_refl<B: BoardView + ?Sized>(b: &B, a: CellCoordinate)
    requires
        live_cell(b, a),
    ensures
        linked(b, a, a),
{
    let p = seq![a];
    assert(live_path(b, p));
}

proof fn lemma_linked_step<B: BoardView + ?Sized>(b: &B, a: CellCoordinate, c: CellCoordinate, d: CellCoordinate)
    requires
        linked(b, a, c),
        live_cell(b, d),
        touching(c, d),
    ensures
        linked(b, a, d),
{
    let p = choose|p: Seq<CellCoordinate>| #[trigger] live_path(b, p) && p[0] == a && p.last() == c;
    let q = p.push(d);
    assert forall|i: int| 0 <= i < q.len() - 1 implies #[trigger] touching(q[i], q[i + 1]) by {
        if i < p.len() - 1 {
            assert(touching(p[i], p[i + 1]));
        }
    }
    assert forall|i: int| 0 <= i < q.len() implies live_cell(b, #[trigger] q[i]) by {
        if i < p.len() {
            assert(live_cell(b, p[i]));
        }
    }
    assert(live_path(b, q));
}

proof fn lemma_linked_symm<B: BoardView + ?Sized>(b: &B, a: CellCoordinate, c: CellCoordinate)
    requires
        linked(b, a, c),
    ensures
        linked(b, c, a),
{
    let p = choose|p: Seq<CellCoordinate>| #[trigger] live_path(b, p) && p[0] == a && p.last() == c;
    let q = p.reverse();
    assert forall|i: int| 0 <= i < q.len() - 1 implies #[trigger] touching(q[i], q[i + 1]) by {
        let j = p.len() - 2 - i;
        assert(touching(p[j], p[j + 1]));
        assert(q[i] == p[j + 1]);
        assert(q[i + 1] == p[j]);
    }
    assert forall|i: int| 0 <= i < q.len() implies live_cell(b, #[trigger] q[i]) by {
        assert(live_cell(b, p[p.len() - 1 - i]));
    }
    assert(live_path(b, q));
}

proof fn lemma_linked_trans<B: BoardView + ?Sized>(b: &B, a: CellCoordinate, c: CellCoordinate, d: CellCoordinate)
    requires
        linked(b, a, c),
        linked(b, c, d),
    ensures
        linked(b, a, d),
{
    let p = choose|p: Seq<CellCoordinate>| #[trigger] live_path(b, p) && p[0] == a && p.last() == c;
    let r = choose|r: Seq<CellCoordinate>| #[trigger] live_path(b, r) && r[0] == c && r.last() == d;
    let q = p + r.drop_first();
    assert forall|i: int| 0 <= i < q.len() implies live_cell(b, #[trigger] q[i]) by {
        if i < p.len() {
            assert(live_cell(b, p[i]));
        } else {
            assert(q[i] == r[i - p.len() + 1]);
            assert(live_cell(b, r[i - p.len() + 1]));
        }
    }
    assert forall|i: int| 0 <= i < q.len() - 1 implies #[trigger] touching(q[i], q[i + 1]) by {
        if i < p.len() - 1 {
            assert(touching(p[i], p[i + 1]));
        } else if i == p.len() - 1 {
            assert(q[i] == c);
            assert(q[i + 1] == r[1]);
            assert(r[0] == c);
            assert(touching(r[0], r[1]));
        } else {
            let j = i - p.len() + 1;
            assert(q[i] == r[j]);
            assert(q[i + 1] == r[j + 1]);
            assert(touching(r[j], r[j + 1]));
        }
    }
    if r.len() == 1 {
        assert(q =~= p);
    }
    assert(live_path(b, q));
}

/// A set of cells that holds `a` and, with each of its cells, every alive
/// cell touching it, holds the whole component of `a`.
proof fn lemma_closed_holds_component<B: BoardView + ?Sized>(
    b: &B,
    a: CellCoordinate,
    s: Seq<CellCoordinate>,
    c: CellCoordinate,
)
    requires
        s.contains(a),
        forall|u: CellCoordinate, v: CellCoordinate|
            s.contains(u) && live_cell(b, v) && touching(u, v) ==> #[trigger] s.contains(v) || !#[trigger] s.contains(u),
        linked(b, a, c),
    ensures
        s.contains(c),
{
    let p = choose|p: Seq<CellCoordinate>| #[trigger] live_path(b, p) && p[0] == a && p.last() == c;
    lemma_path_inside(b, s, p, p.len() - 1);
}

proof fn lemma_path_inside<B: BoardView + ?Sized>(b: &B, s: Seq<CellCoordinate>, p: Seq<CellCoordinate>, i: int)
    requires
        live_path(b, p),
        s.contains(p[0]),
        0 <= i < p.len(),
        forall|u: CellCoordinate, v: CellCoordinate|
            s.contains(u) && live_cell(b, v) && touching(u, v) ==> #[trigger] s.contains(v) || !#[trigger] s.contains(u),
    ensures
        s.contains(p[i]),
    decreases i,
{
    if i > 0 {
        lemma_path_inside(b, s, p, i - 1);
        let j = i - 1;
        assert(touching(p[j], p[j + 1]));
        assert(j + 1 == i);
        assert(live_cell(b, p[i]));
    }
}

/// Whether `e` is among the points of `s`.
pub open spec fn pair_in(s: Seq<(int, int)>, e: (int, int)) -> bool {
    exists|k: int| 0 <= k < s.len() && s[k] == e
}

proof fn lemma_min_attained(s: Seq<(int, int)>, m: int)
    ensures
        min_first(s, m) == m || exists|j: int| 0 <= j < s.len() && min_first(s, m) == #[trigger] s[j].0,
        min_second(s, m) == m || exists|j: int| 0 <= j < s.len() && min_second(s, m) == #[trigger] s[j].1,
    decreases s.len(),
{
    if s.len() > 0 {
        let t = s.drop_last();
        lemma_min_attained(t, m);
        if min_first(s, m) != m && min_first(s, m) != s.last().0 {
            let j = choose|j: int| 0 <= j < t.len() && min_first(t, m) == #[trigger] t[j].0;
            assert(s[j].0 == t[j].0);
        }
        if min_second(s, m) != m && min_second(s, m) != s.last().1 {
            let j = choose|j: int| 0 <= j < t.len() && min_second(t, m) == #[trigger] t[j].1;
            assert(s[j].1 == t[j].1);
        }
        if min_first(s, m) == s.last().0 {
            assert(s[s.len() - 1].0 == s.last().0);
        }
        if min_second(s, m) == s.last().1 {
            assert(s[s.len() - 1].1 == s.last().1);
        }
    }
}

/// Two lists of the same cells, each cell once, are classified alike.
proof fn lemma_classified_same_cells(s1: Seq<CellCoordinate>, s2: Seq<CellCoordinate>)
    requires
        s1.no_duplicates(),
        s2.no_duplicates(),
        forall|c: CellCoordinate| #[trigger] s1.contains(c) <==> s2.contains(c),
    ensures
        s1.len() == s2.len(),
        classified(s1) == classified(s2),
{
    assert(s1.to_set() =~= s2.to_set());
    s1.unique_seq_to_set();
    s2.unique_seq_to_set();
    let m = usize::MAX as int;
    let cp1 = coordinate_points(s1);
    let cp2 = coordinate_points(s2);
    lemma_min_attained(cp1, m);
    lemma_min_attained(cp2, m);
    lemma_min_init_bound(cp1, m);
    lemma_min_init_bound(cp2, m);
    // Each point of one list is a point of the other.
    assert forall|i: int| 0 <= i < cp1.len() implies pair_in(cp2, #[trigger] cp1[i]) by {
        assert(s1.contains(s1[i]));
        assert(s2.contains(s1[i]));
        let k = choose|k: int| 0 <= k < s2.len() && s2[k] == s1[i];
        assert(cp2[k] == cp1[i]);
    }
    assert forall|i: int| 0 <= i < cp2.len() implies pair_in(cp1, #[trigger] cp2[i]) by {
        assert(s2.contains(s2[i]));
        assert(s1.contains(s2[i]));
        let k = choose|k: int| 0 <= k < s1.len() && s1[k] == s2[i];
        assert(cp1[k] == cp2[i]);
    }
    let x1 = min_first(cp1, m);
    let x2 = min_first(cp2, m);
    let y1 = min_second(cp1, m);
    let y2 = min_second(cp2, m);
    if x1 != m {
        let j = choose|j: int| 0 <= j < cp1.len() && x1 == #[trigger] cp1[j].0;
        assert(pair_in(cp2, cp1[j]));
        let k = choose|k: int| 0 <= k < cp2.len() && cp2[k] == cp1[j];
        lemma_min_first_bound(cp2, m, k);
    }
    if x2 != m {
        let j = choose|j: int| 0 <= j < cp2.len() && x2 == #[trigger] cp2[j].0;
        assert(pair_in(cp1, cp2[j]));
        let k = choose|k: int| 0 <= k < cp1.len() && cp1[k] == cp2[j];
        lemma_min_first_bound(cp1, m, k);
    }
    if y1 != m {
        let j = choose|j: int| 0 <= j < cp1.len() && y1 == #[trigger] cp1[j].1;
        assert(pair_in(cp2, cp1[j]));
        let k = choose|k: int| 0 <= k < cp2.len() && cp2[k] == cp1[j];
        lemma_min_first_bound(cp2, m, k);
    }
    if y2 != m {
        let j = choose|j: int| 0 <= j < cp2.len() && y2 == #[trigger] cp2[j].1;
        assert(pair_in(cp1, cp2[j]));
        let k = choose|k: int| 0 <= k < cp1.len() && cp1[k] == cp2[j];
        lemma_min_first_bound(cp1, m, k);
    }
    assert(x1 == x2 && y1 == y2);
    let sig1 = component_signature(s1);
    let sig2 = component_signature(s2);
    assert forall|i: int| 0 <= i < sig1.len() implies has_point(sig2, #[trigger] sig1[i]) by {
        assert(pair_in(cp2, cp1[i]));
        let k = choose|k: int| 0 <= k < cp2.len() && cp2[k] == cp1[i];
        assert(sig2[k] == sig1[i]);
    }
    assert forall|i: int| 0 <= i < sig2.len() implies has_point(sig1, #[trigger] sig2[i]) by {
        assert(pair_in(cp1, cp2[i]));
        let k = choose|k: int| 0 <= k < cp1.len() && cp1[k] == cp2[i];
        assert(sig1[k] == sig2[i]);
    }
    assert forall|v: Seq<(usize, usize)>| points_within(sig1, v) == points_within(sig2, v) by {
        if points_within(sig1, v) {
            assert forall|i: int| 0 <= i < sig2.len() implies #[trigger] has_point(v, sig2[i]) by {
                assert(has_point(sig1, sig2[i]));
                let k = choose|k: int| 0 <= k < sig1.len() && sig1[k] == sig2[i];
                assert(has_point(v, sig1[k]));
            }
        }
        if points_within(sig2, v) {
            assert forall|i: int| 0 <= i < sig1.len() implies #[trigger] has_point(v, sig1[i]) by {
                assert(has_point(sig2, sig1[i]));
                let k = choose|k: int| 0 <= k < sig2.len() && sig2[k] == sig1[i];
                assert(has_point(v, sig2[k]));
            }
        }
    }
    lemma_first_match_agrees(sig1, sig2, 0);
}

proof fn lemma_first_match_agrees(sig1: Seq<(usize, usize)>, sig2: Seq<(usize, usize)>, k: nat)
    requires
        sig1.len() == sig2.len(),
        forall|v: Seq<(usize, usize)>| #[trigger] points_within(sig1, v) == points_within(sig2, v),
    ensures
        first_match(sig1, k) == first_match(sig2, k),
    decreases 5 - k,
{
    if k < 5 {
        let p = catalog_order()[k as int];
        if shape_matches(sig1, p) {
            let t = choose|t: int| 0 <= t < 8 && #[trigger] points_within(sig1, variant_of(catalog_points(p), t));
            assert(points_within(sig2, variant_of(catalog_points(p), t)));
        }
        if shape_matches(sig2, p) {
            let t = choose|t: int| 0 <= t < 8 && #[trigger] points_within(sig2, variant_of(catalog_points(p), t));
            assert(points_within(sig1, variant_of(catalog_points(p), t)));
        }
        lemma_first_match_agrees(sig1, sig2, k + 1);
    }
}

/// The class of a component is what `classified` gives for any list of
/// its cells, each once, when there are at most 7 of them, and `None`
/// otherwise.
proof fn lemma_component_class<B: BoardView + ?Sized>(b: &B, a: CellCoordinate, s: Seq<CellCoordinate>)
    requires
        enumerates(b, a, s),
    ensures
        component_class(b, a) == if s.len() <= MAX_CATALOG_PATTERN_CELLS {
            classified(s)
        } else {
            None
        },
{
    if exists|t: Seq<CellCoordinate>| #[trigger] enumerates(b, a, t) && t.len() <= MAX_CATALOG_PATTERN_CELLS {
        let t = choose|t: Seq<CellCoordinate>| #[trigger] enumerates(b, a, t) && t.len() <= MAX_CATALOG_PATTERN_CELLS;
        assert forall|c: CellCoordinate| #[trigger] s.contains(c) <==> t.contains(c) by {
            assert(s.contains(c) <==> linked(b, a, c));
            assert(t.contains(c) <==> linked(b, a, c));
        }
        lemma_classified_same_cells(s, t);
    } else {
        if s.len() <= MAX_CATALOG_PATTERN_CELLS {
            assert(enumerates(b, a, s));
        }
    }
}

/// Number of `true` entries.
pub open spec fn marked_count(v: Seq<bool>) -> nat
    decreases v.len(),
{
    if v.len() == 0 {
        0
    } else {
        (if v.last() { 1nat } else { 0nat }) + marked_count(v.drop_last())
    }
}

proof fn lemma_marked_bound(v: Seq<bool>)
    ensures
        marked_count(v) <= v.len(),
    decreases v.len(),
{
    if v.len() > 0 {
        lemma_marked_bound(v.drop_last());
    }
}

proof fn lemma_mark(v: Seq<bool>, i: int)
    requires
        0 <= i < v.len(),
        !v[i],
    ensures
        marked_count(v.update(i, true)) == marked_count(v) + 1,
    decreases v.len(),
{
    let u = v.update(i, true);
    if i == v.len() - 1 {
        assert(u.drop_last() =~= v.drop_last());
    } else {
        assert(u.drop_last() =~= v.drop_last().update(i, true));
        lemma_mark(v.drop_last(), i);
    }
}

fn is_alive<B: BoardView>(board: &B, coordinate: CellCoordinate) -> (r: Result<bool, B::Error>)
    ensures
        board.is_infallible() ==> r is Ok,
        r matches Ok(a) ==> (in_bounds(board.view_width() as int, board.view_height() as int, coordinate.x as int, coordinate.y as int) ==> a == live_cell(board, coordinate)),
{
    match board.cell_state(coordinate) {
        Ok(s) => Ok(s.normalized() == CellState::Alive),
        Err(e) => Err(e),
    }
}

pub open spec fn in_area(c: CellCoordinate, width: usize, height: usize) -> bool {
    c.x < width && c.y < height
}

/// Whether the flag of cell `c` is set in a row-major `w`-wide table.
pub open spec fn seen(v: Seq<bool>, w: usize, c: CellCoordinate) -> bool {
    v[c.y * w + c.x]
}

/// Every seen alive cell comes with its whole component seen.
pub open spec fn components_closed<B: BoardView + ?Sized>(b: &B, v: Seq<bool>, w: usize) -> bool {
    forall|c: CellCoordinate, d: CellCoordinate|
        live_cell(b, c) && #[trigger] seen(v, w, c) && #[trigger] linked(b, c, d) ==> seen(v, w, d)
}

proof fn lemma_linked_live<B: BoardView + ?Sized>(b: &B, a: CellCoordinate, c: CellCoordinate)
    requires
        linked(b, a, c),
    ensures
        live_cell(b, a),
        live_cell(b, c),
{
    let p = choose|p: Seq<CellCoordinate>| #[trigger] live_path(b, p) && p[0] == a && p.last() == c;
    assert(live_cell(b, p[0]));
    assert(live_cell(b, p[p.len() - 1]));
}

proof fn lemma_seen_index(w: usize, h: usize, c: CellCoordinate, d: CellCoordinate)
    requires
        in_area(c, w, h),
        in_area(d, w, h),
    ensures
        0 <= c.y * w + c.x < w * h,
        c != d ==> c.y * w + c.x != d.y * w + d.x,
{
    crate::board::in_memory_board::lemma_index_in_grid(w as int, h as int, c.x as int, c.y as int);
    if c != d {
        crate::board::in_memory_board::lemma_index_distinct(w as int, c.x as int, c.y as int, d.x as int, d.y as int);
    }
}

/// Position of `n` around `c` in the 3x3 block centred on `c`, row by row.
pub open spec fn offset_of(c: CellCoordinate, n: CellCoordinate) -> int {
    (n.y - c.y + 1) * 3 + (n.x - c.x + 1)
}

/// The 8-connected alive component of `start`: it is marked seen, with the
/// dead cells around it, and its cells are returned when there are at most
/// as many as the largest catalog pattern has (the flag says whether there
/// are).
fn collect_component<B: BoardView>(
    board: &B,
    start: CellCoordinate,
    width: usize,
    height: usize,
    visited: &mut Vec<bool>,
    marked: &mut usize,
) -> (r: Result<(Vec<CellCoordinate>, bool), B::Error>)
    requires
        width == board.view_width(),
        height == board.view_height(),
        width * height <= usize::MAX,
        old(visited)@.len() == width * height,
        start.x < width,
        start.y < height,
        *old(marked) == marked_count(old(visited)@),
        !old(visited)@[start.y * width + start.x],
        live_cell(board, start),
        components_closed(board, old(visited)@, width),
    ensures
        final(visited)@.len() == width * height,
        *final(marked) == marked_count(final(visited)@),
        *final(marked) >= *old(marked) + 1,
        board.is_infallible() ==> r is Ok,
        r matches Ok((cells, sized)) ==> {
            &&& forall|i: int| 0 <= i < width * height && old(visited)@[i] ==> #[trigger] final(visited)@[i]
            &&& components_closed(board, final(visited)@, width)
            &&& forall|c: CellCoordinate| #[trigger] linked(board, start, c) ==> seen(final(visited)@, width, c)
            &&& forall|c: CellCoordinate|
                in_area(c, width, height) && #[trigger] seen(final(visited)@, width, c) && !seen(old(visited)@, width, c)
                    ==> !live_cell(board, c) || linked(board, start, c)
            &&& sized ==> enumerates(board, start, cells@) && cells@.len() <= MAX_CATALOG_PATTERN_CELLS
            &&& !sized ==> exists|q: Seq<CellCoordinate>|
                #[trigger] enumerates(board, start, q) && q.len() > MAX_CATALOG_PATTERN_CELLS
        },
{
    let ghost v0 = visited@;
    let mut cells: Vec<CellCoordinate> = Vec::new();
    let mut is_catalog_sized = true;
    let mut queue: Vec<CellCoordinate> = Vec::new();
    proof {
        lemma_seen_index(width, height, start, start);
        lemma_mark(visited@, start.y * width + start.x);
        lemma_marked_bound(visited@.update(start.y * width + start.x, true));
        lemma_linked_refl(board, start);
    }
    visited.set(start.y * width + start.x, true);
    *marked = *marked + 1;
    queue.push(start);
    let mut head: usize = 0;
    proof {
        lemma_marked_bound(visited@);
        assert forall|c: CellCoordinate|
            in_area(c, width, height) && #[trigger] seen(visited@, width, c) && !seen(v0, width, c)
                implies queue@.contains(c) || !live_cell(board, c) by {
            lemma_seen_index(width, height, c, start);
            if c != start {
                assert(visited@[c.y * width + c.x] == v0[c.y * width + c.x]);
            } else {
                assert(queue@[0] == c);
            }
        }
    }
    while head < queue.len()
        invariant
            width == board.view_width(),
            height == board.view_height(),
            width * height <= usize::MAX,
            visited@.len() == width * height,
            v0.len() == width * height,
            *marked == marked_count(visited@),
            *marked <= width * height,
            head <= queue@.len() <= *marked,
            *marked >= *old(marked) + 1,
            live_cell(board, start),
            !v0[start.y * width + start.x],
            in_area(start, width, height),
            components_closed(board, v0, width),
            queue@.len() >= 1,
            queue@[0] == start,
            queue@.no_duplicates(),
            forall|k: int| 0 <= k < queue@.len() ==> in_area(#[trigger] queue@[k], width, height),
            forall|k: int| 0 <= k < queue@.len() ==> linked(board, start, #[trigger] queue@[k]),
            forall|k: int| 0 <= k < queue@.len() ==> seen(visited@, width, #[trigger] queue@[k]),
            forall|i: int| 0 <= i < width * height && v0[i] ==> #[trigger] visited@[i],
            forall|c: CellCoordinate|
                in_area(c, width, height) && #[trigger] seen(visited@, width, c) && !seen(v0, width, c)
                    ==> queue@.contains(c) || !live_cell(board, c),
            forall|k: int, n: CellCoordinate|
                0 <= k < head && live_cell(board, n) && #[trigger] touching(queue@[k], n) ==> #[trigger] queue@.contains(n),
            is_catalog_sized == (head <= MAX_CATALOG_PATTERN_CELLS),
            cells@ == queue@.take(if head <= MAX_CATALOG_PATTERN_CELLS { head as int } else { MAX_CATALOG_PATTERN_CELLS as int }),
        decreases width * height - *marked + queue@.len() - head,
    {
        let coordinate = queue[head];
        proof {
            assert(in_area(queue@[head as int], width, height));
            assert(linked(board, start, queue@[head as int]));
            lemma_linked_live(board, start, coordinate);
        }
        let ghost q0 = queue@.len();
        let ghost m0 = *marked;
        let ghost k0 = head as int;
        head += 1;
        if cells.len() < MAX_CATALOG_PATTERN_CELLS {
            cells.push(coordinate);
        } else {
            is_catalog_sized = false;
        }
        proof {
            assert(cells@ =~= queue@.take(if head <= MAX_CATALOG_PATTERN_CELLS { head as int } else { MAX_CATALOG_PATTERN_CELLS as int }));
        }
        let mut d: usize = 0;
        while d < 9
            invariant
                width == board.view_width(),
                height == board.view_height(),
                width * height <= usize::MAX,
                visited@.len() == width * height,
                v0.len() == width * height,
                *marked == marked_count(visited@),
                *marked <= width * height,
                head <= queue@.len() <= *marked,
                *marked >= *old(marked) + 1,
                live_cell(board, start),
                !v0[start.y * width + start.x],
                in_area(start, width, height),
                components_closed(board, v0, width),
                queue@.len() >= 1,
                queue@[0] == start,
                queue@.no_duplicates(),
                forall|k: int| 0 <= k < queue@.len() ==> in_area(#[trigger] queue@[k], width, height),
                forall|k: int| 0 <= k < queue@.len() ==> linked(board, start, #[trigger] queue@[k]),
                forall|k: int| 0 <= k < queue@.len() ==> seen(visited@, width, #[trigger] queue@[k]),
                forall|i: int| 0 <= i < width * height && v0[i] ==> #[trigger] visited@[i],
                forall|c: CellCoordinate|
                    in_area(c, width, height) && #[trigger] seen(visited@, width, c) && !seen(v0, width, c)
                        ==> queue@.contains(c) || !live_cell(board, c),
                forall|k: int, n: CellCoordinate|
                    0 <= k < head - 1 && live_cell(board, n) && #[trigger] touching(queue@[k], n) ==> #[trigger] queue@.contains(n),
                0 <= k0 == head - 1,
                queue@[k0] == coordinate,
                coordinate.x < width,
                coordinate.y < height,
                linked(board, start, coordinate),
                forall|n: CellCoordinate|
                    live_cell(board, n) && #[trigger] touching(coordinate, n) && offset_of(coordinate, n) < d ==> queue@.contains(n),
                d <= 9,
                queue@.len() >= q0,
                queue@.len() - q0 <= *marked - m0,
                is_catalog_sized == (head <= MAX_CATALOG_PATTERN_CELLS),
                cells@ == queue@.take(if head <= MAX_CATALOG_PATTERN_CELLS { head as int } else { MAX_CATALOG_PATTERN_CELLS as int }),
            decreases 9 - d,
        {
            let dx = d % 3;
            let dy = d / 3;
            let ghost d0 = d as int;
            if !(dx == 1 && dy == 1) && !(dx == 0 && coordinate.x == 0) && !(dy == 0 && coordinate.y == 0) {
                let x = if dx == 0 {
                    coordinate.x - 1
                } else if dx == 1 {
                    coordinate.x
                } else {
                    coordinate.x + 1
                };
                let y = if dy == 0 {
                    coordinate.y - 1
                } else if dy == 1 {
                    coordinate.y
                } else {
                    coordinate.y + 1
                };
                let neighbor = CellCoordinate::new(x, y);
                proof {
                    assert(neighbor.x == x && neighbor.y == y);
                    assert(offset_of(coordinate, neighbor) == d0);
                }
                if x < width && y < height {
                    proof {
                        lemma_seen_index(width, height, neighbor, neighbor);
                    }
                    let index = y * width + x;
                    if !visited[index] {
                        let ghost vb = visited@;
                        let ghost qb = queue@;
                        proof {
                            lemma_mark(visited@, index as int);
                            lemma_marked_bound(visited@.update(index as int, true));
                        }
                        visited.set(index, true);
                        *marked = *marked + 1;
                        proof {
                            lemma_marked_bound(visited@);
                        }
                        let alive = match is_alive(board, neighbor) {
                            Ok(a) => a,
                            Err(e) => {
                                return Err(e);
                            },
                        };
                        if alive {
                            proof {
                                assert(!qb.contains(neighbor)) by {
                                    if qb.contains(neighbor) {
                                        let k = choose|k: int| 0 <= k < qb.len() && qb[k] == neighbor;
                                        assert(seen(vb, width, qb[k]));
                                    }
                                }
                            }
                            queue.push(neighbor);
                            proof {
                                lemma_linked_step(board, start, coordinate, neighbor);
                                assert(queue@[queue@.len() - 1] == neighbor);
                                assert forall|i: int, j: int|
                                    0 <= i < queue@.len() && 0 <= j < queue@.len() && i != j implies queue@[i] != queue@[j] by {
                                    if i < qb.len() && j < qb.len() {
                                        assert(qb[i] != qb[j]);
                                    } else if i < qb.len() {
                                        assert(qb.contains(qb[i]));
                                    } else if j < qb.len() {
                                        assert(qb.contains(qb[j]));
                                    }
                                }
                            }
                        }
                        proof {
                            assert forall|k: int| 0 <= k < queue@.len() implies seen(visited@, width, #[trigger] queue@[k]) by {
                                if k < qb.len() {
                                    assert(queue@[k] == qb[k]);
                                    assert(seen(vb, width, qb[k]));
                                    lemma_seen_index(width, height, qb[k], neighbor);
                                }
                            }
                            assert forall|c: CellCoordinate|
                                in_area(c, width, height) && #[trigger] seen(visited@, width, c) && !seen(v0, width, c)
                                    implies queue@.contains(c) || !live_cell(board, c) by {
                                lemma_seen_index(width, height, c, neighbor);
                                if c != neighbor {
                                    assert(seen(vb, width, c));
                                    if qb.contains(c) {
                                        let k = choose|k: int| 0 <= k < qb.len() && qb[k] == c;
                                        assert(queue@[k] == c);
                                    }
                                } else if alive {
                                    assert(queue@[queue@.len() - 1] == c);
                                }
                            }
                            assert forall|i: int| 0 <= i < width * height && v0[i] implies #[trigger] visited@[i] by {
                                assert(vb[i]);
                            }
                            assert forall|k: int, n: CellCoordinate|
                                0 <= k < head - 1 && live_cell(board, n) && #[trigger] touching(queue@[k], n)
                                    implies #[trigger] queue@.contains(n) by {
                                assert(queue@[k] == qb[k]);
                                assert(qb.contains(n));
                                let j = choose|j: int| 0 <= j < qb.len() && qb[j] == n;
                                assert(queue@[j] == n);
                            }
                            assert forall|n: CellCoordinate|
                                live_cell(board, n) && #[trigger] touching(coordinate, n) && offset_of(coordinate, n) < d0 + 1
                                    implies queue@.contains(n) by {
                                if offset_of(coordinate, n) < d0 {
                                    assert(qb.contains(n));
                                    let j = choose|j: int| 0 <= j < qb.len() && qb[j] == n;
                                    assert(queue@[j] == n);
                                } else {
                                    assert(n == neighbor);
                                    assert(queue@[queue@.len() - 1] == n);
                                }
                            }
                        }
                    } else {
                        proof {
                            assert forall|n: CellCoordinate|
                                live_cell(board, n) && #[trigger] touching(coordinate, n) && offset_of(coordinate, n) < d0 + 1
                                    implies queue@.contains(n) by {
                                if offset_of(coordinate, n) == d0 {
                                    assert(n == neighbor);
                                    assert(seen(visited@, width, n));
                                    if seen(v0, width, n) {
                                        lemma_linked_step(board, start, coordinate, n);
                                        lemma_linked_symm(board, start, n);
                                        assert(linked(board, n, start));
                                        assert(seen(v0, width, start));
                                    }
                                }
                            }
                        }
                    }
                } else {
                    proof {
                        assert forall|n: CellCoordinate|
                            live_cell(board, n) && #[trigger] touching(coordinate, n) && offset_of(coordinate, n) < d0 + 1
                                implies queue@.contains(n) by {
                            if offset_of(coordinate, n) == d0 {
                                assert(n == neighbor);
                            }
                        }
                    }
                }
            } else {
                proof {
                    assert forall|n: CellCoordinate|
                        live_cell(board, n) && #[trigger] touching(coordinate, n) && offset_of(coordinate, n) < d0 + 1
                            implies queue@.contains(n) by {
                        if offset_of(coordinate, n) == d0 {
                            assert(false);
                        }
                    }
                }
            }
            d += 1;
        }
        proof {
            assert forall|k: int, n: CellCoordinate|
                0 <= k < head && live_cell(board, n) && #[trigger] touching(queue@[k], n) implies #[trigger] queue@.contains(n) by {
                if k == head - 1 {
                    assert(queue@[k] == coordinate);
                    assert(0 <= offset_of(coordinate, n) < 9);
                }
            }
        }
    }
    proof {
        let q = queue@;
        assert forall|u: CellCoordinate, v: CellCoordinate|
            q.contains(u) && live_cell(board, v) && touching(u, v) implies #[trigger] q.contains(v) || !#[trigger] q.contains(u) by {
            let k = choose|k: int| 0 <= k < q.len() && q[k] == u;
            assert(touching(q[k], v));
        }
        assert(q.contains(start)) by {
            assert(q[0] == start);
        }
        assert forall|c: CellCoordinate| #[trigger] linked(board, start, c) implies seen(visited@, width, c) by {
            lemma_closed_holds_component(board, start, q, c);
            let j = choose|j: int| 0 <= j < q.len() && q[j] == c;
            assert(seen(visited@, width, q[j]));
        }
        assert forall|c: CellCoordinate| #[trigger] q.contains(c) <==> linked(board, start, c) by {
            if linked(board, start, c) {
                lemma_closed_holds_component(board, start, q, c);
            }
            if q.contains(c) {
                let k = choose|k: int| 0 <= k < q.len() && q[k] == c;
                assert(linked(board, start, q[k]));
            }
        }
        assert(enumerates(board, start, q));
        if is_catalog_sized {
            assert(cells@ =~= q);
        } else {
            assert(enumerates(board, start, q) && q.len() > MAX_CATALOG_PATTERN_CELLS);
        }
        assert forall|c: CellCoordinate, e: CellCoordinate|
            live_cell(board, c) && #[trigger] seen(visited@, width, c) && #[trigger] linked(board, c, e)
                implies seen(visited@, width, e) by {
            lemma_linked_live(board, c, e);
            lemma_seen_index(width, height, c, c);
            lemma_seen_index(width, height, e, e);
            if seen(v0, width, c) {
                assert(seen(v0, width, e));
                assert(visited@[e.y * width + e.x]);
            } else {
                assert(q.contains(c));
                let k = choose|k: int| 0 <= k < q.len() && q[k] == c;
                assert(linked(board, start, q[k]));
                lemma_linked_trans(board, start, c, e);
                lemma_closed_holds_component(board, start, q, e);
                let j = choose|j: int| 0 <= j < q.len() && q[j] == e;
                assert(seen(visited@, width, q[j]));
            }
        }
        assert forall|c: CellCoordinate|
            in_area(c, width, height) && #[trigger] seen(visited@, width, c) && !seen(v0, width, c)
                implies !live_cell(board, c) || linked(board, start, c) by {
            if q.contains(c) {
                let k = choose|k: int| 0 <= k < q.len() && q[k] == c;
                assert(linked(board, start, q[k]));
            }
        }
    }
    Ok((cells, is_catalog_sized))
}

/// The catalog position of a pattern, as a slot of the count table.
pub open spec fn slot_of(p: StillLifePattern) -> int {
    pattern_rank(p) as int
}

/// The per-pattern counts and the unknown count match the leaders, as
/// `(x, y)` predicates, counted over the first `y` rows and `x` cells of
/// row `y`.
pub open spec fn counted_upto<B: BoardView + ?Sized>(
    b: &B,
    counts: Seq<usize>,
    unknown: usize,
    w: nat,
    y: int,
    x: nat,
) -> bool {
    &&& forall|p: StillLifePattern|
        #![trigger leads_with(b, Some(p))]
        counts[slot_of(p)] == grid_count(leads_with(b, Some(p)), w, y as nat) + row_count(
            leads_with(b, Some(p)),
            y,
            x,
        )
    &&& unknown == grid_count(leads_with(b, None), w, y as nat) + row_count(leads_with(b, None), y, x)
}

proof fn lemma_count_of_push(c: Seq<StillLifePatternCount>, e: StillLifePatternCount, p: StillLifePattern)
    requires
        forall|i: int| 0 <= i < c.len() ==> (#[trigger] c[i]).pattern != e.pattern,
    ensures
        count_of(c.push(e), p) == if p == e.pattern && count_of(c, p) == 0 {
            e.count as nat
        } else {
            count_of(c, p)
        },
        p == e.pattern ==> count_of(c, p) == 0,
    decreases c.len(),
{
    if c.len() == 0 {
        assert(c.push(e)[0] == e);
        assert(c.push(e).drop_first() =~= Seq::<StillLifePatternCount>::empty());
        assert(count_of(c.push(e).drop_first(), p) == 0);
    } else {
        assert(c.push(e)[0] == c[0]);
        assert(c.push(e).drop_first() =~= c.drop_first().push(e));
        assert forall|i: int| 0 <= i < c.drop_first().len() implies (#[trigger] c.drop_first()[i]).pattern != e.pattern by {
            assert(c.drop_first()[i] == c[i + 1]);
        }
        lemma_count_of_push(c.drop_first(), e, p);
        assert(c[0].pattern != e.pattern);
        assert(count_of(c.push(e), p) == if c[0].pattern == p {
            c[0].count as nat
        } else {
            count_of(c.push(e).drop_first(), p)
        });
        assert(count_of(c, p) == if c[0].pattern == p {
            c[0].count as nat
        } else {
            count_of(c.drop_first(), p)
        });
    }
}

/// Counts the components of alive cells (8-connected, cells normalized)
/// that are known still lifes, by pattern, and the other components.
#[verifier::spinoff_prover]
#[verifier::rlimit(100)]
pub fn detect_known_still_life_patterns<B: BoardView>(board: &B) -> (r: Result<
    StillLifePatternSummary,
    B::Error,
>)
    requires
        board.view_width() * board.view_height() <= usize::MAX,
    ensures
        board.is_infallible() ==> r is Ok,
        r matches Ok(s) ==> {
            &&& forall|i: int| 0 <= i < s.counts@.len() ==> #[trigger] s.counts@[i].count >= 1
            &&& forall|i: int, j: int|
                0 <= i < j < s.counts@.len() ==> pattern_rank(s.counts@[i].pattern) < pattern_rank(
                    s.counts@[j].pattern,
                )
            &&& counts_total(s.counts@) + s.unknown_components <= board.view_width()
                * board.view_height()
            &&& forall|p: StillLifePattern| #[trigger] count_of(s.counts@, p) == components_of(board, Some(p))
            &&& s.unknown_components == components_of(board, None)
        },
{
    let width = board.width();
    let height = board.height();
    let cell_count = width * height;
    let mut visited: Vec<bool> = Vec::new();
    let mut k: usize = 0;
    while k < cell_count
        invariant
            k <= cell_count,
            visited@.len() == k,
            forall|j: int| 0 <= j < k ==> !visited@[j],
        decreases cell_count - k,
    {
        visited.push(false);
        k += 1;
    }
    let mut marked: usize = 0;
    proof {
        assert(marked_count(visited@) == 0) by {
            lemma_no_marks(visited@);
        }
        assert forall|c: CellCoordinate, d: CellCoordinate|
            live_cell(board, c) && #[trigger] seen(visited@, width, c) && #[trigger] linked(board, c, d)
                implies seen(visited@, width, d) by {
            lemma_seen_index(width, height, c, c);
        }
        assert forall|c: CellCoordinate| in_area(c, width, height) implies !#[trigger] seen(visited@, width, c) by {
            lemma_seen_index(width, height, c, c);
        }
    }
    let mut counts: Vec<usize> = vec![0, 0, 0, 0, 0];
    let mut unknown_components: usize = 0;
    proof {
        assert forall|p: StillLifePattern| #![trigger leads_with(board, Some(p))] counts@[slot_of(p)] == 0usize by {}
    }
    let mut y: usize = 0;
    while y < height
        invariant
            width == board.view_width(),
            height == board.view_height(),
            cell_count == width * height,
            width * height <= usize::MAX,
            y <= height,
            visited@.len() == cell_count,
            marked == marked_count(visited@),
            counts@.len() == 5,
            counts@[0] + counts@[1] + counts@[2] + counts@[3] + counts@[4] + unknown_components <= marked,
            marked <= cell_count,
            components_closed(board, visited@, width),
            forall|c: CellCoordinate| in_area(c, width, height) && c.y < y ==> #[trigger] seen(visited@, width, c),
            forall|c: CellCoordinate|
                in_area(c, width, height) && #[trigger] seen(visited@, width, c) && live_cell(board, c) && c.y >= y
                    ==> !leads(board, c),
            counted_upto(board, counts@, unknown_components, width as nat, y as int, 0),
        decreases height - y,
    {
        let mut x: usize = 0;
        while x < width
            invariant
                width == board.view_width(),
                height == board.view_height(),
                cell_count == width * height,
                width * height <= usize::MAX,
                y < height,
                x <= width,
                visited@.len() == cell_count,
                marked == marked_count(visited@),
                counts@.len() == 5,
                counts@[0] + counts@[1] + counts@[2] + counts@[3] + counts@[4] + unknown_components <= marked,
                marked <= cell_count,
                components_closed(board, visited@, width),
                forall|c: CellCoordinate|
                    in_area(c, width, height) && before_cell(c, CellCoordinate { x, y }) ==> #[trigger] seen(
                        visited@,
                        width,
                        c,
                    ),
                forall|c: CellCoordinate|
                    in_area(c, width, height) && #[trigger] seen(visited@, width, c) && live_cell(board, c)
                        && !before_cell(c, CellCoordinate { x, y }) ==> !leads(board, c),
                counted_upto(board, counts@, unknown_components, width as nat, y as int, x as nat),
            decreases width - x,
        {
            proof {
                assert(y * width + x < width * height) by (nonlinear_arith)
                    requires
                        x < width,
                        y < height,
                ;
                lemma_marked_bound(visited@);
            }
            let coordinate = CellCoordinate::new(x, y);
            let index = y * width + x;
            let ghost pos = CellCoordinate { x, y };
            let ghost next = CellCoordinate { x: (x + 1) as usize, y };
            let ghost v_before = visited@;
            let ghost c_before = counts@;
            let ghost u_before = unknown_components;
            proof {
                assert(coordinate == pos);
                assert(index == pos.y * width + pos.x);
                lemma_seen_index(width, height, pos, pos);
            }
            if visited[index] {
                proof {
                    assert(seen(visited@, width, pos));
                    assert(!leads(board, pos)) by {
                        if live_cell(board, pos) {
                            assert(!before_cell(pos, pos));
                        }
                    }
                    self_step_counts(board, counts@, unknown_components, width as nat, y as int, x as nat, pos);
                }
                x += 1;
                continue;
            }
            let alive = match is_alive(board, coordinate) {
                Ok(a) => a,
                Err(e) => {
                    return Err(e);
                },
            };
            if !alive {
                proof {
                    lemma_mark(visited@, index as int);
                    lemma_marked_bound(visited@.update(index as int, true));
                }
                visited.set(index, true);
                marked = marked + 1;
                proof {
                    assert(!leads(board, pos));
                    self_step_counts(board, counts@, unknown_components, width as nat, y as int, x as nat, pos);
                    assert forall|c: CellCoordinate| #[trigger] seen(visited@, width, c) && in_area(c, width, height)
                        implies seen(v_before, width, c) || c == pos by {
                        lemma_seen_index(width, height, c, pos);
                    }
                    assert forall|c: CellCoordinate, d: CellCoordinate|
                        live_cell(board, c) && #[trigger] seen(visited@, width, c) && #[trigger] linked(board, c, d)
                            implies seen(visited@, width, d) by {
                        lemma_linked_live(board, c, d);
                        lemma_seen_index(width, height, c, pos);
                        lemma_seen_index(width, height, d, pos);
                        assert(seen(v_before, width, c));
                        assert(seen(v_before, width, d));
                    }
                    assert forall|c: CellCoordinate|
                        in_area(c, width, height) && before_cell(c, next) implies #[trigger] seen(visited@, width, c) by {
                        lemma_seen_index(width, height, c, pos);
                        if c != pos {
                            assert(before_cell(c, pos));
                            assert(seen(v_before, width, c));
                        }
                    }
                    assert forall|c: CellCoordinate|
                        in_area(c, width, height) && #[trigger] seen(visited@, width, c) && live_cell(board, c)
                            && !before_cell(c, next) implies !leads(board, c) by {
                        lemma_seen_index(width, height, c, pos);
                        assert(seen(v_before, width, c));
                    }
                }
                x += 1;
                continue;
            }
            proof {
                assert(live_cell(board, pos));
                // `pos` leads its component: an earlier cell of it would have
                // been seen, and with it the whole component.
                assert forall|d: CellCoordinate| #[trigger] linked(board, pos, d) implies !before_cell(d, pos) by {
                    if before_cell(d, pos) {
                        lemma_linked_live(board, pos, d);
                        assert(seen(visited@, width, d));
                        lemma_linked_symm(board, pos, d);
                        assert(seen(visited@, width, pos));
                    }
                }
                assert(leads(board, pos));
            }
            let ghost before_marked = marked;
            let (cells, is_catalog_sized) = match collect_component(
                board,
                coordinate,
                width,
                height,
                &mut visited,
                &mut marked,
            ) {
                Ok(c) => c,
                Err(e) => {
                    return Err(e);
                },
            };
            proof {
                lemma_marked_bound(visited@);
            }
            let mut known = false;
            let mut class: Option<StillLifePattern> = None;
            if is_catalog_sized {
                class = classify_component(&cells);
                proof {
                    lemma_component_class(board, pos, cells@);
                }
            } else {
                proof {
                    let q = choose|q: Seq<CellCoordinate>| #[trigger] enumerates(board, pos, q) && q.len() > MAX_CATALOG_PATTERN_CELLS;
                    lemma_component_class(board, pos, q);
                }
            }
            proof {
                assert(class == component_class(board, pos));
            }
            if let Some(pattern) = class {
                let slot: usize = match pattern {
                    StillLifePattern::Block => 0,
                    StillLifePattern::Beehive => 1,
                    StillLifePattern::Loaf => 2,
                    StillLifePattern::Boat => 3,
                    StillLifePattern::Tub => 4,
                };
                proof {
                    assert(slot == slot_of(pattern));
                }
                counts.set(slot, counts[slot] + 1);
                known = true;
            }
            if !known {
                unknown_components += 1;
            }
            proof {
                leader_step_counts(board, c_before, u_before, counts@, unknown_components, width as nat, y as int, x as nat, pos, class);
                assert forall|c: CellCoordinate|
                    in_area(c, width, height) && before_cell(c, next) implies #[trigger] seen(visited@, width, c) by {
                    lemma_seen_index(width, height, c, c);
                    if c != pos {
                        assert(before_cell(c, pos));
                        assert(seen(v_before, width, c));
                    } else {
                        lemma_linked_refl(board, pos);
                        assert(linked(board, pos, pos));
                    }
                }
                assert forall|c: CellCoordinate|
                    in_area(c, width, height) && #[trigger] seen(visited@, width, c) && live_cell(board, c)
                        && !before_cell(c, next) implies !leads(board, c) by {
                    lemma_seen_index(width, height, c, c);
                    if !seen(v_before, width, c) {
                        assert(linked(board, pos, c));
                        assert(c != pos);
                        lemma_linked_symm(board, pos, c);
                        assert(!before_cell(c, pos));
                        assert(before_cell(pos, c));
                    }
                }
            }
            x += 1;
        }
        proof {
            assert forall|p: StillLifePattern| #![trigger leads_with(board, Some(p))]
                counts@[slot_of(p)] == grid_count(leads_with(board, Some(p)), width as nat, (y + 1) as nat) + row_count(
                    leads_with(board, Some(p)),
                    (y + 1) as int,
                    0,
                ) by {
                assert(counts@[slot_of(p)] == grid_count(leads_with(board, Some(p)), width as nat, y as nat) + row_count(
                    leads_with(board, Some(p)),
                    y as int,
                    width as nat,
                ));
            }
            assert forall|c: CellCoordinate| in_area(c, width, height) && c.y < y + 1 implies #[trigger] seen(visited@, width, c) by {
                if c.y == y {
                    assert(before_cell(c, CellCoordinate { x: width, y }));
                }
            }
        }
        y += 1;
    }
    proof {
        reveal_with_fuel(prefix_sum, 6);
        assert(prefix_sum(counts@, 5) == counts@[0] + counts@[1] + counts@[2] + counts@[3] + counts@[4]);
        assert(counts_total(Seq::<StillLifePatternCount>::empty()) == 0);
        assert forall|p: StillLifePattern| #![trigger leads_with(board, Some(p))] counts@[slot_of(p)] == components_of(board, Some(p)) by {
            assert(counts@[slot_of(p)] == grid_count(leads_with(board, Some(p)), width as nat, height as nat) + row_count(
                leads_with(board, Some(p)),
                height as int,
                0,
            ));
        }
    }
    let patterns: Vec<StillLifePattern> = vec![
        StillLifePattern::Block,
        StillLifePattern::Beehive,
        StillLifePattern::Loaf,
        StillLifePattern::Boat,
        StillLifePattern::Tub,
    ];
    let mut out: Vec<StillLifePatternCount> = Vec::new();
    let mut p: usize = 0;
    while p < 5
        invariant
            p <= 5,
            counts@.len() == 5,
            patterns@ == seq![
                StillLifePattern::Block,
                StillLifePattern::Beehive,
                StillLifePattern::Loaf,
                StillLifePattern::Boat,
                StillLifePattern::Tub,
            ],
            forall|i: int| 0 <= i < out@.len() ==> #[trigger] out@[i].count >= 1,
            forall|i: int| 0 <= i < out@.len() ==> #[trigger] pattern_rank(out@[i].pattern) < p,
            forall|i: int, j: int|
                0 <= i < j < out@.len() ==> pattern_rank(out@[i].pattern) < pattern_rank(out@[j].pattern),
            counts_total(out@) == prefix_sum(counts@, p as nat),
            forall|q: StillLifePattern| #[trigger] count_of(out@, q) == if pattern_rank(q) < p {
                counts@[slot_of(q)] as nat
            } else {
                0
            },
        decreases 5 - p,
    {
        if counts[p] > 0 {
            let e = StillLifePatternCount { pattern: patterns[p], count: counts[p] };
            proof {
                lemma_counts_total_push(out@, e);
                assert(pattern_rank(e.pattern) == p);
                assert forall|i: int| 0 <= i < out@.len() implies (#[trigger] out@[i]).pattern != e.pattern by {
                    assert(pattern_rank(out@[i].pattern) < p);
                }
                assert forall|q: StillLifePattern| #[trigger] count_of(out@.push(e), q) == if pattern_rank(q) < p + 1 {
                    counts@[slot_of(q)] as nat
                } else {
                    0
                } by {
                    lemma_count_of_push(out@, e, q);
                    if q == e.pattern {
                        assert(slot_of(q) == p);
                    } else {
                        assert(pattern_rank(q) != p);
                    }
                }
            }
            out.push(e);
        } else {
            proof {
                assert forall|q: StillLifePattern| #[trigger] count_of(out@, q) == if pattern_rank(q) < p + 1 {
                    counts@[slot_of(q)] as nat
                } else {
                    0
                } by {
                    if pattern_rank(q) == p {
                        assert(slot_of(q) == p);
                        assert(patterns@[p as int] == q);
                    }
                }
            }
        }
        p += 1;
    }
    proof {
        assert forall|q: StillLifePattern| #[trigger] count_of(out@, q) == components_of(board, Some(q)) by {
            assert(count_of(out@, q) == counts@[slot_of(q)] as nat);
            assert(leads_with(board, Some(q)) == leads_with(board, Some(q)));
        }
    }
    Ok(StillLifePatternSummary { counts: out, unknown_components })
}

/// A scanned cell that leads no component leaves the counts as they are.
proof fn self_step_counts<B: BoardView + ?Sized>(
    b: &B,
    counts: Seq<usize>,
    unknown: usize,
    w: nat,
    y: int,
    x: nat,
    pos: CellCoordinate,
)
    requires
        counted_upto(b, counts, unknown, w, y, x),
        pos.x == x,
        pos.y == y,
        !leads(b, pos),
    ensures
        counted_upto(b, counts, unknown, w, y, x + 1),
{
    assert forall|p: StillLifePattern| #![trigger leads_with(b, Some(p))]
        counts[slot_of(p)] == grid_count(leads_with(b, Some(p)), w, y as nat) + row_count(leads_with(b, Some(p)), y, x + 1) by {
        let c = CellCoordinate { x: (x as int) as usize, y: y as usize };
        assert(c == pos);
        assert(!leads_with(b, Some(p))(x as int, y));
        assert(row_count(leads_with(b, Some(p)), y, x + 1) == row_count(leads_with(b, Some(p)), y, x) + crate::board::grid::bit(
            leads_with(b, Some(p))(x as int, y),
        ));
    }
    let c = CellCoordinate { x: (x as int) as usize, y: y as usize };
    assert(c == pos);
    assert(!leads_with(b, None)(x as int, y));
    assert(row_count(leads_with(b, None), y, x + 1) == row_count(leads_with(b, None), y, x) + crate::board::grid::bit(
        leads_with(b, None)(x as int, y),
    ));
}

/// A scanned cell that leads a component of class `class` adds one to
/// that class's count.
proof fn leader_step_counts<B: BoardView + ?Sized>(
    b: &B,
    c0: Seq<usize>,
    u0: usize,
    counts: Seq<usize>,
    unknown: usize,
    w: nat,
    y: int,
    x: nat,
    pos: CellCoordinate,
    class: Option<StillLifePattern>,
)
    requires
        counted_upto(b, c0, u0, w, y, x),
        pos.x == x,
        pos.y == y,
        leads(b, pos),
        class == component_class(b, pos),
        c0.len() == 5,
        counts.len() == 5,
        match class {
            Some(p) => counts[slot_of(p)] == c0[slot_of(p)] + 1 && unknown == u0 && forall|i: int|
                0 <= i < 5 && i != slot_of(p) ==> counts[i] == c0[i],
            None => counts == c0 && unknown == u0 + 1,
        },
    ensures
        counted_upto(b, counts, unknown, w, y, x + 1),
{
    assert forall|p: StillLifePattern| #![trigger leads_with(b, Some(p))]
        counts[slot_of(p)] == grid_count(leads_with(b, Some(p)), w, y as nat) + row_count(leads_with(b, Some(p)), y, x + 1) by {
        let c = CellCoordinate { x: (x as int) as usize, y: y as usize };
        assert(c == pos);
        assert(leads_with(b, Some(p))(x as int, y) == (class == Some(p)));
        assert(c0[slot_of(p)] == grid_count(leads_with(b, Some(p)), w, y as nat) + row_count(leads_with(b, Some(p)), y, x));
        assert(row_count(leads_with(b, Some(p)), y, x + 1) == row_count(leads_with(b, Some(p)), y, x) + crate::board::grid::bit(
            leads_with(b, Some(p))(x as int, y),
        ));
        assert(0 <= slot_of(p) < 5);
        match class {
            Some(q) => {
                if q != p {
                    assert(slot_of(q) != slot_of(p));
                }
            },
            None => {},
        }
    }
    let c = CellCoordinate { x: (x as int) as usize, y: y as usize };
    assert(c == pos);
    assert(leads_with(b, None)(x as int, y) == (class is None));
    assert(row_count(leads_with(b, None), y, x + 1) == row_count(leads_with(b, None), y, x) + crate::board::grid::bit(
        leads_with(b, None)(x as int, y),
    ));
}

/// The sum of the first `n` entries.
pub open spec fn prefix_sum(c: Seq<usize>, n: nat) -> nat
    decreases n,
{
    if n == 0 {
        0
    } else {
        prefix_sum(c, (n - 1) as nat) + c[n - 1] as nat
    }
}

proof fn lemma_counts_total_push(c: Seq<StillLifePatternCount>, e: StillLifePatternCount)
    ensures
        counts_total(c.push(e)) == counts_total(c) + e.count,
    decreases c.len(),
{
    if c.len() == 0 {
        assert(c.push(e).drop_first() =~= Seq::<StillLifePatternCount>::empty());
        assert(c.push(e)[0] == e);
        assert(counts_total(c.push(e).drop_first()) == 0);
        assert(counts_total(c) == 0);
    } else {
        assert(c.push(e)[0] == c[0]);
        assert(c.push(e).drop_first() =~= c.drop_first().push(e));
        lemma_counts_total_push(c.drop_first(), e);
    }
}

proof fn lemma_no_marks(v: Seq<bool>)
    requires
        forall|j: int| 0 <= j < v.len() ==> !v[j],
    ensures
        marked_count(v) == 0,
    decreases v.len(),
{
    if v.len() > 0 {
        lemma_no_marks(v.drop_last());
    }
}

} // verus!
