//! The catalog's shapes are the still lifes they are named after: each
//! one, on a board with a dead border around it, is left as it is by a
//! generation of Conway's rule, and has the size the still life has.
use vstd::prelude::*;

use crate::board::grid::in_bounds;
use crate::board::CellState;
use crate::patterns::{catalog_points, StillLifePattern};
use crate::simulation::conway_step;

verus! {

/// Whether one of the points of `s` from index `i` on is `(x, y)`.
pub open spec fn shape_has(s: Seq<(i64, i64)>, i: nat, x: int, y: int) -> bool
    decreases s.len() - i,
{
    if i >= s.len() {
        false
    } else {
        (s[i as int].0 == x && s[i as int].1 == y) || shape_has(s, i + 1, x, y)
    }
}

/// A `6 × 6` board holding `s` one cell in from its top-left corner, every
/// other cell dead.
pub open spec fn shape_grid(s: Seq<(i64, i64)>) -> spec_fn(int, int) -> CellState {
    |x: int, y: int| if shape_has(s, 0, x - 1, y - 1) {
        CellState::Alive
    } else {
        CellState::Dead
    }
}

/// Number of cells and width and height of the still life a pattern names.
pub open spec fn still_life_size(p: StillLifePattern) -> (nat, int, int) {
    match p {
        StillLifePattern::Block => (4, 2, 2),
        StillLifePattern::Beehive => (6, 4, 3),
        StillLifePattern::Loaf => (7, 4, 4),
        StillLifePattern::Boat => (5, 3, 3),
        StillLifePattern::Tub => (4, 3, 3),
    }
}
proof fn lemma_block_cell(x: int, y: int)
    requires
        0 <= x < 6,
        0 <= y < 6,
    ensures
        conway_step(shape_grid(catalog_points(StillLifePattern::Block)), 6, 6)(x, y) == shape_grid(
            catalog_points(StillLifePattern::Block),
        )(x, y),
{
    reveal_with_fuel(shape_has, 8);
    if x == 0 {
        if y == 0 {
        } else if y == 1 {
        } else if y == 2 {
        } else if y == 3 {
        } else if y == 4 {
        } else if y == 5 {
        }
    } else if x == 1 {
        if y == 0 {
        } else if y == 1 {
        } else if y == 2 {
        } else if y == 3 {
        } else if y == 4 {
        } else if y == 5 {
        }
    } else if x == 2 {
        if y == 0 {
        } else if y == 1 {
        } else if y == 2 {
        } else if y == 3 {
        } else if y == 4 {
        } else if y == 5 {
        }
    } else if x == 3 {
        if y == 0 {
        } else if y == 1 {
        } else if y == 2 {
        } else if y == 3 {
        } else if y == 4 {
        } else if y == 5 {
        }
    } else if x == 4 {
        if y == 0 {
        } else if y == 1 {
        } else if y == 2 {
        } else if y == 3 {
        } else if y == 4 {
        } else if y == 5 {
        }
    } else if x == 5 {
        if y == 0 {
        } else if y == 1 {
        } else if y == 2 {
        } else if y == 3 {
        } else if y == 4 {
        } else if y == 5 {
        }
    }
}

proof fn lemma_beehive_cell(x: int, y: int)
    requires
        0 <= x < 6,
        0 <= y < 6,
    ensures
        conway_step(shape_grid(catalog_points(StillLifePattern::Beehive)), 6, 6)(x, y) == shape_grid(
            catalog_points(StillLifePattern::Beehive),
        )(x, y),
{
    reveal_with_fuel(shape_has, 8);
    if x == 0 {
        if y == 0 {
        } else if y == 1 {
        } else if y == 2 {
        } else if y == 3 {
        } else if y == 4 {
        } else if y == 5 {
        }
    } else if x == 1 {
        if y == 0 {
        } else if y == 1 {
        } else if y == 2 {
        } else if y == 3 {
        } else if y == 4 {
        } else if y == 5 {
        }
    } else if x == 2 {
        if y == 0 {
        } else if y == 1 {
        } else if y == 2 {
        } else if y == 3 {
        } else if y == 4 {
        } else if y == 5 {
        }
    } else if x == 3 {
        if y == 0 {
        } else if y == 1 {
        } else if y == 2 {
        } else if y == 3 {
        } else if y == 4 {
        } else if y == 5 {
        }
    } else if x == 4 {
        if y == 0 {
        } else if y == 1 {
        } else if y == 2 {
        } else if y == 3 {
        } else if y == 4 {
        } else if y == 5 {
        }
    } else if x == 5 {
        if y == 0 {
        } else if y == 1 {
        } else if y == 2 {
        } else if y == 3 {
        } else if y == 4 {
        } else if y == 5 {
        }
    }
}

proof fn lemma_loaf_cell(x: int, y: int)
    requires
        0 <= x < 6,
        0 <= y < 6,
    ensures
        conway_step(shape_grid(catalog_points(StillLifePattern::Loaf)), 6, 6)(x, y) == shape_grid(
            catalog_points(StillLifePattern::Loaf),
        )(x, y),
{
    reveal_with_fuel(shape_has, 8);
    if x == 0 {
        if y == 0 {
        } else if y == 1 {
        } else if y == 2 {
        } else if y == 3 {
        } else if y == 4 {
        } else if y == 5 {
        }
    } else if x == 1 {
        if y == 0 {
        } else if y == 1 {
        } else if y == 2 {
        } else if y == 3 {
        } else if y == 4 {
        } else if y == 5 {
        }
    } else if x == 2 {
        if y == 0 {
        } else if y == 1 {
        } else if y == 2 {
        } else if y == 3 {
        } else if y == 4 {
        } else if y == 5 {
        }
    } else if x == 3 {
        if y == 0 {
        } else if y == 1 {
        } else if y == 2 {
        } else if y == 3 {
        } else if y == 4 {
        } else if y == 5 {
        }
    } else if x == 4 {
        if y == 0 {
        } else if y == 1 {
        } else if y == 2 {
        } else if y == 3 {
        } else if y == 4 {
        } else if y == 5 {
        }
    } else if x == 5 {
        if y == 0 {
        } else if y == 1 {
        } else if y == 2 {
        } else if y == 3 {
        } else if y == 4 {
        } else if y == 5 {
        }
    }
}

proof fn lemma_boat_cell(x: int, y: int)
    requires
        0 <= x < 6,
        0 <= y < 6,
    ensures
        conway_step(shape_grid(catalog_points(StillLifePattern::Boat)), 6, 6)(x, y) == shape_grid(
            catalog_points(StillLifePattern::Boat),
        )(x, y),
{
    reveal_with_fuel(shape_has, 8);
    if x == 0 {
        if y == 0 {
        } else if y == 1 {
        } else if y == 2 {
        } else if y == 3 {
        } else if y == 4 {
        } else if y == 5 {
        }
    } else if x == 1 {
        if y == 0 {
        } else if y == 1 {
        } else if y == 2 {
        } else if y == 3 {
        } else if y == 4 {
        } else if y == 5 {
        }
    } else if x == 2 {
        if y == 0 {
        } else if y == 1 {
        } else if y == 2 {
        } else if y == 3 {
        } else if y == 4 {
        } else if y == 5 {
        }
    } else if x == 3 {
        if y == 0 {
        } else if y == 1 {
        } else if y == 2 {
        } else if y == 3 {
        } else if y == 4 {
        } else if y == 5 {
        }
    } else if x == 4 {
        if y == 0 {
        } else if y == 1 {
        } else if y == 2 {
        } else if y == 3 {
        } else if y == 4 {
        } else if y == 5 {
        }
    } else if x == 5 {
        if y == 0 {
        } else if y == 1 {
        } else if y == 2 {
        } else if y == 3 {
        } else if y == 4 {
        } else if y == 5 {
        }
    }
}

proof fn lemma_tub_cell(x: int, y: int)
    requires
        0 <= x < 6,
        0 <= y < 6,
    ensures
        conway_step(shape_grid(catalog_points(StillLifePattern::Tub)), 6, 6)(x, y) == shape_grid(
            catalog_points(StillLifePattern::Tub),
        )(x, y),
{
    reveal_with_fuel(shape_has, 8);
    if x == 0 {
        if y == 0 {
        } else if y == 1 {
        } else if y == 2 {
        } else if y == 3 {
        } else if y == 4 {
        } else if y == 5 {
        }
    } else if x == 1 {
        if y == 0 {
        } else if y == 1 {
        } else if y == 2 {
        } else if y == 3 {
        } else if y == 4 {
        } else if y == 5 {
        }
    } else if x == 2 {
        if y == 0 {
        } else if y == 1 {
        } else if y == 2 {
        } else if y == 3 {
        } else if y == 4 {
        } else if y == 5 {
        }
    } else if x == 3 {
        if y == 0 {
        } else if y == 1 {
        } else if y == 2 {
        } else if y == 3 {
        } else if y == 4 {
        } else if y == 5 {
        }
    } else if x == 4 {
        if y == 0 {
        } else if y == 1 {
        } else if y == 2 {
        } else if y == 3 {
        } else if y == 4 {
        } else if y == 5 {
        }
    } else if x == 5 {
        if y == 0 {
        } else if y == 1 {
        } else if y == 2 {
        } else if y == 3 {
        } else if y == 4 {
        } else if y == 5 {
        }
    }
}

/// Number of points of `s` around `(x, y)` (the point itself not counted).
pub open spec fn shape_neighbours(s: Seq<(i64, i64)>, x: int, y: int) -> nat {
    crate::board::grid::bit(shape_has(s, 0, x - 1, y - 1)) + crate::board::grid::bit(shape_has(s, 0, x, y - 1))
        + crate::board::grid::bit(shape_has(s, 0, x + 1, y - 1)) + crate::board::grid::bit(
        shape_has(s, 0, x - 1, y),
    ) + crate::board::grid::bit(shape_has(s, 0, x + 1, y)) + crate::board::grid::bit(
        shape_has(s, 0, x - 1, y + 1),
    ) + crate::board::grid::bit(shape_has(s, 0, x, y + 1)) + crate::board::grid::bit(
        shape_has(s, 0, x + 1, y + 1),
    )
}

/// Number of the points of `s` from index `i` on with exactly two
/// neighbours in `s`.
pub open spec fn two_neighbour_points(s: Seq<(i64, i64)>, i: nat) -> nat
    decreases s.len() - i,
{
    if i >= s.len() {
        0
    } else {
        crate::board::grid::bit(shape_neighbours(s, s[i as int].0 as int, s[i as int].1 as int) == 2)
            + two_neighbour_points(s, i + 1)
    }
}

/// How many cells of the still life a pattern names touch exactly two
/// others.
pub open spec fn two_neighbour_count(p: StillLifePattern) -> nat {
    match p {
        StillLifePattern::Block => 0,
        StillLifePattern::Beehive => 6,
        StillLifePattern::Loaf => 7,
        StillLifePattern::Boat => 3,
        StillLifePattern::Tub => 4,
    }
}

proof fn lemma_block_two_neighbours()
    ensures
        two_neighbour_points(catalog_points(StillLifePattern::Block), 0) == two_neighbour_count(StillLifePattern::Block),
{
    let s = catalog_points(StillLifePattern::Block);
    reveal_with_fuel(shape_has, 8);
    assert(two_neighbour_points(s, 4) == 0);
    assert(shape_neighbours(s, 1, 1) == 3);
    assert(two_neighbour_points(s, 3) == 0);
    assert(shape_neighbours(s, 0, 1) == 3);
    assert(two_neighbour_points(s, 2) == 0);
    assert(shape_neighbours(s, 1, 0) == 3);
    assert(two_neighbour_points(s, 1) == 0);
    assert(shape_neighbours(s, 0, 0) == 3);
    assert(two_neighbour_points(s, 0) == 0);
}

proof fn lemma_beehive_two_neighbours()
    ensures
        two_neighbour_points(catalog_points(StillLifePattern::Beehive), 0) == two_neighbour_count(StillLifePattern::Beehive),
{
    let s = catalog_points(StillLifePattern::Beehive);
    reveal_with_fuel(shape_has, 8);
    assert(two_neighbour_points(s, 6) == 0);
    assert(shape_neighbours(s, 2, 2) == 2);
    assert(two_neighbour_points(s, 5) == 1);
    assert(shape_neighbours(s, 1, 2) == 2);
    assert(two_neighbour_points(s, 4) == 2);
    assert(shape_neighbours(s, 3, 1) == 2);
    assert(two_neighbour_points(s, 3) == 3);
    assert(shape_neighbours(s, 0, 1) == 2);
    assert(two_neighbour_points(s, 2) == 4);
    assert(shape_neighbours(s, 2, 0) == 2);
    assert(two_neighbour_points(s, 1) == 5);
    assert(shape_neighbours(s, 1, 0) == 2);
    assert(two_neighbour_points(s, 0) == 6);
}

proof fn lemma_loaf_two_neighbours()
    ensures
        two_neighbour_points(catalog_points(StillLifePattern::Loaf), 0) == two_neighbour_count(StillLifePattern::Loaf),
{
    let s = catalog_points(StillLifePattern::Loaf);
    reveal_with_fuel(shape_has, 8);
    assert(two_neighbour_points(s, 7) == 0);
    assert(shape_neighbours(s, 2, 3) == 2);
    assert(two_neighbour_points(s, 6) == 1);
    assert(shape_neighbours(s, 3, 2) == 2);
    assert(two_neighbour_points(s, 5) == 2);
    assert(shape_neighbours(s, 1, 2) == 2);
    assert(two_neighbour_points(s, 4) == 3);
    assert(shape_neighbours(s, 3, 1) == 2);
    assert(two_neighbour_points(s, 3) == 4);
    assert(shape_neighbours(s, 0, 1) == 2);
    assert(two_neighbour_points(s, 2) == 5);
    assert(shape_neighbours(s, 2, 0) == 2);
    assert(two_neighbour_points(s, 1) == 6);
    assert(shape_neighbours(s, 1, 0) == 2);
    assert(two_neighbour_points(s, 0) == 7);
}

proof fn lemma_boat_two_neighbours()
    ensures
        two_neighbour_points(catalog_points(StillLifePattern::Boat), 0) == two_neighbour_count(StillLifePattern::Boat),
{
    let s = catalog_points(StillLifePattern::Boat);
    reveal_with_fuel(shape_has, 8);
    assert(two_neighbour_points(s, 5) == 0);
    assert(shape_neighbours(s, 1, 2) == 2);
    assert(two_neighbour_points(s, 4) == 1);
    assert(shape_neighbours(s, 2, 1) == 2);
    assert(two_neighbour_points(s, 3) == 2);
    assert(shape_neighbours(s, 0, 1) == 3);
    assert(two_neighbour_points(s, 2) == 2);
    assert(shape_neighbours(s, 1, 0) == 3);
    assert(two_neighbour_points(s, 1) == 2);
    assert(shape_neighbours(s, 0, 0) == 2);
    assert(two_neighbour_points(s, 0) == 3);
}

proof fn lemma_tub_two_neighbours()
    ensures
        two_neighbour_points(catalog_points(StillLifePattern::Tub), 0) == two_neighbour_count(StillLifePattern::Tub),
{
    let s = catalog_points(StillLifePattern::Tub);
    reveal_with_fuel(shape_has, 8);
    assert(two_neighbour_points(s, 4) == 0);
    assert(shape_neighbours(s, 1, 2) == 2);
    assert(two_neighbour_points(s, 3) == 1);
    assert(shape_neighbours(s, 2, 1) == 2);
    assert(two_neighbour_points(s, 2) == 2);
    assert(shape_neighbours(s, 0, 1) == 2);
    assert(two_neighbour_points(s, 1) == 3);
    assert(shape_neighbours(s, 1, 0) == 2);
    assert(two_neighbour_points(s, 0) == 4);
}


/// The catalog shapes are told apart from other still lifes of their size
/// by how many of their cells touch exactly two others, and the beehive by
/// being its own mirror image.
pub proof fn lemma_catalog_neighbour_counts(p: StillLifePattern)
    ensures
        two_neighbour_points(catalog_points(p), 0) == two_neighbour_count(p),
        forall|i: int|
            0 <= i < catalog_points(StillLifePattern::Beehive).len() ==> shape_has(
                catalog_points(StillLifePattern::Beehive),
                0,
                3 - #[trigger] catalog_points(StillLifePattern::Beehive)[i].0,
                catalog_points(StillLifePattern::Beehive)[i].1 as int,
            ),
{
    match p {
        StillLifePattern::Block => lemma_block_two_neighbours(),
        StillLifePattern::Beehive => lemma_beehive_two_neighbours(),
        StillLifePattern::Loaf => lemma_loaf_two_neighbours(),
        StillLifePattern::Boat => lemma_boat_two_neighbours(),
        StillLifePattern::Tub => lemma_tub_two_neighbours(),
    }
    lemma_beehive_mirror();
}

proof fn lemma_beehive_mirror()
    ensures
        forall|i: int|
            0 <= i < catalog_points(StillLifePattern::Beehive).len() ==> shape_has(
                catalog_points(StillLifePattern::Beehive),
                0,
                3 - #[trigger] catalog_points(StillLifePattern::Beehive)[i].0,
                catalog_points(StillLifePattern::Beehive)[i].1 as int,
            ),
{
    reveal_with_fuel(shape_has, 8);
    let b = catalog_points(StillLifePattern::Beehive);
    assert forall|i: int| 0 <= i < b.len() implies shape_has(b, 0, 3 - #[trigger] b[i].0, b[i].1 as int) by {
        if i == 0 {
        } else if i == 1 {
        } else if i == 2 {
        } else if i == 3 {
        } else if i == 4 {
        } else {
        }
    }
}

/// Each catalog shape is the still life it is named after: a generation of
/// Conway's rule leaves it as it is, and it has that still life's number of
/// cells, width and height.
pub proof fn lemma_catalog_still_lifes(p: StillLifePattern)
    ensures
        forall|x: int, y: int|
            #![trigger conway_step(shape_grid(catalog_points(p)), 6, 6)(x, y)]
            in_bounds(6, 6, x, y) ==> conway_step(shape_grid(catalog_points(p)), 6, 6)(x, y) == shape_grid(
                catalog_points(p),
            )(x, y),
        catalog_points(p).len() == still_life_size(p).0,
        forall|i: int|
            0 <= i < catalog_points(p).len() ==> 0 <= #[trigger] catalog_points(p)[i].0 < still_life_size(p).1
                && 0 <= catalog_points(p)[i].1 < still_life_size(p).2,
        exists|i: int| 0 <= i < catalog_points(p).len() && #[trigger] catalog_points(p)[i].0 == still_life_size(p).1 - 1,
        exists|i: int| 0 <= i < catalog_points(p).len() && #[trigger] catalog_points(p)[i].1 == still_life_size(p).2 - 1,
{
    assert forall|x: int, y: int|
        #![trigger conway_step(shape_grid(catalog_points(p)), 6, 6)(x, y)]
        in_bounds(6, 6, x, y) implies conway_step(shape_grid(catalog_points(p)), 6, 6)(x, y) == shape_grid(
            catalog_points(p),
        )(x, y) by {
        match p {
            StillLifePattern::Block => lemma_block_cell(x, y),
            StillLifePattern::Beehive => lemma_beehive_cell(x, y),
            StillLifePattern::Loaf => lemma_loaf_cell(x, y),
            StillLifePattern::Boat => lemma_boat_cell(x, y),
            StillLifePattern::Tub => lemma_tub_cell(x, y),
        }
    }
    let s = catalog_points(p);
    match p {
        StillLifePattern::Block => {
            assert(s[1].0 == 1 && s[2].1 == 1);
        },
        StillLifePattern::Beehive => {
            assert(s[3].0 == 3 && s[4].1 == 2);
        },
        StillLifePattern::Loaf => {
            assert(s[3].0 == 3 && s[6].1 == 3);
        },
        StillLifePattern::Boat => {
            assert(s[3].0 == 2 && s[4].1 == 2);
        },
        StillLifePattern::Tub => {
            assert(s[2].0 == 2 && s[3].1 == 2);
        },
    }
}

} // verus!
