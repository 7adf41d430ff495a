use vstd::prelude::*;

verus! {

/// Identifies a cell by its zero-based board coordinates.
#[derive(Debug, Clone, Copy, PartialEq, Eq, Hash, Structural)]
pub struct CellCoordinate {
    pub x: usize,
    pub y: usize,
}

impl CellCoordinate {
    pub fn new(x: usize, y: usize) -> (r: Self)
        ensures
            r.x == x,
            r.y == y,
    {
        Self { x, y }
    }
}

} // verus!
