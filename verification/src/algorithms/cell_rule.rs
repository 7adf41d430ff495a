use vstd::prelude::*;

verus! {

/// Pure rule deciding the next liveness of a single cell from its current
/// liveness and the number of its live neighbors.
///
/// Implementations must be deterministic: the result is `rule_next` of the
/// arguments.
pub trait CellRule {
    spec fn rule_next(&self, currently_alive: bool, live_neighbors: nat) -> bool;

    fn next_state(&self, currently_alive: bool, live_neighbors: usize) -> (r: bool)
        ensures
            r == self.rule_next(currently_alive, live_neighbors as nat),
    ;
}

/// Conway's B3/S23 rule.
pub open spec fn conway_next(currently_alive: bool, live_neighbors: nat) -> bool {
    if currently_alive {
        live_neighbors == 2 || live_neighbors == 3
    } else {
        live_neighbors == 3
    }
}

} // verus!
