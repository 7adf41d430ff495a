use vstd::prelude::*;

verus! {

/// Outcome of advancing a board by exactly one generation.
#[derive(Debug, Clone, Copy, Default, PartialEq, Eq, Structural)]
pub struct AdvanceOutcome {
    pub births: u64,
    pub deaths: u64,
    pub alive_count: u64,
}

impl AdvanceOutcome {
    pub fn from_counts(births: u64, deaths: u64, alive_count: u64) -> (r: Self)
        ensures
            r.births == births,
            r.deaths == deaths,
            r.alive_count == alive_count,
    {
        Self { births, deaths, alive_count }
    }

    /// A generation in which no cell was born and no cell died.
    pub open spec fn no_change(self) -> bool {
        self.births == 0 && self.deaths == 0
    }

    /// True when the generation changed no cell.
    pub fn is_stable(&self) -> (r: bool)
        ensures
            r == self.no_change(),
    {
        self.births == 0 && self.deaths == 0
    }
}

} // verus!
