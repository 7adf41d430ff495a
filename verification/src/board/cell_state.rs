use vstd::prelude::*;

verus! {

/// State of a single cell.
///
/// `Dying` and `Resurrecting` are transitional states used while a generation
/// is being computed in place: `Dying` was alive and will be dead, and
/// `Resurrecting` was dead and will be alive. Outside a generation every cell
/// is either `Dead` or `Alive`.
#[derive(Debug, Clone, Copy, PartialEq, Eq, Structural)]
pub enum CellState {
    Dead,
    Alive,
    Dying,
    Resurrecting,
}

impl CellState {
    /// Whether the value stands for a cell that was alive at the start of the
    /// current generation (`Alive` or `Dying`).
    pub open spec fn was_alive(self) -> bool {
        self == CellState::Alive || self == CellState::Dying
    }

    /// The two-state form of a possibly transitional value.
    pub open spec fn normal_form(self) -> CellState {
        match self {
            CellState::Dying => CellState::Dead,
            CellState::Resurrecting => CellState::Alive,
            other => other,
        }
    }

    /// The transitional value that records both the old and the new liveness.
    pub open spec fn transition(was_alive: bool, will_be_alive: bool) -> CellState {
        if was_alive {
            if will_be_alive { CellState::Alive } else { CellState::Dying }
        } else {
            if will_be_alive { CellState::Resurrecting } else { CellState::Dead }
        }
    }

    /// The final two-state value of a cell whose liveness is `alive`.
    pub open spec fn of_liveness(alive: bool) -> CellState {
        if alive { CellState::Alive } else { CellState::Dead }
    }

    /// True if this cell was alive at the start of the current generation.
    pub fn is_originally_alive(self) -> (r: bool)
        ensures
            r == self.was_alive(),
    {
        match self {
            CellState::Alive | CellState::Dying => true,
            _ => false,
        }
    }

    /// Converts a possibly transitional state to its final two-state form.
    pub fn normalized(self) -> (r: CellState)
        ensures
            r == self.normal_form(),
    {
        match self {
            CellState::Dying => CellState::Dead,
            CellState::Resurrecting => CellState::Alive,
            other => other,
        }
    }

    /// Builds the transitional state that encodes a mark-phase transition.
    pub fn from_transition(was_alive: bool, will_be_alive: bool) -> (r: CellState)
        ensures
            r == CellState::transition(was_alive, will_be_alive),
    {
        match (was_alive, will_be_alive) {
            (true, true) => CellState::Alive,
            (true, false) => CellState::Dying,
            (false, true) => CellState::Resurrecting,
            (false, false) => CellState::Dead,
        }
    }
}

/// A transitional value remembers whether the cell was alive, and normalizes
/// to the new liveness.
pub proof fn lemma_transition_round_trip(was_alive: bool, will_be_alive: bool)
    ensures
        CellState::transition(was_alive, will_be_alive).was_alive() == was_alive,
        CellState::transition(was_alive, will_be_alive).normal_form() == CellState::of_liveness(
            will_be_alive,
        ),
{
}

} // verus!
