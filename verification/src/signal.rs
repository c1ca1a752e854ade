//! The two value types of the debouncer: the stable state of the input and
//! the outcome of one step.

use vstd::prelude::*;

verus! {

/// The stable reading of the input.
#[derive(PartialEq, Eq, Structural, Copy, Clone, Debug)]
pub enum State {
    /// The input is active (pressed).
    Touched,
    /// The input is inactive.
    Released,
}

/// What one step of the engine did.
#[derive(PartialEq, Eq, Structural, Copy, Clone, Debug)]
pub enum Change {
    /// The stable state became `Touched` in this step.
    Touch,
    /// The stable state became `Released` in this step.
    Release,
    /// The stable state did not change; it is carried along.
    NoChange(State),
}

impl State {
    /// The other one of the two states.
    pub open spec fn flipped(self) -> State {
        match self {
            State::Touched => State::Released,
            State::Released => State::Touched,
        }
    }

    /// The event that reports a transition into this state.
    pub open spec fn entering(self) -> Change {
        match self {
            State::Touched => Change::Touch,
            State::Released => Change::Release,
        }
    }

    /// The state that a raw boolean reading stands for: `true` is `Touched`.
    pub open spec fn of_reading(touched: bool) -> State {
        if touched {
            State::Touched
        } else {
            State::Released
        }
    }

    /// Returns the event that reports a transition into this state.
    pub fn to_change(self) -> (change: Change)
        ensures
            change == self.entering(),
    {
        match self {
            State::Touched => Change::Touch,
            State::Released => Change::Release,
        }
    }
}

impl Change {
    /// The stable state that holds once this change has been reported.
    pub open spec fn resulting(self) -> State {
        match self {
            Change::Touch => State::Touched,
            Change::Release => State::Released,
            Change::NoChange(state) => state,
        }
    }
}

impl From<bool> for State {
    /// Reads a raw boolean sample: `true` is `Touched`, `false` is `Released`.
    fn from(touched: bool) -> (state: State) {
        if touched {
            State::Touched
        } else {
            State::Released
        }
    }
}

impl vstd::std_specs::convert::FromSpecImpl<bool> for State {
    open spec fn obeys_from_spec() -> bool {
        true
    }

    open spec fn from_spec(touched: bool) -> State {
        State::of_reading(touched)
    }
}

impl From<Change> for State {
    /// The stable state that holds once `change` has been reported.
    fn from(change: Change) -> (state: State) {
        match change {
            Change::Touch => State::Touched,
            Change::Release => State::Released,
            Change::NoChange(state) => state,
        }
    }
}

impl vstd::std_specs::convert::FromSpecImpl<Change> for State {
    open spec fn obeys_from_spec() -> bool {
        true
    }

    open spec fn from_spec(change: Change) -> State {
        change.resulting()
    }
}

/// Reporting a transition into a state and reading the report back gives
/// that state again, and such a report is never `NoChange`.
pub proof fn lemma_entering_resulting(state: State)
    ensures
        state.entering().resulting() == state,
        !(state.entering() is NoChange),
{
}

} // verus!
