//! The mathematical model of a debounce engine.

use vstd::prelude::*;
use crate::signal::{Change, State};

verus! {

/// An engine as a plain value: its threshold, the length of the current run
/// of disagreeing samples, and its stable state.
pub struct Engine {
    /// How many consecutive disagreeing samples commit a transition.
    pub threshold: nat,
    /// How many consecutive disagreeing samples have been seen so far.
    pub samples: nat,
    /// The stable state.
    pub state: State,
}

impl Engine {
    /// The threshold is at least one and the run is shorter than it.
    pub open spec fn wf(self) -> bool {
        &&& 1 <= self.threshold
        &&& self.samples < self.threshold
    }

    /// A fresh engine: `Released`, with no disagreeing sample seen.
    pub open spec fn initial(threshold: nat) -> Engine {
        Engine { threshold, samples: 0, state: State::Released }
    }

    /// Whether `sample` completes a run of `threshold` disagreeing samples.
    pub open spec fn commits(self, sample: State) -> bool {
        &&& sample != self.state
        &&& self.samples + 1 == self.threshold
    }

    /// The engine after one step on `sample`.
    ///
    /// An agreeing sample clears the run. A disagreeing sample lengthens it,
    /// unless it completes it: then the state flips and the run is cleared.
    pub open spec fn next(self, sample: State) -> Engine {
        if sample == self.state {
            Engine { samples: 0, ..self }
        } else if self.commits(sample) {
            Engine { samples: 0, state: sample, ..self }
        } else {
            Engine { samples: self.samples + 1, ..self }
        }
    }

    /// What one step on `sample` reports: the transition where the step
    /// commits one, else `NoChange` with the state held before the step.
    pub open spec fn emits(self, sample: State) -> Change {
        if self.commits(sample) {
            sample.entering()
        } else {
            Change::NoChange(self.state)
        }
    }

    /// The engine after a step on each of `samples`, first to last.
    pub open spec fn after(self, samples: Seq<State>) -> Engine
        decreases samples.len(),
    {
        if samples.len() == 0 {
            self
        } else {
            self.after(samples.drop_last()).next(samples.last())
        }
    }

    /// What the steps on `samples` report, one change for each sample.
    pub open spec fn changes(self, samples: Seq<State>) -> Seq<Change> {
        Seq::new(samples.len(), |i: int| self.after(samples.take(i)).emits(samples[i]))
    }
}

/// `n` samples in a row, each of them `sample`.
pub open spec fn steady(sample: State, n: nat) -> Seq<State> {
    Seq::new(n, |i: int| sample)
}

/// `n` reports in a row that `state` still holds.
pub open spec fn held(state: State, n: nat) -> Seq<Change> {
    Seq::new(n, |i: int| Change::NoChange(state))
}

} // verus!
