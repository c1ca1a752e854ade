//! The executable debounce engine.

use vstd::prelude::*;
use crate::model::Engine;
use crate::signal::{Change, State};

verus! {

/// A debounce engine for one input line.
///
/// It holds the stable state and counts the consecutive samples that
/// disagree with it. Its model is an [`Engine`]; every value of this type is
/// well formed.
pub struct Debounce {
    threshold: usize,
    samples: usize,
    state: State,
}

impl View for Debounce {
    type V = Engine;

    closed spec fn view(&self) -> Engine {
        Engine {
            threshold: self.threshold as nat,
            samples: self.samples as nat,
            state: self.state,
        }
    }
}

impl Debounce {
    #[verifier::type_invariant]
    spec fn inv(&self) -> bool {
        self@.wf()
    }

    /// Makes an engine that commits a transition on the `threshold`-th
    /// consecutive disagreeing sample. It starts out `Released`.
    ///
    /// A threshold of one passes every change of the input through at once.
    pub fn new(threshold: usize) -> (debounce: Self)
        requires
            threshold >= 1,
        ensures
            debounce@ == Engine::initial(threshold as nat),
            debounce@.wf(),
    {
        Debounce { threshold, samples: 0, state: State::Released }
    }

    /// Returns the stable state.
    pub fn state(&self) -> (state: State)
        ensures
            state == self@.state,
            self@.wf(),
    {
        proof {
            use_type_invariant(self);
        }
        self.state
    }

    /// Takes one raw sample and reports what it did to the stable state.
    ///
    /// A sample that agrees with the stable state clears the run of
    /// disagreeing samples. One that disagrees lengthens the run, and the
    /// one that brings it to the threshold commits the transition: the
    /// state becomes the sample and the run starts anew.
    pub fn update(&mut self, sample: State) -> (change: Change)
        ensures
            old(self)@.wf(),
            final(self)@.wf(),
            final(self)@ == old(self)@.next(sample),
            change == old(self)@.emits(sample),
            sample == old(self)@.state ==> change == Change::NoChange(sample)
                && final(self)@.samples == 0,
            !(change is NoChange) ==> final(self)@.state == sample && final(self)@.samples == 0,
            change is NoChange ==> final(self)@.state == old(self)@.state,
    {
        proof {
            use_type_invariant(&*self);
        }
        if sample != self.state {
            if self.samples == self.threshold - 1 {
                self.state = sample;
                self.samples = 0;
                self.state.to_change()
            } else {
                self.samples += 1;
                Change::NoChange(self.state)
            }
        } else {
            self.samples = 0;
            Change::NoChange(self.state)
        }
    }
}

} // verus!
