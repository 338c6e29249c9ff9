//! The step counter that decides when a dynamic sparse method rewires its
//! mask.

use vstd::prelude::*;

verus! {

/// Counts training steps and fires on every `update_frequency`-th one.
#[derive(Debug, Clone)]
pub struct UpdateSchedule {
    step_count: usize,
    update_frequency: usize,
}

impl UpdateSchedule {
    /// The number of steps taken so far.
    pub closed spec fn spec_step_count(&self) -> nat {
        self.step_count as nat
    }

    /// The number of steps between two mask updates.
    pub closed spec fn spec_update_frequency(&self) -> nat {
        self.update_frequency as nat
    }

    /// A schedule that has taken no step yet.
    pub fn new(update_frequency: usize) -> (s: Self)
        ensures
            s.spec_step_count() == 0,
            s.spec_update_frequency() == update_frequency,
    {
        UpdateSchedule { step_count: 0, update_frequency }
    }

    /// Takes one step and says whether the mask is to be rewired at it: the
    /// step count grows by one and the answer is whether the new count is a
    /// multiple of the update frequency.
    pub fn step(&mut self) -> (due: bool)
        requires
            old(self).spec_update_frequency() > 0,
            old(self).spec_step_count() < usize::MAX,
        ensures
            final(self).spec_step_count() == old(self).spec_step_count() + 1,
            final(self).spec_update_frequency() == old(self).spec_update_frequency(),
            due == ((old(self).spec_step_count() + 1) % old(self).spec_update_frequency() == 0),
    {
        self.step_count = self.step_count + 1;
        self.step_count % self.update_frequency == 0
    }

    /// The number of steps taken so far.
    pub fn step_count(&self) -> (r: usize)
        ensures
            r == self.spec_step_count(),
    {
        self.step_count
    }

    /// The number of steps between two mask updates.
    pub fn update_frequency(&self) -> (r: usize)
        ensures
            r == self.spec_update_frequency(),
    {
        self.update_frequency
    }
}

} // verus!
