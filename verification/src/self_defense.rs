//! Self-defense capability state: the flag that records an illegal-access
//! report. The watchdog loop that polls it and the platform shutdown it
//! initiates are external collaborators; the engine only sets and reads
//! this explicit shared state.

use vstd::prelude::*;

verus! {

/// The observable self-defense state.
pub struct SelfDefense {
    pub illegal_triggered: bool,
}

impl SelfDefense {
    /// Fresh state: no illegal access reported.
    pub fn new() -> (r: SelfDefense)
        ensures
            !r.illegal_triggered,
    {
        SelfDefense { illegal_triggered: false }
    }

    /// Reports suspicious activity; the watchdog reacts on its next poll.
    pub fn trigger_illegal_access(&mut self)
        ensures
            final(self).illegal_triggered,
    {
        self.illegal_triggered = true;
    }

    /// Whether an illegal access has been reported: the watchdog's poll.
    pub fn is_triggered(&self) -> (r: bool)
        ensures
            r == self.illegal_triggered,
    {
        self.illegal_triggered
    }
}

} // verus!
