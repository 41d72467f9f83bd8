//! Hardware-lockdown capability state. Detection heuristics and OS-level
//! shutdown belong to an external collaborator; this module holds the
//! explicit shared flag the engine queries and the collaborator sets, in
//! place of hidden global state.

use vstd::prelude::*;

verus! {

/// The lockdown collaborator's observable state: a polling interval and
/// the flag recording that illegal access was detected.
pub struct HardwareLockdown {
    pub access_check_interval_ms: u64,
    pub illegal_access_detected: bool,
}

impl HardwareLockdown {
    /// Fresh state: nothing detected yet.
    pub fn new(check_interval_ms: u64) -> (r: HardwareLockdown)
        ensures
            r.access_check_interval_ms == check_interval_ms,
            !r.illegal_access_detected,
    {
        HardwareLockdown {
            access_check_interval_ms: check_interval_ms,
            illegal_access_detected: false,
        }
    }

    /// The detection stub: no access pattern is flagged.
    pub fn detect_illegal_access() -> (r: bool)
        ensures
            !r,
    {
        false
    }

    /// Records a detection; the monitoring loop calls this before it
    /// initiates the platform lockdown action.
    pub fn note_illegal_access(&mut self)
        ensures
            final(self).illegal_access_detected,
            final(self).access_check_interval_ms == old(self).access_check_interval_ms,
    {
        self.illegal_access_detected = true;
    }

    /// Whether lockdown has been triggered on this instance.
    pub fn lockdown_triggered(&self) -> (r: bool)
        ensures
            r == self.illegal_access_detected,
    {
        self.illegal_access_detected
    }
}

} // verus!
