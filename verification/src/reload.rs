//! The reload trigger: the core's contract with an external
//! change-notification source.
//!
//! Signals arriving before a reload starts coalesce into one pending
//! request (a single slot, redundant signals dropped), and a reload in
//! progress runs to completion: a new signal only marks the slot again,
//! to be served by the next start.

use vstd::prelude::*;

verus! {

/// A single-slot, drop-redundant reload trigger.
#[derive(Debug, Clone, Copy, PartialEq, Eq, Structural)]
pub struct ReloadTrigger {
    /// Whether a reload request is waiting to be served.
    pub pending: bool,
    /// Whether a reload is running right now.
    pub running: bool,
}

impl ReloadTrigger {
    /// A fresh trigger: nothing pending, nothing running.
    pub fn new() -> (r: ReloadTrigger)
        ensures
            !r.pending,
            !r.running,
    {
        ReloadTrigger { pending: false, running: false }
    }

    /// A change signal arrived.  It marks the single slot and nothing
    /// else: however many signals arrive, one pending request results,
    /// and a running reload is not interrupted.
    pub fn signal(&mut self)
        ensures
            final(self).pending,
            final(self).running == old(self).running,
    {
        self.pending = true;
    }

    /// Tries to start a reload: succeeds exactly when a request is
    /// pending and no reload is running, consuming the pending slot.
    pub fn try_start(&mut self) -> (started: bool)
        ensures
            started == (old(self).pending && !old(self).running),
            started ==> !final(self).pending && final(self).running,
            !started ==> *final(self) == *old(self),
    {
        if self.pending && !self.running {
            self.pending = false;
            self.running = true;
            true
        } else {
            false
        }
    }

    /// The running reload completed.  A signal that arrived meanwhile is
    /// still pending and will be served by the next start.
    pub fn finish(&mut self)
        requires
            old(self).running,
        ensures
            !final(self).running,
            final(self).pending == old(self).pending,
    {
        self.running = false;
    }
}

} // verus!
