//! The one-time diagnostics guard.
//!
//! Setting up the process-wide log subscriber must happen exactly once,
//! however many test tasks ask for it. The guard below is the decision: the
//! first caller is told to perform the setup, every later caller is told the
//! work is already done, and the guard never leaves the initialized state.

use vstd::prelude::*;

verus! {

/// A write-once initialization flag.
pub struct InitGuard {
    initialized: bool,
}

impl InitGuard {
    /// Whether the one-time setup has already been claimed.
    pub closed spec fn is_initialized(&self) -> bool {
        self.initialized
    }

    /// A guard with nothing initialized yet.
    pub fn new() -> (g: InitGuard)
        ensures
            !g.is_initialized(),
    {
        InitGuard { initialized: false }
    }

    /// Check-and-set. Exactly the caller that finds the guard untouched is
    /// told to perform the setup; afterwards the guard is initialized for
    /// good, so no two callers are ever both told to.
    pub fn try_init(&mut self) -> (first: bool)
        ensures
            first == !old(self).is_initialized(),
            final(self).is_initialized(),
    {
        let first = !self.initialized;
        self.initialized = true;
        first
    }
}

} // verus!
