//! Placeholder for the processing loop: it only knows whether it runs.

use vstd::prelude::*;

verus! {

/// A processing loop that can be started and stopped.
pub struct Conductor {
    is_running: bool,
}

impl Conductor {
    /// Whether the conductor runs.
    pub closed spec fn running(&self) -> bool {
        self.is_running
    }

    /// A conductor that does not run yet.
    pub fn new() -> (r: Self)
        ensures
            !r.running(),
    {
        Conductor { is_running: false }
    }

    /// Starts the conductor.
    pub fn start(&mut self)
        ensures
            final(self).running(),
    {
        self.is_running = true;
    }

    /// Stops the conductor.
    pub fn stop(&mut self)
        ensures
            !final(self).running(),
    {
        self.is_running = false;
    }

    /// Whether the conductor runs.
    #[verifier::when_used_as_spec(running)]
    pub fn is_running(&self) -> (r: bool)
        ensures
            r == self.running(),
    {
        self.is_running
    }
}

impl Default for Conductor {
    fn default() -> (r: Self)
        ensures
            !r.running(),
    {
        Conductor::new()
    }
}

} // verus!
