//! The registry of planner hooks. It is made once when the system starts
//! and handed to the planner by reference, so that each planning context
//! can have a registry of its own.

use vstd::prelude::*;

verus! {

/// Which hooks are registered.
#[derive(Debug, Clone, Copy, PartialEq, Eq, Structural)]
pub struct HookRegistry {
    pub window_aggregates: bool,
}

impl HookRegistry {
    /// A registry without any hook.
    pub fn new() -> (registry: HookRegistry)
        ensures
            !registry.window_aggregates,
    {
        HookRegistry { window_aggregates: false }
    }

    /// Registers the hook that lets windowed aggregates be pushed down.
    /// Registering it again changes nothing.
    pub fn register_window_aggregate_hook(&mut self)
        ensures
            final(self).window_aggregates,
    {
        self.window_aggregates = true;
    }

    /// Whether the hook for windowed aggregates is registered.
    pub fn handles_window_aggregates(&self) -> (registered: bool)
        ensures
            registered == self.window_aggregates,
    {
        self.window_aggregates
    }
}

} // verus!
