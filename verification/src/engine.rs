//! The execution engine handle.

use vstd::prelude::*;

verus! {

/// A handle for the execution machinery.
#[derive(Debug)]
pub struct Engine;

impl Engine {
    /// Create a new engine.
    pub fn new() -> Engine {
        Engine
    }
}

impl Default for Engine {
    fn default() -> Engine {
        Engine::new()
    }
}

} // verus!
