//! CLI Handler - info

use vstd::prelude::*;

verus! {

/// Handler of the 'info' command.
#[derive(Debug, Clone, Copy, PartialEq, Eq)]
pub struct InfoHandler;

impl InfoHandler {
    pub fn new() -> (h: Self)
        ensures
            h == InfoHandler,
    {
        InfoHandler
    }
}

impl Default for InfoHandler {
    fn default() -> (h: Self)
        ensures
            h == InfoHandler,
    {
        Self::new()
    }
}

} // verus!
