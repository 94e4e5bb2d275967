//! CLI Handler - list

use vstd::prelude::*;

verus! {

/// Handler of the 'list' command.
#[derive(Debug, Clone, Copy, PartialEq, Eq)]
pub struct ListHandler;

impl ListHandler {
    pub fn new() -> (h: Self)
        ensures
            h == ListHandler,
    {
        ListHandler
    }
}

impl Default for ListHandler {
    fn default() -> (h: Self)
        ensures
            h == ListHandler,
    {
        Self::new()
    }
}

} // verus!
