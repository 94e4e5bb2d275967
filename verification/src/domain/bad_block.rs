//! Bad-block handling policy for NAND flash.

use vstd::prelude::*;

verus! {

/// What to do when an operation meets a block marked bad.
#[derive(Debug, Clone, Copy, PartialEq, Eq, Default)]
pub enum BadBlockStrategy {
    /// Stop with an error.
    #[default]
    Fail,
    /// Skip the block and continue with the next good one.
    Skip,
    /// Use the block anyway.
    Include,
}

/// State of one erase block.
#[derive(Debug, Clone, Copy, PartialEq, Eq)]
pub enum BlockStatus {
    Good,
    BadFactory,
    BadRuntime,
}

/// A table giving the state of each erase block, indexed by block number.
#[derive(Debug, Clone)]
pub struct BadBlockTable {
    pub blocks: Vec<BlockStatus>,
}

} // verus!
