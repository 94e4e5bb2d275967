//! CLI Handler - Bad Block Table (bbt scan)
//!
//! The scan itself reads the chip; this handler decides whether a chip can
//! be scanned, how many blocks it has, and which ones the report lists.

use vstd::prelude::*;

use crate::domain::bad_block::{BadBlockTable, BlockStatus};
use crate::domain::{ChipSpec, FlashType};
use crate::error::{Error, Result};

verus! {

/// The blocks a report lists: those of the first `total` entries of
/// `blocks` that are marked bad, in block order, with their status.
pub open spec fn bad_entries(blocks: Seq<BlockStatus>, total: int) -> Seq<(usize, BlockStatus)>
    decreases total,
{
    if total <= 0 || blocks.len() == 0 {
        Seq::empty()
    } else if total > blocks.len() {
        bad_entries(blocks, blocks.len() as int)
    } else {
        let rest = bad_entries(blocks, total - 1);
        let b = total - 1;
        if blocks[b] == BlockStatus::Good {
            rest
        } else {
            rest.push((b as usize, blocks[b]))
        }
    }
}

/// Handler of the 'Bad Block Table (bbt scan)' command.
#[derive(Debug, Clone, Copy, PartialEq, Eq)]
pub struct BbtHandler;

impl BbtHandler {
    pub fn new() -> (h: Self)
        ensures
            h == BbtHandler,
    {
        BbtHandler
    }

    /// Only NAND chips have bad blocks to scan.
    pub fn check_flash_type(&self, flash_type: FlashType) -> (r: Result<()>)
        ensures
            r is Ok <==> flash_type == FlashType::Nand,
            r is Err ==> r->Err_0 is NotSupported && r->Err_0->NotSupported_0@
                == "BBT scan is only available for NAND flash"@,
    {
        match flash_type {
            FlashType::Nand => Ok(()),
            _ => Err(Error::NotSupported("BBT scan is only available for NAND flash".to_string())),
        }
    }

    /// Number of erase blocks of the chip `spec`.
    pub fn block_count(&self, spec: &ChipSpec) -> (n: u32)
        requires
            spec.layout.block_size > 0,
        ensures
            n == spec.capacity.0 / spec.layout.block_size,
    {
        spec.capacity.as_bytes() / spec.layout.block_size
    }

    /// The bad blocks among the first `total_blocks` entries of `bbt`, in
    /// block order, with their status.
    pub fn bad_blocks(&self, bbt: &BadBlockTable, total_blocks: usize) -> (r: Vec<(usize, BlockStatus)>)
        ensures
            r@ == bad_entries(bbt.blocks@, total_blocks as int),
    {
        let n = if total_blocks < bbt.blocks.len() {
            total_blocks
        } else {
            bbt.blocks.len()
        };
        proof {
            if total_blocks > bbt.blocks@.len() && bbt.blocks@.len() > 0 {
                assert(bad_entries(bbt.blocks@, total_blocks as int) == bad_entries(
                    bbt.blocks@,
                    bbt.blocks@.len() as int,
                ));
            }
        }
        let mut r: Vec<(usize, BlockStatus)> = Vec::new();
        let mut b: usize = 0;
        while b < n
            invariant
                n <= bbt.blocks@.len(),
                b <= n,
                r@ == bad_entries(bbt.blocks@, b as int),
            decreases n - b,
        {
            let status = bbt.blocks[b];
            match status {
                BlockStatus::Good => {},
                _ => {
                    r.push((b, status));
                },
            }
            b = b + 1;
        }
        r
    }
}

impl Default for BbtHandler {
    fn default() -> (h: Self)
        ensures
            h == BbtHandler,
    {
        Self::new()
    }
}

} // verus!
