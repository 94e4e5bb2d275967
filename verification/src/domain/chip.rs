//! Chip specification model: geometry and capabilities.

use vstd::prelude::*;

use super::types::{Capacity, FlashType, JedecId};

verus! {

/// Page/block geometry of a chip.
#[derive(Debug, Clone, Copy, PartialEq, Eq)]
pub struct ChipLayout {
    /// Bytes per page (main area).
    pub page_size: u32,
    /// Bytes per erase block.
    pub block_size: u32,
    /// Bytes of spare (OOB) area per page, for NAND.
    pub oob_size: Option<u32>,
    /// Whether the chip uses DataFlash (power-of-two-less) addressing.
    pub is_dataflash: bool,
}

impl ChipLayout {
    /// Number of pages in an erase block.
    pub fn pages_per_block(&self) -> (n: u32)
        requires
            self.page_size > 0,
        ensures
            n == self.block_size / self.page_size,
    {
        self.block_size / self.page_size
    }

    /// Number of pages on a chip of the given capacity.
    pub fn total_pages(&self, capacity: Capacity) -> (n: u32)
        requires
            self.page_size > 0,
        ensures
            n == capacity.0 / self.page_size,
    {
        capacity.0 / self.page_size
    }
}

/// Optional features of a chip.
#[derive(Debug, Clone, Copy, PartialEq, Eq, Default)]
pub struct ChipCapabilities {
    /// The internal ECC of a NAND chip can be switched on and off.
    pub supports_ecc_control: bool,
    /// A NOR chip is addressed with 4-byte addresses (chips above 16 MiB).
    pub supports_4byte_addr: bool,
}

/// Location of the one-time-programmable area of a chip.
#[derive(Debug, Clone, Copy, PartialEq, Eq)]
pub struct OtpRegion {
    pub start_page: u32,
    pub page_count: u32,
}

/// Full description of a chip.
#[derive(Debug, Clone, PartialEq, Eq)]
pub struct ChipSpec {
    pub name: String,
    pub manufacturer: String,
    pub jedec_id: JedecId,
    pub flash_type: FlashType,
    pub capacity: Capacity,
    pub layout: ChipLayout,
    pub capabilities: ChipCapabilities,
    pub otp: Option<OtpRegion>,
}

} // verus!
