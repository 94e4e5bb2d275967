//! Domain layer: chip descriptions, flash requests and the flash operation interface.

pub mod bad_block;
pub mod chip;
pub mod flash_operation;
pub mod types;

pub use bad_block::{BadBlockStrategy, BadBlockTable, BlockStatus};
pub use chip::{ChipCapabilities, ChipLayout, ChipSpec, OtpRegion};
pub use flash_operation::{
    EraseRequest, FlashOperation, FlashOptions, OobMode, ReadRequest, WriteRequest,
};
pub use types::{Address, Capacity, FlashType, JedecId, Progress};
