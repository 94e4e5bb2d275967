//! I2C subcommands for the CH341A I2C stream command

use vstd::prelude::*;

verus! {

/// Start bit
pub const START: u8 = 0x74;

/// Stop bit
pub const STOP: u8 = 0x75;

/// Output data (write). OR with length (0-31)
pub const OUT: u8 = 0x80;

/// Input data (read). OR with length (0-31)
pub const IN: u8 = 0xC0;

/// Set speed
pub const SET: u8 = 0x60;

/// End of stream
pub const END: u8 = 0x00;

} // verus!
