//! CH341A output pin assignments (directly from CH341A pinout)

use vstd::prelude::*;

verus! {

/// D0 - SPI CS / Microwire CS (Output)
pub const CS: u8 = 0;

/// D1 - SPI CLK / Microwire SK (Output)
pub const CLK: u8 = 1;

/// D2 - SPI DIN (MISO) / Microwire DO (Input)
pub const DIN: u8 = 2;

/// D3 - SPI DOUT (MOSI) / Microwire DI (Output)
pub const DOUT: u8 = 3;

/// D4 - General purpose output (can control WP)
pub const D4: u8 = 4;

/// D5 - General purpose output (can control HOLD)
pub const D5: u8 = 5;

} // verus!
