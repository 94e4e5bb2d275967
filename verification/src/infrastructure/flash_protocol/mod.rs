//! Infrastructure - Flash Protocols
//!
//! Implementation of the SPI NAND, SPI NOR and EEPROM protocols.

pub mod commands;
pub mod eeprom;
pub mod nand;
pub mod nor;

use vstd::prelude::*;

use super::programmer::Programmer;
use crate::domain::FlashOperation;

verus! {

/// A protocol handler that pairs a programmer with the flash protocol
/// implementation used through it.
pub struct ProtocolHandler<P: Programmer, F: FlashOperation> {
    pub programmer: P,
    pub implementation: F,
}

} // verus!
