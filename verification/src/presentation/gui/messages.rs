//! Requests from the user interface to the background worker.

use vstd::prelude::*;

use crate::infrastructure::programmer::serial::ch340::SerialConfig;

verus! {

/// Messages sent from the UI/Main thread to the Background Worker
#[derive(Debug, Clone)]
pub enum GuiMessage {
    /// Request to connect to a programmer
    Connect,
    /// Request to detect chip
    DetectChip,
    /// Request to read flash into the file at `path`
    ReadFlash { path: String, start: u32, length: Option<u32> },
    /// Request to write the file at `path` to flash
    WriteFlash { path: String, start: u32, verify: bool },
    /// Request to erase flash
    EraseFlash { start: u32, length: Option<u32> },
    /// Request to set SPI speed
    SetSpeed(u8),
    /// Request to select CS line
    SetCsIndex(u8),
    /// Request to cancel current operation
    Cancel,
    /// Connect to a serial port
    SerialConnect,
    /// Disconnect from serial port
    SerialDisconnect,
    /// Configure serial port parameters
    SerialConfigure(SerialConfig),
    /// Send data to serial port
    SerialSend(Vec<u8>),
    /// Set DTR line
    SerialSetDtr(bool),
    /// Set RTS line
    SerialSetRts(bool),
    /// Auto-detect baud rate
    SerialAutoDetectBaud,
}

} // verus!
