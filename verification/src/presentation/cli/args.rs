//! Command-line arguments of the programmer tool, as plain values.
//!
//! The application parses the command line into these values; paths are
//! kept as the text the user gave.

use vstd::prelude::*;

verus! {

/// nander-rs - A modern SPI NAND/NOR Flash programmer
///
/// Supports CH341A-based programmers for reading, writing, and erasing
/// SPI NAND and NOR flash chips.
#[derive(Debug, Clone)]
pub struct Args {
    /// Enable verbose output
    pub verbose: bool,
    /// SPI speed setting (0=~21kHz, 1=~100kHz, 2=~400kHz, 3=~750kHz,
    /// 4=~1.5MHz, 5=~3MHz, 6=~6MHz, 7=~12MHz). Default: 5 (~3MHz)
    pub spi_speed: u8,
    /// Command to execute
    pub command: Command,
}

/// Available commands
#[derive(Debug, Clone)]
pub enum Command {
    /// Detect and display information about the connected flash chip
    Info,
    /// List all supported flash chips
    List,
    /// Read flash contents to a file
    Read {
        /// Output file path
        output: String,
        /// Number of bytes to read (default: entire chip)
        length: Option<u32>,
        /// Start address (default: 0)
        start: u32,
        /// Disable internal ECC
        disable_ecc: bool,
        /// Skip bad blocks encountered during operation (NAND only)
        skip_bad: bool,
        /// Include blocks even if marked bad (NAND only)
        include_bad: bool,
        /// Read OOB data alongside main page (NAND only)
        oob: bool,
        /// Read ONLY OOB data (NAND only)
        oob_only: bool,
        /// Ignore ECC errors and continue reading (NAND only)
        ignore_ecc: bool,
    },
    /// Write a file to flash
    Write {
        /// Input file path
        input: String,
        /// Start address (default: 0)
        start: u32,
        /// Verify after writing (default: true)
        verify: bool,
        /// Disable internal ECC
        disable_ecc: bool,
        /// Skip bad blocks encountered during operation (NAND only)
        skip_bad: bool,
        /// Include blocks even if marked bad (NAND only)
        include_bad: bool,
        /// Write OOB data alongside main page (NAND only)
        oob: bool,
        /// Write ONLY OOB data (NAND only)
        oob_only: bool,
        /// Ignore ECC errors during verify (NAND only)
        ignore_ecc: bool,
    },
    /// Erase flash contents
    Erase {
        /// Number of bytes to erase (default: entire chip)
        length: Option<u32>,
        /// Start address (default: 0)
        start: u32,
        /// Disable internal ECC (for NAND flash)
        disable_ecc: bool,
        /// Skip bad blocks encountered during operation (NAND only)
        skip_bad: bool,
        /// Include blocks even if marked bad (NAND only)
        include_bad: bool,
    },
    /// Verify flash contents against a file
    Verify {
        /// Input file path to verify against
        input: String,
        /// Start address (default: 0)
        start: u32,
        /// Disable internal ECC
        disable_ecc: bool,
        /// Skip bad blocks encountered during operation (NAND only)
        skip_bad: bool,
        /// Include blocks even if marked bad (NAND only)
        include_bad: bool,
        /// Verify OOB data alongside main page (NAND only)
        oob: bool,
        /// Verify ONLY OOB data (NAND only)
        oob_only: bool,
        /// Ignore ECC errors and continue verifying (NAND only)
        ignore_ecc: bool,
    },
    /// Manage flash write protection (BP bits)
    Protect {
        /// Operation: status, enable, disable (default: status)
        operation: String,
    },
    /// Directly read or write status register(s)
    Status {
        /// New status register value(s) in hex; when given, they are written
        value: Option<String>,
    },
    /// Bad Block Table management
    Bbt { command: BbtCommand },
}

/// Bad block table subcommands
#[derive(Debug, Clone, Copy, PartialEq, Eq)]
pub enum BbtCommand {
    /// Scan chip and list all bad blocks
    Scan,
}

} // verus!
