//! CH347 protocol definitions
//!
//! Constants and helper functions for building CH347 USB command packets.

use vstd::prelude::*;

use crate::infrastructure::programmer::frames::extend_prefix;

verus! {

// ============================================================================
// CH347 Command Bytes
// ============================================================================

/// Configure SPI
pub const CMD_SPI_SET_CFG: u8 = 0xC0;

/// CS control
pub const CMD_SPI_CONTROL: u8 = 0xC1;

/// Standard read/write
pub const CMD_SPI_RD_WR: u8 = 0xC2;

/// Block read
pub const CMD_SPI_BLCK_RD: u8 = 0xC3;

/// Block write
pub const CMD_SPI_BLCK_WR: u8 = 0xC4;

/// JTAG INIT (also used for the Larger Pack handshake)
pub const CMD_JTAG_INIT: u8 = 0xD0;

// ============================================================================
// CH347 SPI Speed Settings
// ============================================================================

/// SPI clock speed settings for CH347
#[derive(Debug, Clone, Copy, PartialEq, Eq)]
pub enum SpiSpeed {
    /// 60 MHz
    Speed60M,
    /// 30 MHz
    Speed30M,
    /// 15 MHz
    Speed15M,
    /// 7.5 MHz
    Speed7_5M,
    /// 3.75 MHz
    Speed3_75M,
    /// 1.875 MHz (default)
    Medium,
    /// 937.5 KHz
    Speed937K,
    /// 468.75 KHz
    Speed468K,
}

/// The clock divisor index (0-7) of `speed`.
/// The speed with code `value` (0-7); other values give the default, ~1.875 MHz.
pub open spec fn speed_from_code(value: u8) -> SpiSpeed {
    match value {
        0 => SpiSpeed::Speed60M,
        1 => SpiSpeed::Speed30M,
        2 => SpiSpeed::Speed15M,
        3 => SpiSpeed::Speed7_5M,
        4 => SpiSpeed::Speed3_75M,
        6 => SpiSpeed::Speed937K,
        7 => SpiSpeed::Speed468K,
        _ => SpiSpeed::Medium,
    }
}

pub open spec fn speed_code(speed: SpiSpeed) -> u8 {
    match speed {
        SpiSpeed::Speed60M => 0,
        SpiSpeed::Speed30M => 1,
        SpiSpeed::Speed15M => 2,
        SpiSpeed::Speed7_5M => 3,
        SpiSpeed::Speed3_75M => 4,
        SpiSpeed::Medium => 5,
        SpiSpeed::Speed937K => 6,
        SpiSpeed::Speed468K => 7,
    }
}

/// The description of `speed`.
pub open spec fn speed_description(speed: SpiSpeed) -> &'static str {
    match speed {
        SpiSpeed::Speed60M => "60 MHz",
        SpiSpeed::Speed30M => "30 MHz",
        SpiSpeed::Speed15M => "15 MHz",
        SpiSpeed::Speed7_5M => "7.5 MHz",
        SpiSpeed::Speed3_75M => "3.75 MHz",
        SpiSpeed::Medium => "1.875 MHz",
        SpiSpeed::Speed937K => "937.5 KHz",
        SpiSpeed::Speed468K => "468.75 KHz",
    }
}

impl Default for SpiSpeed {
    /// 1.875 MHz.
    fn default() -> (s: Self)
        ensures
            s == SpiSpeed::Medium,
    {
        SpiSpeed::Medium
    }
}

impl SpiSpeed {
    /// Speed for a divisor index (0-7); the default (1.875 MHz) for others.
    pub fn from_u8(value: u8) -> (s: Self)
        ensures
            s == speed_from_code(value),
            value <= 7 ==> speed_code(s) == value,
            value > 7 ==> s == SpiSpeed::Medium,
    {
        match value {
            0 => Self::Speed60M,
            1 => Self::Speed30M,
            2 => Self::Speed15M,
            3 => Self::Speed7_5M,
            4 => Self::Speed3_75M,
            5 => Self::Medium,
            6 => Self::Speed937K,
            7 => Self::Speed468K,
            _ => Self::default(),
        }
    }

    /// The clock divisor index sent to the device.
    pub fn code(&self) -> (c: u8)
        ensures
            c == speed_code(*self),
    {
        match self {
            Self::Speed60M => 0,
            Self::Speed30M => 1,
            Self::Speed15M => 2,
            Self::Speed7_5M => 3,
            Self::Speed3_75M => 4,
            Self::Medium => 5,
            Self::Speed937K => 6,
            Self::Speed468K => 7,
        }
    }

    /// Human-readable speed.
    pub fn description(&self) -> (d: &'static str)
        ensures
            d == speed_description(*self),
    {
        match self {
            Self::Speed60M => "60 MHz",
            Self::Speed30M => "30 MHz",
            Self::Speed15M => "15 MHz",
            Self::Speed7_5M => "7.5 MHz",
            Self::Speed3_75M => "3.75 MHz",
            Self::Medium => "1.875 MHz",
            Self::Speed937K => "937.5 KHz",
            Self::Speed468K => "468.75 KHz",
        }
    }
}

// ============================================================================
// Command Builders
// ============================================================================

/// A packet: command byte, payload length (little endian, 16 bits), payload.
pub open spec fn packet(cmd: u8, payload: Seq<u8>) -> Seq<u8> {
    seq![cmd, (payload.len() % 256) as u8, ((payload.len() / 256) % 256) as u8] + payload
}

/// The SPI configuration payload: 26 bytes, all zero (mode 0, MSB first)
/// but the clock divisor in bits 5:3 of byte 12.
pub open spec fn cfg_payload(speed: SpiSpeed) -> Seq<u8> {
    Seq::new(26, |i: int| if i == 12 { (speed_code(speed) << 3u8) as u8 } else { 0u8 })
}

/// The chip-select payload: 10 bytes, byte 0 carrying the update mask
/// (bit 7) and the CS1 level (bit 6: 0 = asserted).
pub open spec fn cs_payload(active: bool) -> Seq<u8> {
    Seq::new(
        10,
        |i: int|
            if i == 0 {
                if active {
                    0x80u8
                } else {
                    0xC0u8
                }
            } else {
                0u8
            },
    )
}

/// `cmd`, the little-endian length of `payload`, then `payload`.
fn build_packet(cmd: u8, payload: &[u8]) -> (p: Vec<u8>)
    ensures
        p@ == packet(cmd, payload@),
{
    let len = payload.len();
    let mut p = vec![cmd, (len & 0xFF) as u8, ((len >> 8) & 0xFF) as u8];
    assert((len & 0xFF) as u8 == (len % 256) as u8 && ((len >> 8) & 0xFF) as u8 == ((len / 256)
        % 256) as u8) by (bit_vector);
    extend_prefix(&mut p, payload, len);
    assert(payload@.subrange(0, len as int) =~= payload@);
    p
}

/// Build command to configure SPI settings
///
/// Header: [0xC0, 0x1A, 0x00] (command and length), then 26 bytes of payload:
/// - Payload[6]: Clock Polarity (Bit 1). 0=Low, 1=High
/// - Payload[8]: Clock Phase (Bit 0). 0=First Edge, 1=Second Edge
/// - Payload[12]: Clock Divisor (Bits 5:3). Values 0-7.
/// - Payload[14]: Byte Order (Bit 7). 0=MSB First, 1=LSB First.
pub fn build_set_cfg_cmd(speed: SpiSpeed) -> (p: Vec<u8>)
    ensures
        p@ == packet(CMD_SPI_SET_CFG, cfg_payload(speed)),
{
    let mut cfg = vec![0u8; 26];

    // SPI Mode 0 (CPOL=0, CPHA=0)
    cfg.set(6, 0x00);
    cfg.set(8, 0x00);

    // SPI Speed: clock divisor (bits 5:3)
    cfg.set(12, speed.code() << 3);

    // Byte Order: MSB First
    cfg.set(14, 0x00);

    assert(cfg@ =~= cfg_payload(speed));
    build_packet(CMD_SPI_SET_CFG, cfg.as_slice())
}

/// Build command for CS control
///
/// Header: [0xC1, 0x0A, 0x00] (command and length), then 10 bytes of payload:
/// - Payload[0]: CS1 Control. Bit 7: Mask (1=Update, 0=Ignore);
///   Bit 6: Value (1=High/Inactive, 0=Low/Active)
/// - Payload[5]: CS2 Control (not used here)
pub fn build_cs_cmd(active: bool) -> (p: Vec<u8>)
    ensures
        p@ == packet(CMD_SPI_CONTROL, cs_payload(active)),
{
    let mut payload = vec![0u8; 10];
    let val_bit: u8 = if active {
        0
    } else {
        1
    };

    // CS1 byte: Mask(0x80) | (Value << 6)
    payload.set(0, 0x80 | (val_bit << 6));
    assert((0x80u8 | (0u8 << 6u8)) == 0x80u8 && (0x80u8 | (1u8 << 6u8)) == 0xC0u8) by (bit_vector);
    assert(payload@ =~= cs_payload(active));
    build_packet(CMD_SPI_CONTROL, payload.as_slice())
}

/// Build command for SPI read/write transfer
pub fn build_spi_transfer_cmd(tx: &[u8]) -> (p: Vec<u8>)
    ensures
        p@ == packet(CMD_SPI_RD_WR, tx@),
{
    build_packet(CMD_SPI_RD_WR, tx)
}

/// Build handshake command to check/enable Larger Pack mode
/// ([CMD, LenLow, LenHigh, ClockIndex, 0, 0, 0, 0, 0]; clock index 9
/// enables Larger Pack mode)
pub fn build_handshake_cmd() -> (p: Vec<u8>)
    ensures
        p@ == seq![CMD_JTAG_INIT, 0x06u8, 0x00u8, 0x09u8, 0x00u8, 0x00u8, 0x00u8, 0x00u8, 0x00u8],
{
    vec![CMD_JTAG_INIT, 0x06, 0x00, 0x09, 0x00, 0x00, 0x00, 0x00, 0x00]
}

/// Largest packet in standard mode.
pub const MAX_PACKET_SIZE_STANDARD: usize = 510;

/// Largest packet in Larger Pack mode.
pub const MAX_PACKET_SIZE_LARGER: usize = 51184;

} // verus!
