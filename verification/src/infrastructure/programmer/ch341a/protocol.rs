//! CH341A protocol definitions
//!
//! Constants and helper functions for building CH341A USB command packets.
//!
//! Reference: CH341A datasheet and libusb-based implementations

pub mod i2c_sub;
pub mod pins;

use vstd::prelude::*;

use crate::error::{Error, Result};
use crate::infrastructure::programmer::frames::{div_ceil, extend_prefix, piece, split_into};

verus! {

// ============================================================================
// CH341A Command Bytes
// ============================================================================

/// Stream command mode
pub const CMD_SPI_STREAM: u8 = 0xA8;

/// Set I/O stream mode
pub const CMD_I2C_STREAM: u8 = 0xAA;

/// UIO stream command (bit-bang mode)
pub const CMD_UIO_STREAM: u8 = 0xAB;

/// I2C/SPI command stream end
pub const CMD_I2C_STM_END: u8 = 0x00;

/// Get Status / Input bits
pub const CMD_GET_STATUS: u8 = 0xA1;

/// Set CS (chip select) state
pub const CMD_UIO_STM_OUT: u8 = 0x80;

/// Set direction
pub const CMD_UIO_STM_DIR: u8 = 0x40;

/// End of UIO command
pub const CMD_UIO_STM_END: u8 = 0x20;

/// Set SPI speed
pub const CMD_UIO_STM_US: u8 = 0xC0;

// ============================================================================
// CH341A SPI Speed Settings
// ============================================================================

/// SPI clock speed settings
#[derive(Debug, Clone, Copy, PartialEq, Eq)]
pub enum SpiSpeed {
    /// ~20.8 kHz
    Speed208K,
    /// ~100 kHz
    Speed100K,
    /// ~400 kHz
    Speed400K,
    /// ~750 kHz
    Speed750K,
    /// ~1.5 MHz
    Speed1_5M,
    /// ~3 MHz (default, most compatible)
    Medium,
    /// ~6 MHz
    Speed6M,
    /// ~12 MHz
    Speed12M,
}

/// The speed code (0-7) the CH341A uses for `speed`.
pub open spec fn speed_code(speed: SpiSpeed) -> u8 {
    match speed {
        SpiSpeed::Speed208K => 0,
        SpiSpeed::Speed100K => 1,
        SpiSpeed::Speed400K => 2,
        SpiSpeed::Speed750K => 3,
        SpiSpeed::Speed1_5M => 4,
        SpiSpeed::Medium => 5,
        SpiSpeed::Speed6M => 6,
        SpiSpeed::Speed12M => 7,
    }
}

/// The description of `speed`.
pub open spec fn speed_description(speed: SpiSpeed) -> &'static str {
    match speed {
        SpiSpeed::Speed208K => "~21 kHz",
        SpiSpeed::Speed100K => "~100 kHz",
        SpiSpeed::Speed400K => "~400 kHz",
        SpiSpeed::Speed750K => "~750 kHz",
        SpiSpeed::Speed1_5M => "~1.5 MHz",
        SpiSpeed::Medium => "~3 MHz",
        SpiSpeed::Speed6M => "~6 MHz",
        SpiSpeed::Speed12M => "~12 MHz",
    }
}

impl Default for SpiSpeed {
    /// ~3 MHz, the most compatible setting.
    fn default() -> (s: Self)
        ensures
            s == SpiSpeed::Medium,
    {
        SpiSpeed::Medium
    }
}

impl SpiSpeed {
    /// Create SpiSpeed from a u8 value (0-7)
    /// Returns default (Medium/3MHz) for invalid values
    pub fn from_u8(value: u8) -> (s: Self)
        ensures
            value <= 7 ==> speed_code(s) == value,
            value > 7 ==> s == SpiSpeed::Medium,
    {
        match value {
            0 => Self::Speed208K,
            1 => Self::Speed100K,
            2 => Self::Speed400K,
            3 => Self::Speed750K,
            4 => Self::Speed1_5M,
            5 => Self::Medium,
            6 => Self::Speed6M,
            7 => Self::Speed12M,
            _ => Self::default(),
        }
    }

    /// The speed code (0-7) sent to the device.
    pub fn code(&self) -> (c: u8)
        ensures
            c == speed_code(*self),
    {
        match self {
            Self::Speed208K => 0,
            Self::Speed100K => 1,
            Self::Speed400K => 2,
            Self::Speed750K => 3,
            Self::Speed1_5M => 4,
            Self::Medium => 5,
            Self::Speed6M => 6,
            Self::Speed12M => 7,
        }
    }

    /// Get human-readable speed description
    pub fn description(&self) -> (d: &'static str)
        ensures
            d == speed_description(*self),
    {
        match self {
            Self::Speed208K => "~21 kHz",
            Self::Speed100K => "~100 kHz",
            Self::Speed400K => "~400 kHz",
            Self::Speed750K => "~750 kHz",
            Self::Speed1_5M => "~1.5 MHz",
            Self::Medium => "~3 MHz",
            Self::Speed6M => "~6 MHz",
            Self::Speed12M => "~12 MHz",
        }
    }
}

// ============================================================================
// Command Builders
// ============================================================================

/// The packet that selects SPI mode at `speed`: all outputs high (chip
/// deselected), D0, D1, D3, D4, D5 as outputs.
pub open spec fn set_mode_packet(speed: SpiSpeed) -> Seq<u8> {
    seq![
        CMD_UIO_STREAM,
        CMD_UIO_STM_OUT | 0x37u8,
        CMD_UIO_STM_DIR | 0x3Bu8,
        CMD_UIO_STM_US | speed_code(speed),
        CMD_UIO_STM_END,
    ]
}

/// The packet that drives chip select: low (selected) when `active`.
pub open spec fn cs_packet(active: bool) -> Seq<u8> {
    seq![
        CMD_UIO_STREAM,
        CMD_UIO_STM_OUT | if active { 0x36u8 } else { 0x37u8 },
        CMD_UIO_STM_END,
    ]
}

/// Build command to set SPI mode and speed
pub fn build_set_mode_cmd(speed: SpiSpeed) -> (cmd: Vec<u8>)
    ensures
        cmd@ == set_mode_packet(speed),
{
    vec![
        CMD_UIO_STREAM,
        CMD_UIO_STM_OUT | 0x37,  // Set all output pins high initially (CS high)
        CMD_UIO_STM_DIR | 0x3B,  // Dir: D0, D1, D3, D4, D5 as Out (111011b = 0x3B)
        CMD_UIO_STM_US | speed.code(),
        CMD_UIO_STM_END,
    ]
}

/// Build command to set all outputs
pub fn build_uio_out_cmd(outputs: u8) -> (cmd: Vec<u8>)
    ensures
        cmd@ == seq![CMD_UIO_STREAM, CMD_UIO_STM_OUT | (outputs & 0x3Fu8), CMD_UIO_STM_END],
{
    vec![CMD_UIO_STREAM, CMD_UIO_STM_OUT | (outputs & 0x3F), CMD_UIO_STM_END]
}

/// Build command to set CS state
pub fn build_cs_cmd(active: bool) -> (cmd: Vec<u8>)
    ensures
        cmd@ == cs_packet(active),
{
    let output_byte = if active {
        0x36  // CS low (bit 0 = 0), others high

    } else {
        0x37  // CS high (bit 0 = 1), others high

    };

    vec![CMD_UIO_STREAM, CMD_UIO_STM_OUT | output_byte, CMD_UIO_STM_END]
}

/// Build SPI transfer command
pub fn build_spi_transfer_cmd(data: &[u8]) -> (cmd: Vec<u8>)
    ensures
        cmd@ == seq![CMD_SPI_STREAM] + data@,
{
    let mut cmd = vec![CMD_SPI_STREAM];
    extend_prefix(&mut cmd, data, data.len());
    assert(data@.subrange(0, data@.len() as int) =~= data@);
    cmd
}

/// The outputs after driving `pin` to `level`.
pub open spec fn gpio_outputs(pin: u8, level: bool, current_outputs: u8) -> u8 {
    if level {
        current_outputs | (1u8 << pin)
    } else {
        current_outputs & !(1u8 << pin)
    }
}

/// The packet that drives `pin` to `level`, the other outputs as in `current_outputs`.
pub open spec fn gpio_packet(pin: u8, level: bool, current_outputs: u8) -> Seq<u8> {
    seq![
        CMD_UIO_STREAM,
        CMD_UIO_STM_OUT | (gpio_outputs(pin, level, current_outputs) & 0x3Fu8),
        CMD_UIO_STM_END,
    ]
}

/// Build GPIO control command
pub fn build_gpio_cmd(pin: u8, level: bool, current_outputs: u8) -> (cmd: Vec<u8>)
    requires
        pin < 8,
    ensures
        cmd@ == gpio_packet(pin, level, current_outputs),
{
    let mask = 1u8 << pin;
    let new_outputs = if level {
        current_outputs | mask
    } else {
        current_outputs & !mask
    };

    vec![CMD_UIO_STREAM, CMD_UIO_STM_OUT | (new_outputs & 0x3F), CMD_UIO_STM_END]
}

/// Maximum SPI transfer size in one USB packet (standard mode)
pub const MAX_SPI_TRANSFER_SIZE: usize = 32;

/// Maximum USB bulk transfer size (CH341A hardware limit)
pub const MAX_USB_BULK_SIZE: usize = 4096;

/// Maximum SPI stream size per USB transaction
pub const MAX_SPI_STREAM_SIZE: usize = 4095;

// ============================================================================
// Packet Helpers
// ============================================================================

/// Split a large transfer into CH341A-compatible chunks
pub fn chunk_transfer(data: &[u8]) -> (r: Vec<Vec<u8>>)
    ensures
        r@.len() == div_ceil(data@.len() as int, MAX_SPI_TRANSFER_SIZE as int),
        forall|k: int|
            0 <= k < r@.len() ==> (#[trigger] r@[k])@ == piece(
                data@,
                MAX_SPI_TRANSFER_SIZE as int,
                k,
            ),
{
    split_into(data, MAX_SPI_TRANSFER_SIZE)
}

/// Split a large transfer into bulk-optimized chunks
pub fn chunk_transfer_bulk(data: &[u8]) -> (r: Vec<Vec<u8>>)
    ensures
        r@.len() == div_ceil(data@.len() as int, MAX_SPI_STREAM_SIZE as int),
        forall|k: int|
            0 <= k < r@.len() ==> (#[trigger] r@[k])@ == piece(data@, MAX_SPI_STREAM_SIZE as int, k),
{
    split_into(data, MAX_SPI_STREAM_SIZE)
}

/// Build a bulk SPI stream command for larger transfers: the stream command
/// followed by `len` filler bytes (0xFF).
pub fn build_spi_stream_cmd(len: usize) -> (cmd: Vec<u8>)
    requires
        len < usize::MAX,
    ensures
        cmd@.len() == len + 1,
        cmd@[0] == CMD_SPI_STREAM,
        forall|i: int| 1 <= i <= len ==> cmd@[i] == 0xFFu8,
{
    let mut cmd = vec![CMD_SPI_STREAM];
    let mut k: usize = 0;
    while k < len
        invariant
            k <= len,
            cmd@.len() == k + 1,
            cmd@[0] == CMD_SPI_STREAM,
            forall|i: int| 1 <= i <= k ==> cmd@[i] == 0xFFu8,
        decreases len - k,
    {
        cmd.push(0xFF);
        k = k + 1;
    }
    cmd
}

/// Longest I2C write the stream command carries.
pub const MAX_I2C_WRITE: usize = 31;

/// Longest I2C read the stream command carries.
pub const MAX_I2C_READ: usize = 32;

/// The I2C stream that writes `data` to the device at `addr`: start, the
/// address byte and the data, stop.
pub open spec fn i2c_write_packet(addr: u8, data: Seq<u8>) -> Seq<u8> {
    seq![CMD_I2C_STREAM, i2c_sub::START, i2c_sub::OUT | ((data.len() + 1) as u8), addr] + data
        + seq![i2c_sub::STOP, CMD_I2C_STM_END]
}

/// The I2C stream that reads `len` bytes from the device at `addr`: start,
/// the address byte with the read bit, the read, stop.
pub open spec fn i2c_read_packet(addr: u8, len: u8) -> Seq<u8> {
    seq![
        CMD_I2C_STREAM,
        i2c_sub::START,
        i2c_sub::OUT | 1u8,
        addr | 1u8,
        i2c_sub::IN | len,
        i2c_sub::STOP,
        CMD_I2C_STM_END,
    ]
}

/// Build the I2C stream command that writes `data` to the device at `addr`;
/// at most 31 bytes fit.
pub fn build_i2c_write_cmd(addr: u8, data: &[u8]) -> (r: Result<Vec<u8>>)
    ensures
        data@.len() > MAX_I2C_WRITE ==> r is Err && r->Err_0 is InvalidParameter
            && r->Err_0->InvalidParameter_0@ == "I2C write data length exceeds 31 bytes"@,
        data@.len() <= MAX_I2C_WRITE ==> r is Ok && r->Ok_0@ == i2c_write_packet(addr, data@),
{
    if data.len() > MAX_I2C_WRITE {
        return Err(Error::InvalidParameter("I2C write data length exceeds 31 bytes".to_string()));
    }
    let mut cmd = vec![CMD_I2C_STREAM, i2c_sub::START, i2c_sub::OUT | (data.len() as u8 + 1), addr];
    extend_prefix(&mut cmd, data, data.len());
    cmd.push(i2c_sub::STOP);
    cmd.push(CMD_I2C_STM_END);
    assert(data@.subrange(0, data@.len() as int) =~= data@);
    assert(cmd@ =~= i2c_write_packet(addr, data@));
    Ok(cmd)
}

/// Build the I2C stream command that reads `len` bytes from the device at
/// `addr`; at most 32 bytes fit.
pub fn build_i2c_read_cmd(addr: u8, len: usize) -> (r: Result<Vec<u8>>)
    ensures
        len > MAX_I2C_READ ==> r is Err && r->Err_0 is InvalidParameter
            && r->Err_0->InvalidParameter_0@ == "I2C read length exceeds 32 bytes"@,
        len <= MAX_I2C_READ ==> r is Ok && r->Ok_0@ == i2c_read_packet(addr, len as u8),
{
    if len > MAX_I2C_READ {
        return Err(Error::InvalidParameter("I2C read length exceeds 32 bytes".to_string()));
    }
    Ok(
        vec![
            CMD_I2C_STREAM,
            i2c_sub::START,
            i2c_sub::OUT | 1,
            addr | 1,
            i2c_sub::IN | (len as u8),
            i2c_sub::STOP,
            CMD_I2C_STM_END,
        ],
    )
}

/// The level of the input pin in the answer to [`CMD_GET_STATUS`] (bit 3 of its first byte).
pub fn gpio_input_level(status: &[u8]) -> (b: bool)
    requires
        status@.len() >= 1,
    ensures
        b == (status@[0] & 0x08u8 != 0),
{
    (status[0] & 0x08) != 0
}

/// Size of stream piece `k` when `len` bytes are read in pieces of `size`.
pub open spec fn piece_len(len: int, size: int, k: int) -> int {
    if len - k * size < size {
        len - k * size
    } else {
        size
    }
}

/// The sizes of the stream reads that fetch `len` bytes: full pieces of
/// [`MAX_SPI_STREAM_SIZE`] bytes, the last one shorter if need be.
pub fn stream_chunk_sizes(len: usize) -> (r: Vec<usize>)
    ensures
        r@.len() == div_ceil(len as int, MAX_SPI_STREAM_SIZE as int),
        forall|k: int|
            0 <= k < r@.len() ==> #[trigger] r@[k] == piece_len(
                len as int,
                MAX_SPI_STREAM_SIZE as int,
                k,
            ),
{
    let size = MAX_SPI_STREAM_SIZE;
    let mut r: Vec<usize> = Vec::new();
    let mut remaining = len;
    while remaining > 0
        invariant
            remaining <= len,
            remaining == 0 || len - remaining == r@.len() * size,
            len - remaining <= r@.len() * size,
            size == MAX_SPI_STREAM_SIZE,
            forall|k: int|
                0 <= k < r@.len() ==> #[trigger] r@[k] == piece_len(len as int, size as int, k),
            r@.len() == 0 || (r@.len() - 1) * size < len,
        decreases remaining,
    {
        let ghost k = r@.len() as int;
        let n = if remaining < size {
            remaining
        } else {
            size
        };
        assert(len - k * size == remaining);
        assert((k + 1) * size == k * size + size) by (nonlinear_arith);
        r.push(n);
        remaining = remaining - n;
    }
    assert(r@.len() == div_ceil(len as int, size as int)) by (nonlinear_arith)
        requires
            size > 0,
            len <= r@.len() * size,
            r@.len() == 0 || (r@.len() - 1) * size < len,
    ;
    r
}

/// A read of `rx_len` bytes in a transaction uses stream reads when it is
/// longer than two plain transfers.
pub fn reads_in_bulk(rx_len: usize) -> (b: bool)
    ensures
        b == (rx_len > 2 * MAX_SPI_TRANSFER_SIZE),
{
    rx_len > MAX_SPI_TRANSFER_SIZE * 2
}

/// One packet that selects the chip, streams `tx` (when there is any) and
/// deselects it.
pub fn build_transaction_write_cmd(tx: &[u8]) -> (cmd: Vec<u8>)
    ensures
        cmd@ == cs_packet(true) + (if tx@.len() > 0 {
            seq![CMD_SPI_STREAM] + tx@
        } else {
            Seq::empty()
        }) + cs_packet(false),
{
    let mut cmd = build_cs_cmd(true);
    let ghost head = cmd@;
    if tx.len() > 0 {
        cmd.push(CMD_SPI_STREAM);
        extend_prefix(&mut cmd, tx, tx.len());
        assert(tx@.subrange(0, tx@.len() as int) =~= tx@);
    }
    let ghost mid = cmd@;
    let tail = build_cs_cmd(false);
    extend_prefix(&mut cmd, tail.as_slice(), tail.len());
    assert(tail@.subrange(0, tail@.len() as int) =~= tail@);
    proof {
        if tx@.len() > 0 {
            assert(mid =~= head + (seq![CMD_SPI_STREAM] + tx@));
        } else {
            assert(mid =~= head + Seq::<u8>::empty());
        }
    }
    cmd
}

} // verus!
