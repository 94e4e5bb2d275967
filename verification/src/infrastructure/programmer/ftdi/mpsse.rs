//! MPSSE Command Builder
//!
//! Constants and helper functions for constructing MPSSE byte commands.
//! Reference: FTDI AN_108

use vstd::prelude::*;

use crate::infrastructure::programmer::frames::extend_prefix;

verus! {

// --- Command Opcodes ---

// Data Transfer Commands (MSB First for SPI)
pub const CMD_MSB_DATA_OUT_BYTES_POS: u8 = 0x10;

pub const CMD_MSB_DATA_OUT_BYTES_NEG: u8 = 0x11;

/// Sample on rising edge
pub const CMD_MSB_DATA_IN_BYTES_POS: u8 = 0x20;

/// Sample on falling edge
pub const CMD_MSB_DATA_IN_BYTES_NEG: u8 = 0x24;

/// Out -ve, In +ve (Mode 0)
pub const CMD_MSB_DATA_IN_OUT_BYTES_POS: u8 = 0x31;

/// Out +ve, In -ve
pub const CMD_MSB_DATA_IN_OUT_BYTES_NEG: u8 = 0x34;

// Data Transfer Commands (Bits)
pub const CMD_MSB_DATA_OUT_BITS_POS: u8 = 0x12;

pub const CMD_MSB_DATA_OUT_BITS_NEG: u8 = 0x13;

pub const CMD_MSB_DATA_IN_BITS_POS: u8 = 0x22;

pub const CMD_MSB_DATA_IN_BITS_NEG: u8 = 0x26;

pub const CMD_MSB_DATA_IN_OUT_BITS_POS: u8 = 0x33;

pub const CMD_MSB_DATA_IN_OUT_BITS_NEG: u8 = 0x36;

// GPIO / Setup Commands
/// ADBUS (TCK, TDI, TDO, TMS, GPIOL0-3)
pub const CMD_SET_BITS_LOW: u8 = 0x80;

/// ACBUS (GPIOH0-7)
pub const CMD_SET_BITS_HIGH: u8 = 0x82;

pub const CMD_READ_BITS_LOW: u8 = 0x81;

pub const CMD_READ_BITS_HIGH: u8 = 0x83;

pub const CMD_LOOPBACK_ON: u8 = 0x84;

pub const CMD_LOOPBACK_OFF: u8 = 0x85;

pub const CMD_SET_TCK_DIVISOR: u8 = 0x86;

/// Flush buffer to PC
pub const CMD_SEND_IMMEDIATE: u8 = 0x87;

pub const CMD_WAIT_ON_IO_HIGH: u8 = 0x88;

pub const CMD_WAIT_ON_IO_LOW: u8 = 0x89;

// --- Helper Functions ---

/// The low and high bytes of a 16-bit value.
pub open spec fn le16(v: u16) -> Seq<u8> {
    seq![(v % 256) as u8, (v / 256) as u8]
}

/// Build command to set TCK divisor
/// TCK = 60MHz / ((1 + Divisor) * 2)
/// Divisor = (60MHz / 2*TCK) - 1
pub fn build_set_divisor_cmd(divisor: u16) -> (r: [u8; 3])
    ensures
        r@ == seq![CMD_SET_TCK_DIVISOR] + le16(divisor),
{
    let r = [CMD_SET_TCK_DIVISOR, (divisor & 0xFF) as u8, ((divisor >> 8) & 0xFF) as u8];
    assert((divisor & 0xFF) as u8 == (divisor % 256) as u8 && ((divisor >> 8) & 0xFF) as u8 == (
    divisor / 256) as u8) by (bit_vector);
    assert(r@ =~= seq![CMD_SET_TCK_DIVISOR] + le16(divisor));
    r
}

/// Build command to set ADBUS (Low Byte) GPIO Direction and Value
/// ADBUS0: TCK (Out)
/// ADBUS1: TDI (Out)
/// ADBUS2: TDO (In)
/// ADBUS3: TMS (Out - CS usually)
/// ADBUS4-7: GPIO
pub fn build_set_low_gpio_cmd(value: u8, direction: u8) -> (r: [u8; 3])
    ensures
        r@ == seq![CMD_SET_BITS_LOW, value, direction],
{
    let r = [CMD_SET_BITS_LOW, value, direction];
    assert(r@ =~= seq![CMD_SET_BITS_LOW, value, direction]);
    r
}

/// Build command to set ACBUS (High Byte) GPIO Direction and Value
pub fn build_set_high_gpio_cmd(value: u8, direction: u8) -> (r: [u8; 3])
    ensures
        r@ == seq![CMD_SET_BITS_HIGH, value, direction],
{
    let r = [CMD_SET_BITS_HIGH, value, direction];
    assert(r@ =~= seq![CMD_SET_BITS_HIGH, value, direction]);
    r
}

/// An MPSSE byte command: opcode, then the byte count minus one (16 bits,
/// little endian; longer blocks wrap).
pub open spec fn byte_cmd_header(opcode: u8, len: nat) -> Seq<u8> {
    seq![opcode] + le16((len - 1) as u16)
}

/// `opcode` with the length field for `len` (> 0) bytes.
fn header(opcode: u8, len: usize) -> (r: Vec<u8>)
    requires
        len > 0,
    ensures
        r@ == byte_cmd_header(opcode, len as nat),
{
    let len_val = (len - 1) as u16;
    assert((len_val & 0xFF) as u8 == (len_val % 256) as u8 && ((len_val >> 8) & 0xFF) as u8 == (
    len_val / 256) as u8) by (bit_vector);
    let r = vec![opcode, (len_val & 0xFF) as u8, ((len_val >> 8) & 0xFF) as u8];
    assert(r@ =~= byte_cmd_header(opcode, len as nat));
    r
}

/// Build SPI write bytes command (Mode 0: MSB First, Write on Falling Edge)
/// Max length 65536 bytes per command block; nothing for no data.
pub fn build_write_bytes_cmd(data: &[u8]) -> (cmd: Vec<u8>)
    ensures
        data@.len() == 0 ==> cmd@.len() == 0,
        data@.len() > 0 ==> cmd@ == byte_cmd_header(CMD_MSB_DATA_OUT_BYTES_NEG, data@.len())
            + data@,
{
    let len = data.len();
    if len == 0 {
        return Vec::new();
    }
    let mut cmd = header(CMD_MSB_DATA_OUT_BYTES_NEG, len);
    extend_prefix(&mut cmd, data, len);
    assert(data@.subrange(0, len as int) =~= data@);
    cmd
}

/// Build SPI read bytes command (Mode 0: MSB First, Read on Rising Edge);
/// nothing for no data.
pub fn build_read_bytes_cmd(len: usize) -> (cmd: Vec<u8>)
    ensures
        len == 0 ==> cmd@.len() == 0,
        len > 0 ==> cmd@ == byte_cmd_header(CMD_MSB_DATA_IN_BYTES_POS, len as nat),
{
    if len == 0 {
        return Vec::new();
    }
    header(CMD_MSB_DATA_IN_BYTES_POS, len)
}

/// Build SPI read/write bytes command (Mode 0: out on the falling edge, in
/// on the rising edge); nothing for no data.
pub fn build_rw_bytes_cmd(data: &[u8]) -> (cmd: Vec<u8>)
    ensures
        data@.len() == 0 ==> cmd@.len() == 0,
        data@.len() > 0 ==> cmd@ == byte_cmd_header(CMD_MSB_DATA_IN_OUT_BYTES_POS, data@.len())
            + data@,
{
    let len = data.len();
    if len == 0 {
        return Vec::new();
    }
    let mut cmd = header(CMD_MSB_DATA_IN_OUT_BYTES_POS, len);
    extend_prefix(&mut cmd, data, len);
    assert(data@.subrange(0, len as int) =~= data@);
    cmd
}

/// Build Loopback command
pub fn build_loopback_cmd(enable: bool) -> (c: u8)
    ensures
        c == if enable {
            CMD_LOOPBACK_ON
        } else {
            CMD_LOOPBACK_OFF
        },
{
    if enable {
        CMD_LOOPBACK_ON
    } else {
        CMD_LOOPBACK_OFF
    }
}

} // verus!
