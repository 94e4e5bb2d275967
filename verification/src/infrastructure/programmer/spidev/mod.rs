//! Raspberry Pi / Linux spidev Programmer
//!
//! Meant to use the native Linux SPI interface (/dev/spidevX.Y); opening a
//! device is not supported yet, so construction always reports so.

use vstd::prelude::*;

use crate::error::{Error, Result};
use crate::infrastructure::programmer::traits::{BusOp, Programmer, DEFAULT_BULK_CHUNK_SIZE};

verus! {

/// The message with which spidev construction is refused.
pub open spec fn spidev_unsupported_message() -> Seq<char> {
    "spidev support is under development. Coming in v0.6.1!"@
}

/// SPI clock (Hz) selected by a speed index; 10 MHz for unknown indices.
pub open spec fn spidev_speed_hz(speed: u8) -> u32 {
    if speed == 0 {
        100_000
    } else if speed == 1 {
        500_000
    } else if speed == 2 {
        1_000_000
    } else if speed == 3 {
        2_000_000
    } else if speed == 4 {
        5_000_000
    } else if speed == 6 {
        20_000_000
    } else if speed == 7 {
        50_000_000
    } else {
        10_000_000
    }
}

/// Linux spidev-based Programmer
pub struct SpidevProgrammer {
    device_path: String,
    /// GPIO pin for manual CS control
    cs_gpio_pin: Option<u32>,
    current_speed: u32,
    bus_log: Ghost<Seq<BusOp>>,
}

impl SpidevProgrammer {
    /// The SPI clock in use, in Hz.
    pub closed spec fn speed_hz(&self) -> u32 {
        self.current_speed
    }

    /// Create a new spidev programmer for `device_path` (e.g. "/dev/spidev0.0"),
    /// with an optional GPIO pin for manual CS control.
    ///
    /// Opening the device is not supported yet: this always returns
    /// `Error::NotSupported`.
    pub fn new(device_path: String, _cs_pin: Option<u32>) -> (r: Result<Self>)
        ensures
            r matches Err(Error::NotSupported(msg)) && msg@ == spidev_unsupported_message(),
    {
        let msg = "spidev support is under development. Coming in v0.6.1!".to_string();
        Err(Error::NotSupported(msg))
    }

    /// Create from default Raspberry Pi SPI0 CE0
    pub fn new_raspberry_pi_default() -> (r: Result<Self>)
        ensures
            r matches Err(Error::NotSupported(msg)) && msg@ == spidev_unsupported_message(),
    {
        Self::new("/dev/spidev0.0".to_string(), None)
    }
}

impl Programmer for SpidevProgrammer {
    closed spec fn log(&self) -> Seq<BusOp> {
        self.bus_log@
    }

    closed spec fn wf(&self) -> bool {
        true
    }

    /// Transfers take a receive buffer exactly as long as what is sent.
    open spec fn accepts_rx(&self, tx_len: nat, rx_len: nat) -> bool {
        tx_len == rx_len
    }

    proof fn lemma_accepts_equal(&self, n: nat) {
        assert(self.accepts_rx(n, n) == (n == n));
    }

    open spec fn bulk_limit(&self) -> nat {
        DEFAULT_BULK_CHUNK_SIZE as nat
    }

    fn max_bulk_transfer_size(&self) -> (n: usize) {
        DEFAULT_BULK_CHUNK_SIZE
    }

    open spec fn has_i2c() -> bool {
        false
    }

    open spec fn has_gpio() -> bool {
        false
    }

    /// No I2C on this programmer.
    fn i2c_write(&mut self, addr: u8, data: &[u8]) -> (r: Result<()>) {
        Err(Error::NotSupported("I2C is not supported by this programmer".to_string()))
    }

    /// No I2C on this programmer.
    fn i2c_read(&mut self, addr: u8, len: usize) -> (r: Result<Vec<u8>>) {
        Err(Error::NotSupported("I2C is not supported by this programmer".to_string()))
    }

    /// No GPIO on this programmer.
    fn gpio_set(&mut self, pin: u8, level: bool) -> (r: Result<()>) {
        Err(Error::NotSupported("GPIO is not supported by this programmer".to_string()))
    }

    /// No GPIO on this programmer.
    fn gpio_get(&mut self, pin: u8) -> (r: Result<bool>) {
        Err(Error::NotSupported("GPIO is not supported by this programmer".to_string()))
    }

    fn name(&self) -> (n: &str)
        ensures
            n@ == "Linux spidev Programmer"@,
    {
        "Linux spidev Programmer"
    }

    /// Full-duplex transfers are not implemented: always `NotSupported`.
    fn spi_transfer(&mut self, _tx: &[u8], _rx: &mut [u8]) -> (r: Result<()>)
        ensures
            r matches Err(Error::NotSupported(_)),
            final(self).log() == old(self).log().push(BusOp::Fault),
    {
        proof {
            self.bus_log@ = self.bus_log@.push(BusOp::Fault);
        }
        Err(Error::NotSupported("spidev SPI not yet implemented".to_string()))
    }

    /// The kernel drives chip select itself.
    fn set_cs(&mut self, active: bool) -> (r: Result<()>)
        ensures
            r is Ok,
    {
        proof {
            self.bus_log@ = self.bus_log@.push(BusOp::Select(active));
        }
        Ok(())
    }

    fn set_speed(&mut self, speed: u8) -> (r: Result<()>)
        ensures
            r is Ok,
            final(self).speed_hz() == spidev_speed_hz(speed),
    {
        let speed_hz: u32 = match speed {
            0 => 100_000,  // 100kHz
            1 => 500_000,  // 500kHz
            2 => 1_000_000,  // 1MHz
            3 => 2_000_000,  // 2MHz
            4 => 5_000_000,  // 5MHz
            5 => 10_000_000,  // 10MHz (default)
            6 => 20_000_000,  // 20MHz
            7 => 50_000_000,  // 50MHz (Raspberry Pi 4 max)
            _ => 10_000_000,
        };
        self.current_speed = speed_hz;
        Ok(())
    }
}

} // verus!
