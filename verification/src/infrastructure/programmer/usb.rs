//! The USB link of the USB programmers.
//!
//! The drivers (CH341A, CH347, FTDI) decide what to send; the application
//! provides the link that moves the bytes. Each driver keeps, as ghost
//! state, the record of the USB requests it made.

use vstd::prelude::*;

use crate::error::{Error, Result};

verus! {

/// One USB request made by a driver.
pub enum UsbOp {
    /// A bulk write of `data` to `endpoint`.
    Out { endpoint: u8, data: Seq<u8> },
    /// A bulk read from `endpoint` that returned `data`.
    In { endpoint: u8, data: Seq<u8> },
    /// A vendor control request to the device.
    Control { request: u8, value: u16, index: u16 },
    /// A vendor control request that read `data` back from the device.
    ControlIn { request: u8, value: u16, index: u16, data: Seq<u8> },
    /// A bulk read from `endpoint` that nothing answered in time.
    TimedOut { endpoint: u8 },
    /// A bulk write of `data` to `endpoint` that the link could not carry out.
    OutFailed { endpoint: u8, data: Seq<u8> },
    /// A bulk read from `endpoint` that the link could not carry out.
    InFailed { endpoint: u8 },
    /// A vendor control request that the link could not carry out.
    ControlFailed { request: u8, value: u16, index: u16 },
}

/// `op` is a request that the link could not carry out.
pub open spec fn link_failed(op: UsbOp) -> bool {
    op is OutFailed || op is InFailed || op is ControlFailed
}

/// The requests added since `old` end with one the link could not carry
/// out, or with an answer the driver refused (a read that came back with
/// the wrong length).
pub open spec fn link_fault(old: Seq<UsbOp>, new: Seq<UsbOp>) -> bool {
    old.len() < new.len() && (link_failed(new.last()) || new.last() is In)
}

/// The link to an opened USB device, as the application provides it.
pub trait UsbTransport {
    /// Bulk-write `data` to `endpoint`.
    fn bulk_out(&mut self, endpoint: u8, data: &[u8]) -> Result<()>;

    /// Bulk-read up to `len` bytes from `endpoint`.
    fn bulk_in(&mut self, endpoint: u8, len: usize) -> Result<Vec<u8>>;

    /// Send a vendor control request (no data stage) to the device.
    fn control_out(&mut self, request: u8, value: u16, index: u16) -> Result<()>;

    /// Send a vendor control request that reads up to `len` bytes back.
    /// Links without it report so.
    fn control_in(&mut self, request: u8, value: u16, index: u16, len: usize) -> Result<Vec<u8>> {
        Err(Error::NotSupported("control reads are not available on this link".to_string()))
    }

    /// Bulk-read up to `len` bytes from `endpoint`, giving up (`None`) after
    /// about `micros` microseconds. Links without a timeout wait for the data.
    fn bulk_in_timeout(&mut self, endpoint: u8, len: usize, micros: u32) -> Result<Option<Vec<u8>>> {
        let data = self.bulk_in(endpoint, len)?;
        Ok(Some(data))
    }

    /// Wait about `micros` microseconds.
    fn delay_us(&mut self, micros: u32);
}

} // verus!
