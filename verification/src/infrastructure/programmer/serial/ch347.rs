//! CH347 UART (interface 0): plain bulk transfers; the line settings are
//! kept but the device is used with its own.

use vstd::prelude::*;

use crate::error::{Error, Result};
use crate::infrastructure::programmer::serial::ch340::SerialConfig;
use crate::infrastructure::programmer::usb::{UsbOp, UsbTransport};

verus! {

/// Bulk OUT endpoint.
pub const EP_OUT: u8 = 0x02;

/// Bulk IN endpoint.
pub const EP_IN: u8 = 0x82;

/// Longest bulk read asked for at once.
pub const READ_CHUNK: usize = 512;

/// A CH347 UART reached through the USB link `T`.
pub struct Ch347Serial<T: UsbTransport> {
    transport: T,
    config: SerialConfig,
    usb_log: Ghost<Seq<UsbOp>>,
}

impl<T: UsbTransport> Ch347Serial<T> {
    /// The USB requests made so far, oldest first.
    pub closed spec fn usb(&self) -> Seq<UsbOp> {
        self.usb_log@
    }

    /// The line configuration last given.
    pub closed spec fn line(&self) -> SerialConfig {
        self.config
    }

    /// Open the port on `transport` with the line settings `config`.
    pub fn new(transport: T, config: SerialConfig) -> (r: Result<Self>)
        ensures
            r is Ok,
            r matches Ok(p) ==> p.line() == config && p.usb() == Seq::<UsbOp>::empty(),
    {
        let mut p = Ch347Serial { transport, config, usb_log: Ghost(Seq::empty()) };
        p.configure(&config)?;
        Ok(p)
    }

    pub fn name(&self) -> (n: &'static str)
        ensures
            n@ == "CH347 UART"@,
    {
        "CH347 UART"
    }

    /// Remember the line settings; nothing is sent.
    pub fn configure(&mut self, config: &SerialConfig) -> (r: Result<()>)
        ensures
            r is Ok,
            final(self).line() == *config,
            final(self).usb() == old(self).usb(),
    {
        self.config = *config;
        Ok(())
    }

    /// Read what has arrived (512 bytes are asked for, fewer when `buffer`
    /// is shorter) into the start of `buffer`; a failed read reads 0 bytes.
    pub fn read(&mut self, buffer: &mut [u8]) -> (r: Result<usize>)
        ensures
            r is Ok,
            final(self).line() == old(self).line(),
            final(buffer)@.len() == old(buffer)@.len(),
            ({
                let n = r->Ok_0 as int;
                &&& n <= old(buffer)@.len()
                &&& final(buffer)@.subrange(n, final(buffer)@.len() as int)
                    == old(buffer)@.subrange(n, old(buffer)@.len() as int)
                &&& final(self).usb().len() == old(self).usb().len() + 1
                &&& final(self).usb().drop_last() == old(self).usb()
                &&& match final(self).usb().last() {
                    UsbOp::In { endpoint, data } => endpoint == EP_IN && n == vstd::math::min(
                        data.len() as int,
                        old(buffer)@.len() as int,
                    ) && final(buffer)@.subrange(0, n) == data.subrange(0, n),
                    UsbOp::InFailed { endpoint } => endpoint == EP_IN && n == 0,
                    _ => false,
                }
            }),
    {
        let want = if buffer.len() < READ_CHUNK {
            buffer.len()
        } else {
            READ_CHUNK
        };
        match self.transport.bulk_in(EP_IN, want) {
            Ok(data) => {
                proof {
                    self.usb_log@ = self.usb_log@.push(UsbOp::In { endpoint: EP_IN, data: data@ });
                    assert(self.usb_log@.drop_last() =~= old(self).usb_log@);
                }
                let n = if data.len() < buffer.len() {
                    data.len()
                } else {
                    buffer.len()
                };
                let ghost b0 = buffer@;
                let mut i: usize = 0;
                while i < n
                    invariant
                        n <= data@.len(),
                        n <= buffer@.len(),
                        buffer@.len() == b0.len(),
                        i <= n,
                        forall|j: int| 0 <= j < i ==> buffer@[j] == data@[j],
                        forall|j: int| i <= j < b0.len() ==> buffer@[j] == b0[j],
                    decreases n - i,
                {
                    buffer[i] = data[i];
                    i = i + 1;
                }
                proof {
                    assert(buffer@.subrange(n as int, buffer@.len() as int) =~= b0.subrange(
                        n as int,
                        b0.len() as int,
                    ));
                    assert(buffer@.subrange(0, n as int) =~= data@.subrange(0, n as int));
                }
                Ok(n)
            },
            Err(_) => {
                proof {
                    self.usb_log@ = self.usb_log@.push(UsbOp::InFailed { endpoint: EP_IN });
                    assert(self.usb_log@.drop_last() =~= old(self).usb_log@);
                }
                assert(buffer@.subrange(0, buffer@.len() as int) =~= old(buffer)@.subrange(
                    0,
                    old(buffer)@.len() as int,
                ));
                Ok(0)
            },
        }
    }

    /// Send `data`; all of it is reported as written.
    pub fn write(&mut self, data: &[u8]) -> (r: Result<usize>)
        ensures
            final(self).line() == old(self).line(),
            r is Ok ==> r->Ok_0 == data@.len() && final(self).usb() == old(self).usb().push(
                UsbOp::Out { endpoint: EP_OUT, data: data@ },
            ),
            r is Err ==> final(self).usb() == old(self).usb().push(
                UsbOp::OutFailed { endpoint: EP_OUT, data: data@ },
            ),
    {
        if let Err(e) = self.transport.bulk_out(EP_OUT, data) {
            proof {
                self.usb_log@ = self.usb_log@.push(UsbOp::OutFailed { endpoint: EP_OUT, data: data@ });
            }
            return Err(e);
        }
        proof {
            self.usb_log@ = self.usb_log@.push(UsbOp::Out { endpoint: EP_OUT, data: data@ });
        }
        Ok(data.len())
    }

    /// The CH347 UART has no modem control here: accepted, nothing sent.
    pub fn set_dtr(&mut self, level: bool) -> (r: Result<()>)
        ensures
            r is Ok,
            final(self).usb() == old(self).usb(),
            final(self).line() == old(self).line(),
    {
        Ok(())
    }

    /// The CH347 UART has no modem control here: accepted, nothing sent.
    pub fn set_rts(&mut self, level: bool) -> (r: Result<()>)
        ensures
            r is Ok,
            final(self).usb() == old(self).usb(),
            final(self).line() == old(self).line(),
    {
        Ok(())
    }

    /// Nothing is buffered on this side.
    pub fn flush(&mut self) -> (r: Result<()>)
        ensures
            r is Ok,
            final(self).usb() == old(self).usb(),
    {
        Ok(())
    }

    /// The device does not report how much has arrived.
    pub fn bytes_available(&self) -> (r: Result<usize>)
        ensures
            r == Ok::<usize, Error>(0),
    {
        Ok(0)
    }
}

} // verus!
