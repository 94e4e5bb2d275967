//! CH340 (and CH341 in UART mode): vendor requests, registers, and the
//! register values for a line configuration.

use vstd::prelude::*;

use crate::error::{Error, Result};
use crate::infrastructure::programmer::usb::{UsbOp, UsbTransport};

verus! {

/// Bulk OUT endpoint.
pub const EP_OUT: u8 = 0x02;

/// Bulk IN endpoint.
pub const EP_IN: u8 = 0x82;

/// Vendor request: read the chip version.
pub const REQ_READ_VERSION: u8 = 0x5F;

/// Vendor request: read a register.
pub const REQ_READ_REGISTRY: u8 = 0x95;

/// Vendor request: write a register.
pub const REQ_WRITE_REGISTRY: u8 = 0x9A;

/// Vendor request: initialise the serial engine.
pub const REQ_SERIAL_INIT: u8 = 0xA1;

/// Vendor request: modem control lines.
pub const REQ_MODEM_CTRL: u8 = 0xA4;

/// Register pair of the baud rate factor.
pub const REG_BAUD_FACTOR: u16 = 0x1312;

/// Register pair of the baud rate offset.
pub const REG_BAUD_OFFSET: u16 = 0x0F2C;

/// First line control register.
pub const REG_LCR1: u16 = 0x2518;

/// Second line control register.
pub const REG_LCR2: u16 = 0x0C00;

/// Register that holds the modem status lines.
pub const REG_MODEM_STATUS: u16 = 0x0706;

/// DTR bit of the modem control byte.
pub const MODEM_DTR: u8 = 0x20;

/// RTS bit of the modem control byte.
pub const MODEM_RTS: u8 = 0x40;

/// Parity setting of a serial line.
#[derive(Debug, Clone, Copy, PartialEq, Eq)]
pub enum Parity {
    NoParity,
    Odd,
    Even,
    Mark,
    Space,
}

/// Stop bits of a serial line.
#[derive(Debug, Clone, Copy, PartialEq, Eq)]
pub enum StopBits {
    One,
    OnePointFive,
    Two,
}

/// Line settings of a serial port.
#[derive(Debug, Clone, Copy, PartialEq, Eq)]
pub struct SerialConfig {
    pub baud_rate: u32,
    pub data_bits: u8,
    pub parity: Parity,
    pub stop_bits: StopBits,
}

/// The baud rate register values (factor, offset) for `baud`: a table for
/// the usual rates; otherwise 12 MHz / baud with offset 0x0C when that fits
/// the factor range, else the values of 9600 baud.
pub open spec fn baud_registers(baud: u32) -> (u16, u16) {
    if baud == 300 {
        (0x2710, 0x00)
    } else if baud == 600 {
        (0x2710, 0x01)
    } else if baud == 1200 {
        (0x2710, 0x02)
    } else if baud == 2400 {
        (0x2710, 0x03)
    } else if baud == 4800 {
        (0x2710, 0x04)
    } else if baud == 9600 {
        (0x2710, 0x05)
    } else if baud == 14400 {
        (0x0D98, 0x07)
    } else if baud == 19200 {
        (0x2710, 0x06)
    } else if baud == 38400 {
        (0x2710, 0x07)
    } else if baud == 57600 {
        (0x1A00, 0x08)
    } else if baud == 115200 {
        (0x1A00, 0x09)
    } else if baud == 230400 {
        (0x1A00, 0x0A)
    } else if baud == 460800 {
        (0x1A00, 0x0B)
    } else if baud == 921600 {
        (0x1A00, 0x0C)
    } else if baud == 1000000 {
        (0x180F, 0x0C)
    } else if baud == 2000000 {
        (0x180F, 0x0D)
    } else if baud == 3000000 {
        (0x180F, 0x0E)
    } else if 12_000_000int / (baud as int) <= 0x2710 {
        ((12_000_000int / (baud as int)) as u16, 0x0C)
    } else {
        (0x2710, 0x05)
    }
}

/// Calculate the baud rate register values for the CH340 (12 MHz crystal).
pub fn calc_baud_divisor(baud: u32) -> (r: (u16, u16))
    requires
        baud > 0,
    ensures
        r == baud_registers(baud),
{
    match baud {
        300 => (0x2710, 0x00),
        600 => (0x2710, 0x01),
        1200 => (0x2710, 0x02),
        2400 => (0x2710, 0x03),
        4800 => (0x2710, 0x04),
        9600 => (0x2710, 0x05),
        14400 => (0x0D98, 0x07),
        19200 => (0x2710, 0x06),
        38400 => (0x2710, 0x07),
        57600 => (0x1A00, 0x08),
        115200 => (0x1A00, 0x09),
        230400 => (0x1A00, 0x0A),
        460800 => (0x1A00, 0x0B),
        921600 => (0x1A00, 0x0C),
        1000000 => (0x180F, 0x0C),
        2000000 => (0x180F, 0x0D),
        3000000 => (0x180F, 0x0E),
        _ => {
            // Generic calculation for custom baud rates
            let divisor = 12_000_000 / baud;
            if divisor <= 0x2710 {
                (divisor as u16, 0x0C)
            } else {
                (0x2710, 0x05)  // fallback to 9600

            }
        },
    }
}

/// Line control bits: data bits (5-8; others count as 8), stop bits, parity.
pub open spec fn line_control_bits(data_bits: u8, stop_bits: StopBits, parity: Parity) -> u16 {
    let d: u16 = if data_bits == 5 {
        0x00
    } else if data_bits == 6 {
        0x01
    } else if data_bits == 7 {
        0x02
    } else {
        0x03
    };
    let s: u16 = match stop_bits {
        StopBits::One => 0x00,
        StopBits::OnePointFive => 0x04,
        StopBits::Two => 0x04,
    };
    let p: u16 = match parity {
        Parity::NoParity => 0x00,
        Parity::Odd => 0x08,
        Parity::Even => 0x18,
        Parity::Mark => 0x28,
        Parity::Space => 0x38,
    };
    d | s | p
}

/// The line control register value for a line configuration.
pub fn line_control(data_bits: u8, stop_bits: StopBits, parity: Parity) -> (lcr: u16)
    ensures
        lcr == line_control_bits(data_bits, stop_bits, parity),
{
    let mut lcr: u16 = 0;
    lcr = lcr | match data_bits {
        5 => 0x00,
        6 => 0x01,
        7 => 0x02,
        _ => 0x03,
    };
    lcr = lcr | match stop_bits {
        StopBits::One => 0x00,
        StopBits::OnePointFive => 0x04,
        StopBits::Two => 0x04,
    };
    lcr = lcr | match parity {
        Parity::NoParity => 0x00,
        Parity::Odd => 0x08,
        Parity::Even => 0x18,
        Parity::Mark => 0x28,
        Parity::Space => 0x38,
    };
    assert(forall|a: u16| #[trigger] (0u16 | a) == a) by (bit_vector);
    lcr
}

/// A register write: the vendor request, its value and its index.
#[derive(Debug, Clone, Copy, PartialEq, Eq)]
pub struct RegisterWrite {
    pub request: u8,
    pub value: u16,
    pub index: u16,
}

/// The register writes that configure the line: baud factor, baud offset,
/// line control, second line control cleared.
pub open spec fn configure_sequence(
    baud: u32,
    data_bits: u8,
    stop_bits: StopBits,
    parity: Parity,
) -> Seq<RegisterWrite> {
    let (factor, offset) = baud_registers(baud);
    seq![
        RegisterWrite { request: REQ_WRITE_REGISTRY, value: REG_BAUD_FACTOR, index: factor },
        RegisterWrite { request: REQ_WRITE_REGISTRY, value: REG_BAUD_OFFSET, index: offset },
        RegisterWrite {
            request: REQ_WRITE_REGISTRY,
            value: REG_LCR1,
            index: line_control_bits(data_bits, stop_bits, parity),
        },
        RegisterWrite { request: REQ_WRITE_REGISTRY, value: REG_LCR2, index: 0 },
    ]
}

/// The register writes that configure the line as `config` says.
pub fn configure_writes(config: &SerialConfig) -> (r: Vec<RegisterWrite>)
    requires
        config.baud_rate > 0,
    ensures
        r@ == configure_sequence(config.baud_rate, config.data_bits, config.stop_bits, config.parity),
{
    let (factor, offset) = calc_baud_divisor(config.baud_rate);
    let lcr = line_control(config.data_bits, config.stop_bits, config.parity);
    let r = vec![
        RegisterWrite { request: REQ_WRITE_REGISTRY, value: REG_BAUD_FACTOR, index: factor },
        RegisterWrite { request: REQ_WRITE_REGISTRY, value: REG_BAUD_OFFSET, index: offset },
        RegisterWrite { request: REQ_WRITE_REGISTRY, value: REG_LCR1, index: lcr },
        RegisterWrite { request: REQ_WRITE_REGISTRY, value: REG_LCR2, index: 0 },
    ];
    assert(r@ =~= configure_sequence(
        config.baud_rate,
        config.data_bits,
        config.stop_bits,
        config.parity,
    ));
    r
}

/// The modem control value for the DTR and RTS levels (the lines are active low).
pub fn modem_control(dtr: bool, rts: bool) -> (v: u16)
    ensures
        v == (!((if dtr { MODEM_DTR } else { 0u8 }) | (if rts { MODEM_RTS } else { 0u8 }))) as u16,
{
    let d: u8 = if dtr {
        MODEM_DTR
    } else {
        0
    };
    let r: u8 = if rts {
        MODEM_RTS
    } else {
        0
    };
    let ctrl: u8 = !(d | r);
    ctrl as u16
}

/// The modem status lines (CTS, DSR, RI, DCD) from the first status byte;
/// each line is active when its bit is clear.
pub fn modem_status(status: u8) -> (r: (bool, bool, bool, bool))
    ensures
        r == (status & 0x01u8 == 0, status & 0x02u8 == 0, status & 0x04u8 == 0, status & 0x08u8
            == 0),
{
    let cts = (status & 0x01) == 0;
    let dsr = (status & 0x02) == 0;
    let ri = (status & 0x04) == 0;
    let dcd = (status & 0x08) == 0;
    (cts, dsr, ri, dcd)
}

/// Longest bulk read asked for at once.
pub const READ_CHUNK: usize = 64;

/// How long a read waits for data, in microseconds.
pub const READ_TIMEOUT_US: u32 = 10_000;

/// The control requests of a line configuration, as made over USB.
pub open spec fn configure_usb(config: SerialConfig) -> Seq<UsbOp> {
    configure_sequence(config.baud_rate, config.data_bits, config.stop_bits, config.parity).map_values(
        |w: RegisterWrite| UsbOp::Control { request: w.request, value: w.value, index: w.index },
    )
}

/// A CH340 serial port reached through the USB link `T`.
pub struct Ch340Serial<T: UsbTransport> {
    transport: T,
    config: SerialConfig,
    dtr: bool,
    rts: bool,
    usb_log: Ghost<Seq<UsbOp>>,
}

impl<T: UsbTransport> Ch340Serial<T> {
    /// The USB requests made so far, oldest first.
    pub closed spec fn usb(&self) -> Seq<UsbOp> {
        self.usb_log@
    }

    /// The line configuration last applied.
    pub closed spec fn line(&self) -> SerialConfig {
        self.config
    }

    /// The DTR and RTS levels last set.
    pub closed spec fn lines(&self) -> (bool, bool) {
        (self.dtr, self.rts)
    }

    /// Apply the register writes of `config`, recording them.
    fn write_registers(&mut self, config: &SerialConfig) -> (r: Result<()>)
        requires
            config.baud_rate > 0,
        ensures
            final(self).config == old(self).config,
            final(self).dtr == old(self).dtr,
            final(self).rts == old(self).rts,
            r is Ok ==> final(self).usb_log@ == old(self).usb_log@ + configure_usb(*config),
            r is Err ==> old(self).usb_log@.len() < final(self).usb_log@.len()
                && final(self).usb_log@.last() is ControlFailed,
    {
        let writes = configure_writes(config);
        let ghost u0 = self.usb_log@;
        let ghost all = configure_usb(*config);
        let mut i: usize = 0;
        while i < writes.len()
            invariant
                writes@ == configure_sequence(
                    config.baud_rate,
                    config.data_bits,
                    config.stop_bits,
                    config.parity,
                ),
                all == configure_usb(*config),
                i <= writes@.len(),
                self.config == old(self).config,
                self.dtr == old(self).dtr,
                self.rts == old(self).rts,
                u0 == old(self).usb_log@,
                self.usb_log@ == u0 + all.subrange(0, i as int),
            decreases writes@.len() - i,
        {
            let w = writes[i];
            if let Err(e) = self.transport.control_out(w.request, w.value, w.index) {
                proof {
                    self.usb_log@ = self.usb_log@.push(
                        UsbOp::ControlFailed { request: w.request, value: w.value, index: w.index },
                    );
                }
                return Err(e);
            }
            proof {
                self.usb_log@ = self.usb_log@.push(
                    UsbOp::Control { request: w.request, value: w.value, index: w.index },
                );
                assert(all.subrange(0, i + 1) =~= all.subrange(0, i as int).push(all[i as int]));
                assert(self.usb_log@ =~= u0 + all.subrange(0, i + 1));
            }
            i = i + 1;
        }
        assert(all.subrange(0, writes@.len() as int) =~= all);
        Ok(())
    }

    /// Open the port on `transport`: read the chip version, initialise the
    /// serial engine, then configure the line as `config` says.
    pub fn new(transport: T, config: SerialConfig) -> (r: Result<Self>)
        requires
            config.baud_rate > 0,
        ensures
            r matches Ok(p) ==> p.line() == config && p.lines() == (false, false) && p.usb().len()
                == 2 + configure_usb(config).len() && p.usb()[0] is ControlIn && p.usb()[0]->ControlIn_request
                == REQ_READ_VERSION && p.usb()[1] == (UsbOp::Control {
                request: REQ_SERIAL_INIT,
                value: 0,
                index: 0,
            }) && p.usb().skip(2) == configure_usb(config),
    {
        let mut p = Ch340Serial {
            transport,
            config,
            dtr: false,
            rts: false,
            usb_log: Ghost(Seq::empty()),
        };
        let version = p.transport.control_in(REQ_READ_VERSION, 0, 0, 2)?;
        proof {
            p.usb_log@ = p.usb_log@.push(
                UsbOp::ControlIn { request: REQ_READ_VERSION, value: 0, index: 0, data: version@ },
            );
        }
        p.transport.control_out(REQ_SERIAL_INIT, 0, 0)?;
        proof {
            p.usb_log@ = p.usb_log@.push(
                UsbOp::Control { request: REQ_SERIAL_INIT, value: 0, index: 0 },
            );
        }
        let ghost head = p.usb_log@;
        p.configure(&config)?;
        proof {
            assert(p.usb_log@.skip(2) =~= configure_usb(config));
        }
        Ok(p)
    }

    pub fn name(&self) -> (n: &'static str)
        ensures
            n@ == "CH340 Serial Port"@,
    {
        "CH340 Serial Port"
    }

    /// The modem status lines (CTS, DSR, RI, DCD), read from the chip.
    pub fn read_modem_status(&mut self) -> (r: Result<(bool, bool, bool, bool)>)
        ensures
            final(self).line() == old(self).line(),
            final(self).lines() == old(self).lines(),
            r is Ok ==> exists|status: Seq<u8>|
                #![trigger status[0]]
                status.len() >= 1 && final(self).usb() == old(self).usb().push(
                    UsbOp::ControlIn {
                        request: REQ_READ_REGISTRY,
                        value: REG_MODEM_STATUS,
                        index: 0,
                        data: status,
                    },
                ) && r->Ok_0 == (status[0] & 0x01u8 == 0, status[0] & 0x02u8 == 0, status[0]
                    & 0x04u8 == 0, status[0] & 0x08u8 == 0),
            r is Err ==> final(self).usb() == old(self).usb().push(
                UsbOp::ControlFailed { request: REQ_READ_REGISTRY, value: REG_MODEM_STATUS, index: 0 },
            ) || final(self).usb() == old(self).usb().push(
                UsbOp::ControlIn {
                    request: REQ_READ_REGISTRY,
                    value: REG_MODEM_STATUS,
                    index: 0,
                    data: Seq::empty(),
                },
            ),
    {
        let status = match self.transport.control_in(REQ_READ_REGISTRY, REG_MODEM_STATUS, 0, 2) {
            Ok(s) => s,
            Err(e) => {
                proof {
                    self.usb_log@ = self.usb_log@.push(
                        UsbOp::ControlFailed {
                            request: REQ_READ_REGISTRY,
                            value: REG_MODEM_STATUS,
                            index: 0,
                        },
                    );
                }
                return Err(e);
            },
        };
        proof {
            self.usb_log@ = self.usb_log@.push(
                UsbOp::ControlIn {
                    request: REQ_READ_REGISTRY,
                    value: REG_MODEM_STATUS,
                    index: 0,
                    data: status@,
                },
            );
        }
        if status.len() < 1 {
            assert(status@ =~= Seq::<u8>::empty());
            return Err(Error::Other("CH340: empty modem status".to_string()));
        }
        Ok(modem_status(status[0]))
    }

    /// Configure the line: baud rate registers, then line control.
    pub fn configure(&mut self, config: &SerialConfig) -> (r: Result<()>)
        requires
            config.baud_rate > 0,
        ensures
            final(self).line() == *config,
            final(self).lines() == old(self).lines(),
            r is Ok ==> final(self).usb() == old(self).usb() + configure_usb(*config),
            r is Err ==> old(self).usb().len() < final(self).usb().len()
                && final(self).usb().last() is ControlFailed,
    {
        self.config = *config;
        self.write_registers(config)
    }

    /// Read what has arrived (64 bytes are asked for, fewer when `buffer`
    /// is shorter) into the start of `buffer`; nothing arriving within
    /// 10 ms reads 0 bytes.
    pub fn read(&mut self, buffer: &mut [u8]) -> (r: Result<usize>)
        ensures
            final(self).line() == old(self).line(),
            final(self).lines() == old(self).lines(),
            final(buffer)@.len() == old(buffer)@.len(),
            r is Ok ==> {
                let n = r->Ok_0 as int;
                &&& n <= old(buffer)@.len()
                &&& final(buffer)@.subrange(n, final(buffer)@.len() as int)
                    == old(buffer)@.subrange(n, old(buffer)@.len() as int)
                &&& final(self).usb().len() == old(self).usb().len() + 1
                &&& final(self).usb().drop_last() == old(self).usb()
                &&& match final(self).usb().last() {
                    UsbOp::TimedOut { endpoint } => endpoint == EP_IN && n == 0,
                    UsbOp::In { endpoint, data } => endpoint == EP_IN && n == vstd::math::min(
                        data.len() as int,
                        old(buffer)@.len() as int,
                    ) && final(buffer)@.subrange(0, n) == data.subrange(0, n),
                    _ => false,
                }
            },
            r is Err ==> final(self).usb() == old(self).usb().push(UsbOp::InFailed { endpoint: EP_IN })
                && final(buffer)@ == old(buffer)@,
    {
        let want = if buffer.len() < READ_CHUNK {
            buffer.len()
        } else {
            READ_CHUNK
        };
        let got = self.transport.bulk_in_timeout(EP_IN, want, READ_TIMEOUT_US);
        match got {
            Ok(Some(data)) => {
                proof {
                    self.usb_log@ = self.usb_log@.push(UsbOp::In { endpoint: EP_IN, data: data@ });
                }
                let n = if data.len() < buffer.len() {
                    data.len()
                } else {
                    buffer.len()
                };
                let ghost b0 = buffer@;
                let mut i: usize = 0;
                while i < n
                    invariant
                        n <= data@.len(),
                        n <= buffer@.len(),
                        buffer@.len() == b0.len(),
                        i <= n,
                        forall|j: int| 0 <= j < i ==> buffer@[j] == data@[j],
                        forall|j: int| i <= j < b0.len() ==> buffer@[j] == b0[j],
                    decreases n - i,
                {
                    buffer[i] = data[i];
                    i = i + 1;
                }
                proof {
                    assert(buffer@.subrange(n as int, buffer@.len() as int) =~= b0.subrange(
                        n as int,
                        b0.len() as int,
                    ));
                    assert(buffer@.subrange(0, n as int) =~= data@.subrange(0, n as int));
                    assert(self.usb_log@.drop_last() =~= old(self).usb_log@);
                }
                Ok(n)
            },
            Ok(None) => {
                proof {
                    self.usb_log@ = self.usb_log@.push(UsbOp::TimedOut { endpoint: EP_IN });
                    assert(self.usb_log@.drop_last() =~= old(self).usb_log@);
                    assert(buffer@.subrange(0, buffer@.len() as int) =~= old(buffer)@.subrange(
                        0,
                        old(buffer)@.len() as int,
                    ));
                }
                Ok(0)
            },
            Err(e) => {
                proof {
                    self.usb_log@ = self.usb_log@.push(UsbOp::InFailed { endpoint: EP_IN });
                }
                Err(e)
            },
        }
    }

    /// Send `data`; all of it is reported as written.
    pub fn write(&mut self, data: &[u8]) -> (r: Result<usize>)
        ensures
            final(self).line() == old(self).line(),
            final(self).lines() == old(self).lines(),
            r is Ok ==> r->Ok_0 == data@.len() && final(self).usb() == old(self).usb().push(
                UsbOp::Out { endpoint: EP_OUT, data: data@ },
            ),
            r is Err ==> final(self).usb() == old(self).usb().push(
                UsbOp::OutFailed { endpoint: EP_OUT, data: data@ },
            ),
    {
        if let Err(e) = self.transport.bulk_out(EP_OUT, data) {
            proof {
                self.usb_log@ = self.usb_log@.push(UsbOp::OutFailed { endpoint: EP_OUT, data: data@ });
            }
            return Err(e);
        }
        proof {
            self.usb_log@ = self.usb_log@.push(UsbOp::Out { endpoint: EP_OUT, data: data@ });
        }
        Ok(data.len())
    }

    /// Send the modem control value for the remembered DTR and RTS levels.
    fn update_modem_ctrl(&mut self) -> (r: Result<()>)
        ensures
            final(self).config == old(self).config,
            final(self).dtr == old(self).dtr,
            final(self).rts == old(self).rts,
            r is Ok ==> final(self).usb_log@ == old(self).usb_log@.push(
                UsbOp::Control {
                    request: REQ_MODEM_CTRL,
                    value: (!((if old(self).dtr { MODEM_DTR } else { 0u8 }) | (if old(self).rts {
                        MODEM_RTS
                    } else {
                        0u8
                    }))) as u16,
                    index: 0,
                },
            ),
            r is Err ==> final(self).usb_log@ == old(self).usb_log@.push(
                UsbOp::ControlFailed {
                    request: REQ_MODEM_CTRL,
                    value: (!((if old(self).dtr { MODEM_DTR } else { 0u8 }) | (if old(self).rts {
                        MODEM_RTS
                    } else {
                        0u8
                    }))) as u16,
                    index: 0,
                },
            ),
    {
        let v = modem_control(self.dtr, self.rts);
        if let Err(e) = self.transport.control_out(REQ_MODEM_CTRL, v, 0) {
            proof {
                self.usb_log@ = self.usb_log@.push(
                    UsbOp::ControlFailed { request: REQ_MODEM_CTRL, value: v, index: 0 },
                );
            }
            return Err(e);
        }
        proof {
            self.usb_log@ = self.usb_log@.push(
                UsbOp::Control { request: REQ_MODEM_CTRL, value: v, index: 0 },
            );
        }
        Ok(())
    }

    /// Drive DTR to `level` (remembered even if sending fails).
    pub fn set_dtr(&mut self, level: bool) -> (r: Result<()>)
        ensures
            final(self).line() == old(self).line(),
            final(self).lines() == (level, old(self).lines().1),
            r is Ok ==> final(self).usb() == old(self).usb().push(
                UsbOp::Control {
                    request: REQ_MODEM_CTRL,
                    value: (!((if level { MODEM_DTR } else { 0u8 }) | (if old(self).lines().1 {
                        MODEM_RTS
                    } else {
                        0u8
                    }))) as u16,
                    index: 0,
                },
            ),
    {
        self.dtr = level;
        self.update_modem_ctrl()
    }

    /// Drive RTS to `level` (remembered even if sending fails).
    pub fn set_rts(&mut self, level: bool) -> (r: Result<()>)
        ensures
            final(self).line() == old(self).line(),
            final(self).lines() == (old(self).lines().0, level),
            r is Ok ==> final(self).usb() == old(self).usb().push(
                UsbOp::Control {
                    request: REQ_MODEM_CTRL,
                    value: (!((if old(self).lines().0 { MODEM_DTR } else { 0u8 }) | (if level {
                        MODEM_RTS
                    } else {
                        0u8
                    }))) as u16,
                    index: 0,
                },
            ),
    {
        self.rts = level;
        self.update_modem_ctrl()
    }

    /// The DTR level last set.
    pub fn get_dtr(&self) -> (r: Option<bool>)
        ensures
            r == Some(self.lines().0),
    {
        Some(self.dtr)
    }

    /// The RTS level last set.
    pub fn get_rts(&self) -> (r: Option<bool>)
        ensures
            r == Some(self.lines().1),
    {
        Some(self.rts)
    }

    /// Nothing is buffered on this side.
    pub fn flush(&mut self) -> (r: Result<()>)
        ensures
            r is Ok,
            final(self).usb() == old(self).usb(),
    {
        Ok(())
    }

    /// The chip does not report how much has arrived.
    pub fn bytes_available(&self) -> (r: Result<usize>)
        ensures
            r == Ok::<usize, Error>(0),
    {
        Ok(0)
    }
}

} // verus!
