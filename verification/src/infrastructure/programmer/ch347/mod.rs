//! CH347 USB programmer: the command packets it understands, and the state
//! the driver keeps between them.
//!
//! The USB transport that sends these packets lives with the application.

pub mod protocol;

use vstd::prelude::*;

use crate::error::{Error, Result};
use crate::infrastructure::programmer::frames::{div_ceil, piece, split_into};
use crate::infrastructure::programmer::traits::{clocks, BusOp, Programmer};
use crate::infrastructure::programmer::usb::{link_fault, UsbOp, UsbTransport};
use protocol::{
    build_cs_cmd, build_handshake_cmd, build_set_cfg_cmd, build_spi_transfer_cmd, cfg_payload,
    cs_payload, packet, speed_from_code, SpiSpeed, CMD_JTAG_INIT, CMD_SPI_CONTROL, CMD_SPI_RD_WR,
    CMD_SPI_SET_CFG, MAX_PACKET_SIZE_LARGER, MAX_PACKET_SIZE_STANDARD,
};

verus! {

/// USB vendor ID of the CH347.
pub const CH347_VID: u16 = 0x1A86;

/// USB product ID of the CH347 in SPI mode.
pub const CH347_PID: u16 = 0x55DB;

/// The USB interface that carries SPI.
pub const SPI_INTERFACE: u8 = 1;

/// Bulk OUT endpoint.
pub const EP_OUT: u8 = 0x01;

/// Bulk IN endpoint.
pub const EP_IN: u8 = 0x81;

/// Speed code a freshly opened device is set to (~1.875 MHz).
pub const DEFAULT_SPEED: u8 = 5;

/// What the CH347 driver remembers: whether the device accepted Larger
/// Pack mode, and the speed code last applied.
#[derive(Debug, Clone, Copy, PartialEq, Eq)]
pub struct Ch347State {
    pub larger_pack_supported: bool,
    pub current_speed: u8,
}

/// The answer to the Larger Pack handshake accepts it: it echoes the
/// handshake command byte.
pub open spec fn accepts_larger_pack(resp: Seq<u8>) -> bool {
    resp.len() > 0 && resp[0] == CMD_JTAG_INIT
}

impl Ch347State {
    /// A freshly opened device: standard packets, default speed.
    pub fn new() -> (s: Self)
        ensures
            !s.larger_pack_supported,
            s.current_speed == DEFAULT_SPEED,
    {
        Ch347State { larger_pack_supported: false, current_speed: DEFAULT_SPEED }
    }

    /// Record the answer to the Larger Pack handshake (`None` when the
    /// exchange failed).
    pub fn handshake_answered(&mut self, resp: Option<&[u8]>)
        ensures
            final(self).larger_pack_supported == match resp {
                Some(r) => accepts_larger_pack(r@),
                None => false,
            },
            final(self).current_speed == old(self).current_speed,
    {
        self.larger_pack_supported = match resp {
            Some(r) => r.len() > 0 && r[0] == CMD_JTAG_INIT,
            None => false,
        };
    }

    /// Name of the programmer, telling whether Larger Pack mode is on.
    pub fn name(&self) -> (n: &'static str)
        ensures
            n@ == if self.larger_pack_supported {
                "CH347 High-Speed Programmer (Larger Pack)"@
            } else {
                "CH347 High-Speed Programmer"@
            },
    {
        if self.larger_pack_supported {
            "CH347 High-Speed Programmer (Larger Pack)"
        } else {
            "CH347 High-Speed Programmer"
        }
    }

    /// Largest transfer in one packet.
    pub fn max_bulk_transfer_size(&self) -> (n: usize)
        ensures
            n == if self.larger_pack_supported {
                MAX_PACKET_SIZE_LARGER
            } else {
                MAX_PACKET_SIZE_STANDARD
            },
    {
        if self.larger_pack_supported {
            MAX_PACKET_SIZE_LARGER
        } else {
            MAX_PACKET_SIZE_STANDARD
        }
    }

    /// Select the speed with code `speed` (0-7; others give ~1.875 MHz) and
    /// return the configuration packet that applies it.
    pub fn set_speed_cmd(&mut self, speed: u8) -> (p: Vec<u8>)
        ensures
            p@ == packet(CMD_SPI_SET_CFG, cfg_payload(speed_from_code(speed))),
            final(self).current_speed == speed,
            final(self).larger_pack_supported == old(self).larger_pack_supported,
    {
        let s = SpiSpeed::from_u8(speed);
        self.current_speed = speed;
        build_set_cfg_cmd(s)
    }

    /// The read/write packets that carry `tx`: one per piece of at most
    /// [`Self::max_bulk_transfer_size`] bytes.
    pub fn transfer_packets(&self, tx: &[u8]) -> (r: Vec<Vec<u8>>)
        ensures
            ({
                let size = if self.larger_pack_supported {
                    MAX_PACKET_SIZE_LARGER
                } else {
                    MAX_PACKET_SIZE_STANDARD
                } as int;
                &&& r@.len() == div_ceil(tx@.len() as int, size)
                &&& forall|k: int|
                    0 <= k < r@.len() ==> (#[trigger] r@[k])@ == packet(
                        CMD_SPI_RD_WR,
                        piece(tx@, size, k),
                    )
            }),
    {
        let size = self.max_bulk_transfer_size();
        let pieces = split_into(tx, size);
        let mut r: Vec<Vec<u8>> = Vec::new();
        let mut k: usize = 0;
        while k < pieces.len()
            invariant
                k <= pieces@.len(),
                r@.len() == k,
                forall|j: int|
                    0 <= j < k ==> (#[trigger] r@[j])@ == packet(CMD_SPI_RD_WR, pieces@[j]@),
            decreases pieces@.len() - k,
        {
            r.push(build_spi_transfer_cmd(pieces[k].as_slice()));
            k = k + 1;
        }
        r
    }
}

impl Default for Ch347State {
    fn default() -> (s: Self)
        ensures
            !s.larger_pack_supported,
            s.current_speed == DEFAULT_SPEED,
    {
        Self::new()
    }
}

/// The handshake that asks for Larger Pack mode.
pub open spec fn handshake_packet() -> Seq<u8> {
    seq![CMD_JTAG_INIT, 0x06u8, 0x00u8, 0x09u8, 0x00u8, 0x00u8, 0x00u8, 0x00u8, 0x00u8]
}

/// Bytes per read/write packet for the mode in `larger`.
pub open spec fn packet_size(larger: bool) -> int {
    if larger {
        MAX_PACKET_SIZE_LARGER as int
    } else {
        MAX_PACKET_SIZE_STANDARD as int
    }
}

/// The USB requests of the first `k` pieces of a full-duplex transfer of
/// `tx` answered by `rx`, in pieces of `size`: the read/write packet, then
/// the read of the answer.
pub open spec fn transfer_usb(tx: Seq<u8>, rx: Seq<u8>, size: int, k: int) -> Seq<UsbOp>
    decreases k,
{
    if k <= 0 {
        Seq::empty()
    } else {
        let j = k - 1;
        transfer_usb(tx, rx, size, j) + seq![
            UsbOp::Out { endpoint: EP_OUT, data: packet(CMD_SPI_RD_WR, piece(tx, size, j)) },
            UsbOp::In { endpoint: EP_IN, data: piece(rx, size, j) },
        ]
    }
}

/// Transfers whose answers agree on the pieces before `k` made the same requests.
proof fn lemma_transfer_usb_prefix(tx: Seq<u8>, rx1: Seq<u8>, rx2: Seq<u8>, size: int, k: int)
    requires
        0 <= k,
        size > 0,
        rx1.len() == rx2.len(),
        k * size <= rx1.len() ==> rx1.subrange(0, k * size) == rx2.subrange(0, k * size),
        k * size > rx1.len() ==> rx1 == rx2,
    ensures
        transfer_usb(tx, rx1, size, k) == transfer_usb(tx, rx2, size, k),
    decreases k,
{
    if k > 0 {
        let j = k - 1;
        let s = size;
        assert(j * s + s == k * s && j * s >= 0) by (nonlinear_arith)
            requires
                j == k - 1,
                j >= 0,
                s > 0,
        ;
        if k * s <= rx1.len() {
            assert(rx1.subrange(0, j * s) =~= rx1.subrange(0, k * s).subrange(0, j * s));
            assert(rx2.subrange(0, j * s) =~= rx2.subrange(0, k * s).subrange(0, j * s));
            assert(piece(rx1, s, j) =~= rx1.subrange(0, k * s).subrange(j * s, k * s));
            assert(piece(rx2, s, j) =~= rx2.subrange(0, k * s).subrange(j * s, k * s));
        } else if j * s <= rx1.len() {
            assert(rx1.subrange(0, j * s) =~= rx2.subrange(0, j * s));
        }
        lemma_transfer_usb_prefix(tx, rx1, rx2, size, j);
    }
}

/// A CH347 reached through the USB link `T`.
pub struct Ch347<T: UsbTransport> {
    transport: T,
    state: Ch347State,
    bus_log: Ghost<Seq<BusOp>>,
    usb_log: Ghost<Seq<UsbOp>>,
}

impl<T: UsbTransport> Ch347<T> {
    /// The USB requests made so far, oldest first.
    pub closed spec fn usb(&self) -> Seq<UsbOp> {
        self.usb_log@
    }

    /// The mode and speed the driver remembers.
    pub closed spec fn driver_state(&self) -> Ch347State {
        self.state
    }

    /// Send `data` over the link, recording it.
    fn out(&mut self, data: &[u8]) -> (r: Result<()>)
        ensures
            final(self).state == old(self).state,
            r is Ok ==> final(self).bus_log == old(self).bus_log,
            r is Err ==> final(self).bus_log@ == old(self).bus_log@.push(BusOp::Fault),
            r is Ok ==> final(self).usb_log@ == old(self).usb_log@.push(
                UsbOp::Out { endpoint: EP_OUT, data: data@ },
            ),
            r is Err ==> final(self).usb_log@ == old(self).usb_log@.push(
                UsbOp::OutFailed { endpoint: EP_OUT, data: data@ },
            ),
    {
        if let Err(e) = self.transport.bulk_out(EP_OUT, data) {
            proof {
                self.bus_log@ = self.bus_log@.push(BusOp::Fault);
                self.usb_log@ = self.usb_log@.push(UsbOp::OutFailed { endpoint: EP_OUT, data: data@ });
            }
            return Err(e);
        }
        proof {
            self.usb_log@ = self.usb_log@.push(UsbOp::Out { endpoint: EP_OUT, data: data@ });
        }
        Ok(())
    }

    /// Read up to `len` bytes over the link, recording them.
    fn inp(&mut self, len: usize) -> (r: Result<Vec<u8>>)
        ensures
            final(self).state == old(self).state,
            r is Ok ==> final(self).bus_log == old(self).bus_log,
            r is Err ==> final(self).bus_log@ == old(self).bus_log@.push(BusOp::Fault),
            r is Ok ==> final(self).usb_log@ == old(self).usb_log@.push(
                UsbOp::In { endpoint: EP_IN, data: r->Ok_0@ },
            ),
            r is Err ==> final(self).usb_log@ == old(self).usb_log@.push(
                UsbOp::InFailed { endpoint: EP_IN },
            ),
    {
        let data = match self.transport.bulk_in(EP_IN, len) {
            Ok(d) => d,
            Err(e) => {
                proof {
                    self.bus_log@ = self.bus_log@.push(BusOp::Fault);
                    self.usb_log@ = self.usb_log@.push(UsbOp::InFailed { endpoint: EP_IN });
                }
                return Err(e);
            },
        };
        proof {
            self.usb_log@ = self.usb_log@.push(UsbOp::In { endpoint: EP_IN, data: data@ });
        }
        Ok(data)
    }

    /// Open the programmer on `transport`: ask for Larger Pack mode (kept
    /// when the device echoes the handshake; any failure there means
    /// standard packets), then select the default speed.
    pub fn new(transport: T) -> (r: Result<Self>)
        ensures
            r matches Ok(p) ==> {
                &&& p.log() == Seq::<BusOp>::empty()
                &&& p.driver_state().current_speed == DEFAULT_SPEED
                &&& 1 <= p.usb().len() <= 3
                &&& p.usb().len() >= 2 ==> (p.usb()[0] == (UsbOp::Out {
                    endpoint: EP_OUT,
                    data: handshake_packet(),
                }) || p.usb()[0] == (UsbOp::OutFailed { endpoint: EP_OUT, data: handshake_packet() }))
                &&& p.usb().last() == (UsbOp::Out {
                    endpoint: EP_OUT,
                    data: packet(CMD_SPI_SET_CFG, cfg_payload(speed_from_code(DEFAULT_SPEED))),
                })
                &&& p.driver_state().larger_pack_supported <==> (p.usb().len() == 3
                    && p.usb()[1] is In && accepts_larger_pack(p.usb()[1]->In_data))
            },
    {
        let mut p = Ch347 {
            transport,
            state: Ch347State::new(),
            bus_log: Ghost(Seq::empty()),
            usb_log: Ghost(Seq::empty()),
        };
        // Larger Pack handshake
        let hs = build_handshake_cmd();
        let answered = match p.out(hs.as_slice()) {
            Ok(()) => match p.inp(4) {
                Ok(resp) => {
                    p.state.handshake_answered(Some(resp.as_slice()));
                    true
                },
                Err(_) => false,
            },
            Err(_) => false,
        };
        if !answered {
            p.state.handshake_answered(None);
        }
        let ghost after_handshake = p.usb_log@;
        let cmd = p.state.set_speed_cmd(DEFAULT_SPEED);
        p.out(cmd.as_slice())?;
        proof {
            assert(p.usb_log@ == after_handshake.push(UsbOp::Out { endpoint: EP_OUT, data: cmd@ }));
        }
        p.bus_log = Ghost(Seq::empty());
        Ok(p)
    }
}

impl<T: UsbTransport> Programmer for Ch347<T> {
    closed spec fn log(&self) -> Seq<BusOp> {
        self.bus_log@
    }

    closed spec fn wf(&self) -> bool {
        true
    }

    /// Transfers take a receive buffer exactly as long as what is sent.
    open spec fn accepts_rx(&self, tx_len: nat, rx_len: nat) -> bool {
        tx_len == rx_len
    }

    proof fn lemma_accepts_equal(&self, n: nat) {
        assert(self.accepts_rx(n, n) == (n == n));
    }

    open spec fn bulk_limit(&self) -> nat {
        packet_size(self.driver_state().larger_pack_supported) as nat
    }

    open spec fn has_i2c() -> bool {
        false
    }

    open spec fn has_gpio() -> bool {
        false
    }

    /// No I2C on this programmer.
    fn i2c_write(&mut self, addr: u8, data: &[u8]) -> (r: Result<()>) {
        Err(Error::NotSupported("I2C is not supported by this programmer".to_string()))
    }

    /// No I2C on this programmer.
    fn i2c_read(&mut self, addr: u8, len: usize) -> (r: Result<Vec<u8>>) {
        Err(Error::NotSupported("I2C is not supported by this programmer".to_string()))
    }

    /// No GPIO on this programmer.
    fn gpio_set(&mut self, pin: u8, level: bool) -> (r: Result<()>) {
        Err(Error::NotSupported("GPIO is not supported by this programmer".to_string()))
    }

    /// No GPIO on this programmer.
    fn gpio_get(&mut self, pin: u8) -> (r: Result<bool>) {
        Err(Error::NotSupported("GPIO is not supported by this programmer".to_string()))
    }

    fn name(&self) -> (n: &str)
        ensures
            n@ == if self.driver_state().larger_pack_supported {
                "CH347 High-Speed Programmer (Larger Pack)"@
            } else {
                "CH347 High-Speed Programmer"@
            },
    {
        self.state.name()
    }

    /// In pieces of the packet size: the read/write packet, then the read of
    /// the answer, which must be as long as the piece.
    fn spi_transfer(&mut self, tx: &[u8], rx: &mut [u8]) -> (r: Result<()>)
        ensures
            final(self).driver_state() == old(self).driver_state(),
            r is Ok ==> final(self).usb() == old(self).usb() + transfer_usb(
                tx@,
                final(rx)@,
                packet_size(old(self).driver_state().larger_pack_supported),
                div_ceil(
                    tx@.len() as int,
                    packet_size(old(self).driver_state().larger_pack_supported),
                ),
            ),
            r is Err ==> link_fault(old(self).usb(), final(self).usb()),
    {
        let n = tx.len();
        let ghost usb0 = self.usb_log@;
        let ghost log0 = self.bus_log@;
        let size = self.state.max_bulk_transfer_size();
        let mut off: usize = 0;
        let ghost mut k: int = 0;
        while off < n
            invariant
                n == tx@.len(),
                old(rx)@.len() == n,
                rx@.len() == n,
                size as int == packet_size(self.state.larger_pack_supported),
                size > 0,
                0 <= k,
                off <= n,
                off == n || off == k * size,
                off <= k * size,
                k == 0 || (k - 1) * size < n,
                self.state == old(self).state,
                self.bus_log@ == log0,
                log0 == old(self).bus_log@,
                usb0 == old(self).usb_log@,
                self.usb_log@ == usb0 + transfer_usb(tx@, rx@, size as int, k),
            decreases n - off,
        {
            let end = if n - off < size {
                n
            } else {
                off + size
            };
            let chunk = vstd::slice::slice_subrange(tx, off, end);
            let cmd = build_spi_transfer_cmd(chunk);
            self.out(cmd.as_slice())?;
            let response = self.inp(end - off)?;
            let ghost rx_before = rx@;
            let copy_len = if response.len() < end - off {
                response.len()
            } else {
                end - off
            };
            let mut i: usize = 0;
            while i < copy_len
                invariant
                    copy_len <= response@.len(),
                    off + copy_len <= end,
                    end <= n,
                    rx@.len() == n,
                    i <= copy_len,
                    forall|j: int| 0 <= j < off ==> rx@[j] == rx_before[j],
                    forall|j: int| 0 <= j < i ==> rx@[off + j] == response@[j],
                decreases copy_len - i,
            {
                rx[off + i] = response[i];
                i = i + 1;
            }
            if response.len() != end - off {
                proof {
                    self.bus_log@ = self.bus_log@.push(BusOp::Fault);
                }
                return Err(Error::Other("CH347: SPI transfer size mismatch".to_string()));
            }
            proof {
                let s = size as int;
                assert(k * s + s == (k + 1) * s) by (nonlinear_arith);
                assert(off == k * s);
                assert(piece(tx@, s, k) =~= chunk@);
                assert(piece(rx@, s, k) =~= response@);
                assert(rx@.subrange(0, k * s) =~= rx_before.subrange(0, k * s));
                lemma_transfer_usb_prefix(tx@, rx@, rx_before, s, k);
                assert(transfer_usb(tx@, rx@, s, k + 1) == transfer_usb(tx@, rx@, s, k) + seq![
                    UsbOp::Out { endpoint: EP_OUT, data: cmd@ },
                    UsbOp::In { endpoint: EP_IN, data: response@ },
                ]);
                assert(self.usb_log@ =~= usb0 + transfer_usb(tx@, rx@, s, k + 1));
                k = k + 1;
            }
            off = end;
        }
        proof {
            let s = size as int;
            assert(k == div_ceil(n as int, s)) by (nonlinear_arith)
                requires
                    s > 0,
                    n <= k * s,
                    k == 0 || (k - 1) * s < n,
                    k >= 0,
            ;
            self.bus_log@ = log0 + clocks(tx@, rx@);
        }
        Ok(())
    }

    fn set_cs(&mut self, active: bool) -> (r: Result<()>)
        ensures
            final(self).driver_state() == old(self).driver_state(),
            r is Ok ==> final(self).usb() == old(self).usb().push(
                UsbOp::Out { endpoint: EP_OUT, data: packet(CMD_SPI_CONTROL, cs_payload(active)) },
            ),
            r is Err ==> link_fault(old(self).usb(), final(self).usb()),
    {
        let cmd = build_cs_cmd(active);
        self.out(cmd.as_slice())?;
        proof {
            self.bus_log@ = self.bus_log@.push(BusOp::Select(active));
        }
        Ok(())
    }

    /// Speed codes 0-7; others select ~1.875 MHz.
    fn set_speed(&mut self, speed: u8) -> (r: Result<()>)
        ensures
            r is Ok ==> final(self).usb() == old(self).usb().push(
                UsbOp::Out {
                    endpoint: EP_OUT,
                    data: packet(CMD_SPI_SET_CFG, cfg_payload(speed_from_code(speed))),
                },
            ) && final(self).driver_state().current_speed == speed
                && final(self).driver_state().larger_pack_supported == old(
                self,
            ).driver_state().larger_pack_supported,
            r is Err ==> final(self).driver_state() == old(self).driver_state(),
            r is Err ==> link_fault(old(self).usb(), final(self).usb()),
    {
        let mut next = self.state;
        let cmd = next.set_speed_cmd(speed);
        self.out(cmd.as_slice())?;
        self.state = next;
        Ok(())
    }

    fn max_bulk_transfer_size(&self) -> (n: usize)
        ensures
            n as int == packet_size(self.driver_state().larger_pack_supported),
    {
        self.state.max_bulk_transfer_size()
    }

    fn delay_us(&mut self, micros: u32) {
        self.transport.delay_us(micros);
    }
}

} // verus!
