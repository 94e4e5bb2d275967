//! FTDI MPSSE programmers (FT232H, FT2232H, FT4232H): the MPSSE commands,
//! and the state and decisions of the driver that sends them.
//!
//! The USB transport that sends these commands lives with the application.

pub mod mpsse;

use vstd::prelude::*;

use crate::error::{Error, Result};
use crate::infrastructure::programmer::frames::{div_ceil, piece};
use crate::infrastructure::programmer::traits::{answered, clocks, BusOp, Programmer, DEFAULT_BULK_CHUNK_SIZE};
use crate::infrastructure::programmer::usb::{link_failed, UsbOp, UsbTransport};
use mpsse::{
    build_loopback_cmd, build_rw_bytes_cmd, build_set_divisor_cmd, build_set_low_gpio_cmd,
    byte_cmd_header, le16, CMD_LOOPBACK_OFF, CMD_MSB_DATA_IN_OUT_BYTES_POS, CMD_SET_BITS_LOW,
    CMD_SET_TCK_DIVISOR,
};

verus! {

/// USB vendor ID of FTDI.
pub const FTDI_VID: u16 = 0x0403;

/// FT232H product ID.
pub const FT232H_PID: u16 = 0x6014;

/// FT2232H product ID.
pub const FT2232H_PID: u16 = 0x6010;

/// FT4232H product ID.
pub const FT4232H_PID: u16 = 0x6011;

/// Vendor request: reset.
pub const SIO_RESET_REQUEST: u8 = 0x00;

/// Vendor request: latency timer.
pub const SIO_SET_LATENCY_TIMER_REQUEST: u8 = 0x09;

/// Vendor request: bit mode.
pub const SIO_SET_BITMODE_REQUEST: u8 = 0x0B;

/// Bit mode: reset.
pub const BITMODE_RESET: u8 = 0x00;

/// Bit mode: MPSSE.
pub const BITMODE_MPSSE: u8 = 0x02;

/// ADBUS0: clock.
pub const PIN_TCK: u8 = 0x01;

/// ADBUS1: data out.
pub const PIN_TDI: u8 = 0x02;

/// ADBUS2: data in.
pub const PIN_TDO: u8 = 0x04;

/// ADBUS3: chip select.
pub const PIN_CS: u8 = 0x08;

/// ADBUS4: general purpose output.
pub const PIN_GPIO_L: u8 = 0x10;

/// Directions of the ADBUS pins: clock, data out, chip select and GPIOL0 are outputs.
pub const DIRECTION_DEFAULT: u8 = 0x1B;

/// Longest MPSSE data block sent in one command.
pub const MAX_MPSSE: usize = 65535;

/// Divisor set right after the reset (1 MHz).
pub const RESET_DIVISOR: u16 = 29;

/// A vendor control request to the device.
#[derive(Debug, Clone, Copy, PartialEq, Eq)]
pub struct ControlRequest {
    pub request: u8,
    pub value: u16,
    pub index: u16,
}

/// The control requests that put channel A in MPSSE mode: reset, 1 ms
/// latency, bit mode reset (twice), MPSSE bit mode.
pub open spec fn reset_sequence() -> Seq<ControlRequest> {
    seq![
        ControlRequest { request: SIO_RESET_REQUEST, value: 0, index: 0 },
        ControlRequest { request: SIO_SET_LATENCY_TIMER_REQUEST, value: 1, index: 0 },
        ControlRequest { request: SIO_SET_BITMODE_REQUEST, value: 0, index: 1 },
        ControlRequest { request: SIO_SET_BITMODE_REQUEST, value: 0, index: 1 },
        ControlRequest { request: SIO_SET_BITMODE_REQUEST, value: 0x0200, index: 1 },
    ]
}

/// The control requests of the MPSSE reset, in order.
pub fn reset_requests() -> (r: Vec<ControlRequest>)
    ensures
        r@ == reset_sequence(),
{
    let r = vec![
        ControlRequest { request: SIO_RESET_REQUEST, value: 0, index: 0 },
        ControlRequest { request: SIO_SET_LATENCY_TIMER_REQUEST, value: 1, index: 0 },
        ControlRequest { request: SIO_SET_BITMODE_REQUEST, value: 0, index: 1 },
        ControlRequest { request: SIO_SET_BITMODE_REQUEST, value: 0, index: 1 },
        ControlRequest {
            request: SIO_SET_BITMODE_REQUEST,
            value: (BITMODE_MPSSE as u16) << 8,
            index: 1,
        },
    ];
    assert(((BITMODE_MPSSE as u16) << 8u16) == 0x0200u16) by (bit_vector);
    assert(r@ =~= reset_sequence());
    r
}

/// Clock frequency in Hz for the speed code `speed` (0-7; others give 1 MHz).
pub open spec fn speed_hz(speed: u8) -> u32 {
    match speed {
        0 => 100_000,
        1 => 500_000,
        2 => 1_000_000,
        3 => 5_000_000,
        4 => 10_000_000,
        5 => 15_000_000,
        6 => 20_000_000,
        7 => 30_000_000,
        _ => 1_000_000,
    }
}

/// TCK divisor for `freq_hz`: TCK = 60 MHz / ((1 + divisor) * 2).
pub open spec fn divisor_for(freq_hz: u32) -> u16 {
    (60_000_000int / (2 * freq_hz) - 1) as u16
}

/// What the FTDI driver remembers: the clock frequency and the levels it
/// last drove the ADBUS pins to.
#[derive(Debug, Clone, Copy, PartialEq, Eq)]
pub struct FtdiState {
    pub current_speed: u32,
    pub current_gpio_low: u8,
}

impl FtdiState {
    /// A freshly opened device: 1 MHz, all pins low.
    pub fn new() -> (s: Self)
        ensures
            s.current_speed == 1_000_000,
            s.current_gpio_low == 0,
    {
        FtdiState { current_speed: 1_000_000, current_gpio_low: 0 }
    }

    /// Chip deselected (CS high) after the reset: the ADBUS command that drives it.
    pub fn idle_cmd(&mut self) -> (cmd: [u8; 3])
        ensures
            cmd@ == seq![CMD_SET_BITS_LOW, PIN_CS, DIRECTION_DEFAULT],
            final(self).current_gpio_low == PIN_CS,
            final(self).current_speed == old(self).current_speed,
    {
        self.current_gpio_low = PIN_CS;
        build_set_low_gpio_cmd(self.current_gpio_low, DIRECTION_DEFAULT)
    }

    /// The ADBUS command that drives chip select (low when `active`).
    pub fn cs_cmd(&mut self, active: bool) -> (cmd: [u8; 3])
        ensures
            final(self).current_gpio_low == if active {
                old(self).current_gpio_low & !PIN_CS
            } else {
                old(self).current_gpio_low | PIN_CS
            },
            cmd@ == seq![CMD_SET_BITS_LOW, final(self).current_gpio_low, DIRECTION_DEFAULT],
            final(self).current_speed == old(self).current_speed,
    {
        if active {
            self.current_gpio_low = self.current_gpio_low & !PIN_CS;
        } else {
            self.current_gpio_low = self.current_gpio_low | PIN_CS;
        }
        build_set_low_gpio_cmd(self.current_gpio_low, DIRECTION_DEFAULT)
    }

    /// Select the clock for the speed code `speed` and return the divisor
    /// command that applies it.
    pub fn set_speed_cmd(&mut self, speed: u8) -> (cmd: [u8; 3])
        ensures
            final(self).current_speed == speed_hz(speed),
            final(self).current_gpio_low == old(self).current_gpio_low,
            cmd@ == seq![CMD_SET_TCK_DIVISOR] + le16(divisor_for(speed_hz(speed))),
    {
        let freq_hz: u32 = match speed {
            0 => 100_000,
            1 => 500_000,
            2 => 1_000_000,
            3 => 5_000_000,
            4 => 10_000_000,
            5 => 15_000_000,
            6 => 20_000_000,
            7 => 30_000_000,
            _ => 1_000_000,
        };
        self.current_speed = freq_hz;
        assert(60_000_000int / (2 * freq_hz) >= 1 && 60_000_000int / (2 * freq_hz) <= 300)
            by (nonlinear_arith)
            requires
                100_000 <= freq_hz <= 30_000_000,
        ;
        let divisor = ((60_000_000 / (2 * freq_hz)) - 1) as u16;
        build_set_divisor_cmd(divisor)
    }
}

impl Default for FtdiState {
    fn default() -> (s: Self)
        ensures
            s.current_speed == 1_000_000,
            s.current_gpio_low == 0,
    {
        Self::new()
    }
}

/// Bytes drained from the device after the reset.
pub const DRAIN_LEN: usize = 64;

/// Time the device gets to settle after the reset, in microseconds.
pub const RESET_SETTLE_US: u32 = 10_000;

/// The USB requests of the first `k` blocks of a full-duplex transfer of
/// `tx` whose reads returned `ins`: the read/write command with the block,
/// then the read of the answer.
pub open spec fn rw_usb(tx: Seq<u8>, ins: Seq<Seq<u8>>, ep_out: u8, ep_in: u8, k: int) -> Seq<UsbOp>
    decreases k,
{
    if k <= 0 {
        Seq::empty()
    } else {
        let j = k - 1;
        let block = piece(tx, MAX_MPSSE as int, j);
        rw_usb(tx, ins, ep_out, ep_in, j) + seq![
            UsbOp::Out {
                endpoint: ep_out,
                data: byte_cmd_header(CMD_MSB_DATA_IN_OUT_BYTES_POS, block.len()) + block,
            },
            UsbOp::In { endpoint: ep_in, data: ins[j] },
        ]
    }
}

/// Transfers that agree on the answers before `k` made the same requests.
proof fn lemma_rw_usb_prefix(
    tx: Seq<u8>,
    a: Seq<Seq<u8>>,
    b: Seq<Seq<u8>>,
    ep_out: u8,
    ep_in: u8,
    k: int,
)
    requires
        0 <= k <= a.len(),
        k <= b.len(),
        forall|j: int| 0 <= j < k ==> a[j] == b[j],
    ensures
        rw_usb(tx, a, ep_out, ep_in, k) == rw_usb(tx, b, ep_out, ep_in, k),
    decreases k,
{
    if k > 0 {
        lemma_rw_usb_prefix(tx, a, b, ep_out, ep_in, k - 1);
    }
}

/// An FTDI MPSSE programmer reached through the USB link `T`.
pub struct FtdiProgrammer<T: UsbTransport> {
    transport: T,
    state: FtdiState,
    ep_out: u8,
    ep_in: u8,
    bus_log: Ghost<Seq<BusOp>>,
    usb_log: Ghost<Seq<UsbOp>>,
}

impl<T: UsbTransport> FtdiProgrammer<T> {
    /// The USB requests made so far, oldest first.
    pub closed spec fn usb(&self) -> Seq<UsbOp> {
        self.usb_log@
    }

    /// The clock and pin levels the driver remembers.
    pub closed spec fn driver_state(&self) -> FtdiState {
        self.state
    }

    /// The bulk endpoints in use (OUT, IN).
    pub closed spec fn endpoints(&self) -> (u8, u8) {
        (self.ep_out, self.ep_in)
    }

    /// Send `data` over the link, recording it.
    fn out(&mut self, data: &[u8]) -> (r: Result<()>)
        ensures
            final(self).state == old(self).state,
            final(self).ep_out == old(self).ep_out,
            final(self).ep_in == old(self).ep_in,
            r is Ok ==> final(self).bus_log == old(self).bus_log,
            r is Err ==> final(self).bus_log@ == old(self).bus_log@.push(BusOp::Fault),
            r is Ok ==> final(self).usb_log@ == old(self).usb_log@.push(
                UsbOp::Out { endpoint: old(self).ep_out, data: data@ },
            ),
            r is Err ==> final(self).usb_log@ == old(self).usb_log@.push(
                UsbOp::OutFailed { endpoint: old(self).ep_out, data: data@ },
            ),
    {
        if let Err(e) = self.transport.bulk_out(self.ep_out, data) {
            proof {
                self.bus_log@ = self.bus_log@.push(BusOp::Fault);
                self.usb_log@ = self.usb_log@.push(UsbOp::OutFailed { endpoint: self.ep_out, data: data@ });
            }
            return Err(e);
        }
        proof {
            self.usb_log@ = self.usb_log@.push(UsbOp::Out { endpoint: self.ep_out, data: data@ });
        }
        Ok(())
    }

    /// Read up to `len` bytes over the link, recording them.
    fn inp(&mut self, len: usize) -> (r: Result<Vec<u8>>)
        ensures
            final(self).state == old(self).state,
            final(self).ep_out == old(self).ep_out,
            final(self).ep_in == old(self).ep_in,
            r is Ok ==> final(self).bus_log == old(self).bus_log,
            r is Err ==> final(self).bus_log@ == old(self).bus_log@.push(BusOp::Fault),
            r is Ok ==> final(self).usb_log@ == old(self).usb_log@.push(
                UsbOp::In { endpoint: old(self).ep_in, data: r->Ok_0@ },
            ),
            r is Err ==> final(self).usb_log@ == old(self).usb_log@.push(
                UsbOp::InFailed { endpoint: old(self).ep_in },
            ),
    {
        let data = match self.transport.bulk_in(self.ep_in, len) {
            Ok(d) => d,
            Err(e) => {
                proof {
                    self.bus_log@ = self.bus_log@.push(BusOp::Fault);
                    self.usb_log@ = self.usb_log@.push(UsbOp::InFailed { endpoint: self.ep_in });
                }
                return Err(e);
            },
        };
        proof {
            self.usb_log@ = self.usb_log@.push(UsbOp::In { endpoint: self.ep_in, data: data@ });
        }
        Ok(data)
    }

    /// Open the programmer on `transport` with the bulk endpoints `ep_out`
    /// and `ep_in`: reset channel A into MPSSE mode, let it settle, drain
    /// what it had queued, set a 1 MHz clock, switch loopback off, and
    /// deselect the chip.
    pub fn new(transport: T, ep_out: u8, ep_in: u8) -> (r: Result<Self>)
        ensures
            r matches Ok(p) ==> {
                let u = p.usb();
                &&& p.log() == Seq::<BusOp>::empty()
                &&& p.endpoints() == (ep_out, ep_in)
                &&& p.driver_state() == (FtdiState { current_speed: 1_000_000, current_gpio_low: PIN_CS })
                &&& u.len() >= 8
                &&& u.subrange(0, 5) == reset_sequence().map_values(
                    |c: ControlRequest|
                        UsbOp::Control { request: c.request, value: c.value, index: c.index },
                )
                &&& u.subrange(u.len() - 3, u.len() as int) == seq![
                    UsbOp::Out {
                        endpoint: ep_out,
                        data: seq![CMD_SET_TCK_DIVISOR] + le16(RESET_DIVISOR),
                    },
                    UsbOp::Out { endpoint: ep_out, data: seq![CMD_LOOPBACK_OFF] },
                    UsbOp::Out {
                        endpoint: ep_out,
                        data: seq![CMD_SET_BITS_LOW, PIN_CS, DIRECTION_DEFAULT],
                    },
                ]
            },
    {
        let mut p = FtdiProgrammer {
            transport,
            state: FtdiState::new(),
            ep_out,
            ep_in,
            bus_log: Ghost(Seq::empty()),
            usb_log: Ghost(Seq::empty()),
        };
        let reqs = reset_requests();
        let ghost controls = reset_sequence().map_values(
            |c: ControlRequest| UsbOp::Control { request: c.request, value: c.value, index: c.index },
        );
        let mut i: usize = 0;
        assert(p.usb_log@ =~= controls.subrange(0, 0));
        while i < reqs.len()
            invariant
                reqs@ == reset_sequence(),
                i <= reqs@.len(),
                p.ep_out == ep_out,
                p.ep_in == ep_in,
                p.state == FtdiState::new_spec(),
                p.bus_log@ == Seq::<BusOp>::empty(),
                controls == reset_sequence().map_values(
                    |c: ControlRequest|
                        UsbOp::Control { request: c.request, value: c.value, index: c.index },
                ),
                p.usb_log@ == controls.subrange(0, i as int),
            decreases reqs@.len() - i,
        {
            let c = reqs[i];
            p.transport.control_out(c.request, c.value, c.index)?;
            proof {
                p.usb_log@ = p.usb_log@.push(
                    UsbOp::Control { request: c.request, value: c.value, index: c.index },
                );
                assert(controls.subrange(0, i + 1) =~= controls.subrange(0, i as int).push(
                    controls[i as int],
                ));
            }
            i = i + 1;
        }
        p.transport.delay_us(RESET_SETTLE_US);
        let _ = p.inp(DRAIN_LEN);
        let ghost prefix = p.usb_log@;
        let div = build_set_divisor_cmd(RESET_DIVISOR);
        p.out(&div)?;
        let lb = [build_loopback_cmd(false)];
        p.out(&lb)?;
        let idle = p.state.idle_cmd();
        p.out(&idle)?;
        proof {
            assert(lb@ =~= seq![CMD_LOOPBACK_OFF]);
            let u = p.usb_log@;
            assert(u.subrange(0, 5) =~= controls);
            assert(u.subrange(u.len() - 3, u.len() as int) =~= seq![
                UsbOp::Out { endpoint: ep_out, data: div@ },
                UsbOp::Out { endpoint: ep_out, data: lb@ },
                UsbOp::Out { endpoint: ep_out, data: idle@ },
            ]);
        }
        p.bus_log = Ghost(Seq::empty());
        Ok(p)
    }
}

impl FtdiState {
    /// The state of a freshly opened device.
    pub open spec fn new_spec() -> FtdiState {
        FtdiState { current_speed: 1_000_000, current_gpio_low: 0 }
    }
}

impl<T: UsbTransport> Programmer for FtdiProgrammer<T> {
    closed spec fn log(&self) -> Seq<BusOp> {
        self.bus_log@
    }

    closed spec fn wf(&self) -> bool {
        true
    }

    /// Transfers take a receive buffer exactly as long as what is sent.
    open spec fn accepts_rx(&self, tx_len: nat, rx_len: nat) -> bool {
        tx_len == rx_len
    }

    proof fn lemma_accepts_equal(&self, n: nat) {
        assert(self.accepts_rx(n, n) == (n == n));
    }

    open spec fn bulk_limit(&self) -> nat {
        DEFAULT_BULK_CHUNK_SIZE as nat
    }

    fn max_bulk_transfer_size(&self) -> (n: usize) {
        DEFAULT_BULK_CHUNK_SIZE
    }

    open spec fn has_i2c() -> bool {
        false
    }

    open spec fn has_gpio() -> bool {
        false
    }

    /// No I2C on this programmer.
    fn i2c_write(&mut self, addr: u8, data: &[u8]) -> (r: Result<()>) {
        Err(Error::NotSupported("I2C is not supported by this programmer".to_string()))
    }

    /// No I2C on this programmer.
    fn i2c_read(&mut self, addr: u8, len: usize) -> (r: Result<Vec<u8>>) {
        Err(Error::NotSupported("I2C is not supported by this programmer".to_string()))
    }

    /// No GPIO on this programmer.
    fn gpio_set(&mut self, pin: u8, level: bool) -> (r: Result<()>) {
        Err(Error::NotSupported("GPIO is not supported by this programmer".to_string()))
    }

    /// No GPIO on this programmer.
    fn gpio_get(&mut self, pin: u8) -> (r: Result<bool>) {
        Err(Error::NotSupported("GPIO is not supported by this programmer".to_string()))
    }

    fn name(&self) -> (n: &str)
        ensures
            n@ == "FTDI High-Speed Programmer (MPSSE)"@,
    {
        "FTDI High-Speed Programmer (MPSSE)"
    }

    /// In blocks of at most 65535 bytes: the read/write command with the
    /// block, then a read of as many bytes; what comes back is copied into
    /// `rx` (a short answer leaves the rest of the block as it was).
    fn spi_transfer(&mut self, tx: &[u8], rx: &mut [u8]) -> (r: Result<()>)
        ensures
            final(self).driver_state() == old(self).driver_state(),
            final(self).endpoints() == old(self).endpoints(),
            r is Ok ==> exists|ins: Seq<Seq<u8>>|
                #![trigger rw_usb(tx@, ins, old(self).endpoints().0, old(self).endpoints().1, ins.len() as int)]
                {
                    &&& ins.len() == div_ceil(tx@.len() as int, MAX_MPSSE as int)
                    &&& final(self).usb() == old(self).usb() + rw_usb(
                        tx@,
                        ins,
                        old(self).endpoints().0,
                        old(self).endpoints().1,
                        ins.len() as int,
                    )
                    &&& forall|j: int|
                        0 <= j < ins.len() ==> #[trigger] piece(final(rx)@, MAX_MPSSE as int, j)
                            == answered(piece(old(rx)@, MAX_MPSSE as int, j), ins[j])
                },
            r is Err ==> old(self).usb().len() < final(self).usb().len() && link_failed(
                final(self).usb().last(),
            ),
    {
        let n = tx.len();
        let ghost usb0 = self.usb_log@;
        let ghost log0 = self.bus_log@;
        let ghost rx0 = rx@;
        let size = MAX_MPSSE;
        let mut off: usize = 0;
        let ghost mut ins: Seq<Seq<u8>> = Seq::empty();
        while off < n
            invariant
                n == tx@.len(),
                rx@.len() == n,
                rx0.len() == n,
                rx0 == old(rx)@,
                size == MAX_MPSSE,
                off <= n,
                off == n || off == ins.len() * size,
                off <= ins.len() * size,
                ins.len() == 0 || (ins.len() - 1) * size < n,
                self.state == old(self).state,
                self.ep_out == old(self).ep_out,
                self.ep_in == old(self).ep_in,
                self.bus_log@ == log0,
                log0 == old(self).bus_log@,
                usb0 == old(self).usb_log@,
                self.usb_log@ == usb0 + rw_usb(tx@, ins, self.ep_out, self.ep_in, ins.len() as int),
                forall|j: int| off <= j < n ==> rx@[j] == rx0[j],
                forall|j: int|
                    0 <= j < ins.len() ==> #[trigger] piece(rx@, size as int, j) == answered(
                        piece(rx0, size as int, j),
                        ins[j],
                    ),
            decreases n - off,
        {
            let ghost k = ins.len() as int;
            let end = if n - off < size {
                n
            } else {
                off + size
            };
            let chunk = vstd::slice::slice_subrange(tx, off, end);
            let cmd = build_rw_bytes_cmd(chunk);
            self.out(cmd.as_slice())?;
            let response = self.inp(end - off)?;
            let ghost rx_before = rx@;
            let copy_len = if response.len() < end - off {
                response.len()
            } else {
                end - off
            };
            let mut i: usize = 0;
            while i < copy_len
                invariant
                    copy_len <= response@.len(),
                    off + copy_len <= end,
                    end <= n,
                    rx@.len() == n,
                    i <= copy_len,
                    forall|j: int| 0 <= j < off ==> rx@[j] == rx_before[j],
                    forall|j: int| off + copy_len <= j < n ==> rx@[j] == rx_before[j],
                    forall|j: int| off + i <= j < off + copy_len ==> rx@[j] == rx_before[j],
                    forall|j: int| 0 <= j < i ==> rx@[off + j] == response@[j],
                decreases copy_len - i,
            {
                rx[off + i] = response[i];
                i = i + 1;
            }
            proof {
                let s = size as int;
                assert(k * s + s == (k + 1) * s && k * s >= 0) by (nonlinear_arith)
                    requires
                        k >= 0,
                        s > 0,
                ;
                assert(off == k * s);
                assert(piece(tx@, s, k) =~= chunk@);
                assert(chunk@.len() > 0);
                let old_ins = ins;
                ins = ins.push(response@);
                assert(piece(rx@, s, k) =~= answered(piece(rx0, s, k), response@));
                assert forall|j: int| 0 <= j < k implies #[trigger] piece(rx@, s, j) == answered(
                    piece(rx0, s, j),
                    ins[j],
                ) by {
                    assert((j + 1) * s <= k * s) by (nonlinear_arith)
                        requires
                            j < k,
                            s > 0,
                    ;
                    assert(j * s >= 0) by (nonlinear_arith)
                        requires
                            j >= 0,
                            s > 0,
                    ;
                    assert(piece(rx@, s, j) =~= piece(rx_before, s, j));
                }
                lemma_rw_usb_prefix(tx@, old_ins, ins, self.ep_out, self.ep_in, k);
                assert(self.usb_log@ =~= usb0 + rw_usb(tx@, ins, self.ep_out, self.ep_in, k + 1));
            }
            off = end;
        }
        proof {
            let s = size as int;
            let k = ins.len() as int;
            assert(k == div_ceil(n as int, s)) by (nonlinear_arith)
                requires
                    s > 0,
                    n <= k * s,
                    k == 0 || (k - 1) * s < n,
                    k >= 0,
            ;
            self.bus_log@ = log0 + clocks(tx@, rx@);
            assert(self.usb_log@ == usb0 + rw_usb(tx@, ins, self.ep_out, self.ep_in, ins.len() as int));
            assert forall|j: int| 0 <= j < ins.len() implies #[trigger] piece(rx@, MAX_MPSSE as int, j)
                == answered(piece(rx0, MAX_MPSSE as int, j), ins[j]) by {}
            assert(old(self).endpoints() == (self.ep_out, self.ep_in));
            assert(self.usb() == old(self).usb() + rw_usb(
                tx@,
                ins,
                old(self).endpoints().0,
                old(self).endpoints().1,
                ins.len() as int,
            ));
        }
        Ok(())
    }

    /// The chip-select level is remembered before the command is sent.
    fn set_cs(&mut self, active: bool) -> (r: Result<()>)
        ensures
            final(self).endpoints() == old(self).endpoints(),
            final(self).driver_state().current_speed == old(self).driver_state().current_speed,
            final(self).driver_state().current_gpio_low == if active {
                old(self).driver_state().current_gpio_low & !PIN_CS
            } else {
                old(self).driver_state().current_gpio_low | PIN_CS
            },
            r is Ok ==> final(self).usb() == old(self).usb().push(
                UsbOp::Out {
                    endpoint: old(self).endpoints().0,
                    data: seq![
                        CMD_SET_BITS_LOW,
                        final(self).driver_state().current_gpio_low,
                        DIRECTION_DEFAULT,
                    ],
                },
            ),
            r is Err ==> old(self).usb().len() < final(self).usb().len() && link_failed(
                final(self).usb().last(),
            ),
    {
        let cmd = self.state.cs_cmd(active);
        self.out(&cmd)?;
        proof {
            self.bus_log@ = self.bus_log@.push(BusOp::Select(active));
        }
        Ok(())
    }

    /// Speed codes 0-7 select 100 kHz to 30 MHz; others 1 MHz. The
    /// frequency is remembered before the command is sent.
    fn set_speed(&mut self, speed: u8) -> (r: Result<()>)
        ensures
            final(self).endpoints() == old(self).endpoints(),
            final(self).driver_state().current_speed == speed_hz(speed),
            final(self).driver_state().current_gpio_low == old(self).driver_state().current_gpio_low,
            r is Ok ==> final(self).usb() == old(self).usb().push(
                UsbOp::Out {
                    endpoint: old(self).endpoints().0,
                    data: seq![CMD_SET_TCK_DIVISOR] + le16(divisor_for(speed_hz(speed))),
                },
            ),
            r is Err ==> old(self).usb().len() < final(self).usb().len() && link_failed(
                final(self).usb().last(),
            ),
    {
        let cmd = self.state.set_speed_cmd(speed);
        self.out(&cmd)?;
        Ok(())
    }

    fn delay_us(&mut self, micros: u32) {
        self.transport.delay_us(micros);
    }
}

} // verus!
