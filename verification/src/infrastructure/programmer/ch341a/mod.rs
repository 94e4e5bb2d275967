//! CH341A USB programmer: the command packets it understands, and the state
//! the driver keeps between them.
//!
//! The USB transport that sends these packets lives with the application.

pub mod protocol;

use vstd::prelude::*;

use crate::error::{Error, Result};
use crate::infrastructure::programmer::frames::{concat, div_ceil, lemma_added_trans, lemma_concat_push, piece};
use crate::infrastructure::programmer::traits::{
    added, clocked_in, clocks, idle_bytes, BusOp, Programmer,
};
use crate::infrastructure::programmer::usb::{link_fault, UsbOp, UsbTransport};
use protocol::{
    build_cs_cmd, build_gpio_cmd, build_i2c_read_cmd, build_i2c_write_cmd, build_set_mode_cmd,
    build_spi_stream_cmd, build_spi_transfer_cmd, build_transaction_write_cmd, cs_packet,
    gpio_input_level, gpio_outputs, gpio_packet, i2c_read_packet, i2c_write_packet, piece_len,
    reads_in_bulk, set_mode_packet, speed_code, stream_chunk_sizes, SpiSpeed, CMD_GET_STATUS,
    CMD_SPI_STREAM, MAX_SPI_STREAM_SIZE, MAX_SPI_TRANSFER_SIZE,
};

verus! {

/// USB vendor ID of the CH341A.
pub const CH341A_VID: u16 = 0x1A86;

/// USB product ID of the CH341A in SPI/I2C mode.
pub const CH341A_PID: u16 = 0x5512;

/// Bulk OUT endpoint.
pub const EP_OUT: u8 = 0x02;

/// Bulk IN endpoint.
pub const EP_IN: u8 = 0x82;

/// Output pins after the set-mode packet: all high, chip deselected.
pub const OUTPUTS_IDLE: u8 = 0x37;

/// What the CH341A driver remembers between packets: the SPI speed and the
/// levels it last drove the output pins to.
#[derive(Debug, Clone, Copy, PartialEq, Eq)]
pub struct Ch341aState {
    pub speed: SpiSpeed,
    pub current_outputs: u8,
}

impl Ch341aState {
    /// A freshly opened device: ~3 MHz, outputs idle.
    pub fn new() -> (s: Self)
        ensures
            s.speed == SpiSpeed::Medium,
            s.current_outputs == OUTPUTS_IDLE,
    {
        Ch341aState { speed: SpiSpeed::Medium, current_outputs: OUTPUTS_IDLE }
    }

    /// The packet that puts the device in SPI mode at the current speed; the
    /// outputs are idle afterwards.
    pub fn configure_cmd(&mut self) -> (cmd: Vec<u8>)
        ensures
            cmd@ == set_mode_packet(old(self).speed),
            final(self).speed == old(self).speed,
            final(self).current_outputs == OUTPUTS_IDLE,
    {
        let cmd = build_set_mode_cmd(self.speed);
        self.current_outputs = OUTPUTS_IDLE;
        cmd
    }

    /// Select the speed with code `speed` (0-7; others give ~3 MHz) and
    /// return the packet that applies it.
    pub fn set_speed_cmd(&mut self, speed: u8) -> (cmd: Vec<u8>)
        ensures
            speed <= 7 ==> speed_code(final(self).speed) == speed,
            speed > 7 ==> final(self).speed == SpiSpeed::Medium,
            cmd@ == set_mode_packet(final(self).speed),
            final(self).current_outputs == OUTPUTS_IDLE,
    {
        self.speed = SpiSpeed::from_u8(speed);
        self.configure_cmd()
    }

    /// The packet that drives chip select (low when `active`); bit 0 of the
    /// remembered outputs follows it.
    pub fn cs_cmd(&mut self, active: bool) -> (cmd: Vec<u8>)
        ensures
            cmd@ == cs_packet(active),
            final(self).speed == old(self).speed,
            final(self).current_outputs == if active {
                old(self).current_outputs & !1u8
            } else {
                old(self).current_outputs | 1u8
            },
    {
        let cmd = build_cs_cmd(active);
        if active {
            self.current_outputs = self.current_outputs & !0x01;
        } else {
            self.current_outputs = self.current_outputs | 0x01;
        }
        cmd
    }

    /// The packet that drives output `pin` to `level`, the other outputs as
    /// remembered; the remembered outputs follow it.
    pub fn gpio_cmd(&mut self, pin: u8, level: bool) -> (cmd: Vec<u8>)
        requires
            pin < 8,
        ensures
            cmd@ == gpio_packet(pin, level, old(self).current_outputs),
            final(self).speed == old(self).speed,
            final(self).current_outputs == gpio_outputs(pin, level, old(self).current_outputs),
    {
        let cmd = build_gpio_cmd(pin, level, self.current_outputs);
        let mask = 1u8 << pin;
        if level {
            self.current_outputs = self.current_outputs | mask;
        } else {
            self.current_outputs = self.current_outputs & !mask;
        }
        cmd
    }
}

impl Default for Ch341aState {
    fn default() -> (s: Self)
        ensures
            s.speed == SpiSpeed::Medium,
            s.current_outputs == OUTPUTS_IDLE,
    {
        Self::new()
    }
}

/// The USB requests of the first `k` pieces of a full-duplex transfer of
/// `tx` answered by `rx`: for each piece of 32 bytes, the stream command
/// carrying it, then the read of the answer.
pub open spec fn transfer_usb(tx: Seq<u8>, rx: Seq<u8>, k: int) -> Seq<UsbOp>
    decreases k,
{
    if k <= 0 {
        Seq::empty()
    } else {
        let j = k - 1;
        transfer_usb(tx, rx, j) + seq![
            UsbOp::Out {
                endpoint: EP_OUT,
                data: seq![CMD_SPI_STREAM] + piece(tx, MAX_SPI_TRANSFER_SIZE as int, j),
            },
            UsbOp::In { endpoint: EP_IN, data: piece(rx, MAX_SPI_TRANSFER_SIZE as int, j) },
        ]
    }
}

/// The stream command that clocks out `n` filler bytes.
pub open spec fn stream_packet(n: nat) -> Seq<u8> {
    seq![CMD_SPI_STREAM] + idle_bytes(n)
}

/// The USB requests of the first `k` pieces of a stream read of `len`
/// bytes answered by `ins`: for each piece, the stream command, then the
/// read of its answer.
pub open spec fn stream_usb(len: int, ins: Seq<Seq<u8>>, k: int) -> Seq<UsbOp>
    decreases k,
{
    if k <= 0 {
        Seq::empty()
    } else {
        let j = k - 1;
        stream_usb(len, ins, j) + seq![
            UsbOp::Out {
                endpoint: EP_OUT,
                data: stream_packet(piece_len(len, MAX_SPI_STREAM_SIZE as int, j) as nat),
            },
            UsbOp::In { endpoint: EP_IN, data: ins[j] },
        ]
    }
}

/// Transfers whose answers agree on the pieces before `k` made the same requests.
proof fn lemma_transfer_usb_prefix(tx: Seq<u8>, rx1: Seq<u8>, rx2: Seq<u8>, k: int)
    requires
        0 <= k,
        rx1.len() == rx2.len(),
        k * MAX_SPI_TRANSFER_SIZE <= rx1.len() ==> rx1.subrange(0, k * MAX_SPI_TRANSFER_SIZE)
            == rx2.subrange(0, k * MAX_SPI_TRANSFER_SIZE),
        k * MAX_SPI_TRANSFER_SIZE > rx1.len() ==> rx1 == rx2,
    ensures
        transfer_usb(tx, rx1, k) == transfer_usb(tx, rx2, k),
    decreases k,
{
    if k > 0 {
        let j = k - 1;
        let s = MAX_SPI_TRANSFER_SIZE as int;
        assert(j * s + s == k * s) by (nonlinear_arith)
            requires
                j == k - 1,
        ;
        assert(j * s >= 0) by (nonlinear_arith)
            requires
                j >= 0,
                s > 0,
        ;
        if k * s <= rx1.len() {
            assert(rx1.subrange(0, j * s) =~= rx1.subrange(0, k * s).subrange(0, j * s));
            assert(rx2.subrange(0, j * s) =~= rx2.subrange(0, k * s).subrange(0, j * s));
            assert(piece(rx1, s, j) =~= rx1.subrange(0, k * s).subrange(j * s, k * s));
            assert(piece(rx2, s, j) =~= rx2.subrange(0, k * s).subrange(j * s, k * s));
        } else if j * s <= rx1.len() {
            assert(rx1.subrange(0, j * s) =~= rx2.subrange(0, j * s));
        }
        lemma_transfer_usb_prefix(tx, rx1, rx2, j);
    }
}

/// A CH341A reached through the USB link `T`.
pub struct Ch341a<T: UsbTransport> {
    transport: T,
    state: Ch341aState,
    bus_log: Ghost<Seq<BusOp>>,
    usb_log: Ghost<Seq<UsbOp>>,
}

impl<T: UsbTransport> Ch341a<T> {
    /// The USB requests made so far, oldest first.
    pub closed spec fn usb(&self) -> Seq<UsbOp> {
        self.usb_log@
    }

    /// The speed and output levels the driver remembers.
    pub closed spec fn driver_state(&self) -> Ch341aState {
        self.state
    }

    /// Open the programmer on `transport`: the device is put in SPI mode at
    /// ~3 MHz.
    pub fn new(transport: T) -> (r: Result<Self>)
        ensures
            r matches Ok(p) ==> p.usb() == seq![
                UsbOp::Out { endpoint: EP_OUT, data: set_mode_packet(SpiSpeed::Medium) },
            ] && p.log() == Seq::<BusOp>::empty() && p.driver_state() == Ch341aState::new_spec(),
    {
        let mut state = Ch341aState::new();
        let cmd = state.configure_cmd();
        let mut transport = transport;
        transport.bulk_out(EP_OUT, cmd.as_slice())?;
        let ghost first = seq![UsbOp::Out { endpoint: EP_OUT, data: cmd@ }];
        Ok(Ch341a { transport, state, bus_log: Ghost(Seq::empty()), usb_log: Ghost(first) })
    }

    /// Send `data` over the link, recording it.
    fn out(&mut self, data: &[u8]) -> (r: Result<()>)
        ensures
            final(self).state == old(self).state,
            r is Ok ==> final(self).bus_log == old(self).bus_log,
            r is Err ==> final(self).bus_log@ == old(self).bus_log@.push(BusOp::Fault),
            r is Ok ==> final(self).usb_log@ == old(self).usb_log@.push(
                UsbOp::Out { endpoint: EP_OUT, data: data@ },
            ),
            r is Err ==> final(self).usb_log@ == old(self).usb_log@.push(
                UsbOp::OutFailed { endpoint: EP_OUT, data: data@ },
            ),
    {
        if let Err(e) = self.transport.bulk_out(EP_OUT, data) {
            proof {
                self.bus_log@ = self.bus_log@.push(BusOp::Fault);
                self.usb_log@ = self.usb_log@.push(UsbOp::OutFailed { endpoint: EP_OUT, data: data@ });
            }
            return Err(e);
        }
        proof {
            self.usb_log@ = self.usb_log@.push(UsbOp::Out { endpoint: EP_OUT, data: data@ });
        }
        Ok(())
    }

    /// Read up to `len` bytes over the link, recording them.
    fn inp(&mut self, len: usize) -> (r: Result<Vec<u8>>)
        ensures
            final(self).state == old(self).state,
            r is Ok ==> final(self).bus_log == old(self).bus_log,
            r is Err ==> final(self).bus_log@ == old(self).bus_log@.push(BusOp::Fault),
            r is Ok ==> final(self).usb_log@ == old(self).usb_log@.push(
                UsbOp::In { endpoint: EP_IN, data: r->Ok_0@ },
            ),
            r is Err ==> final(self).usb_log@ == old(self).usb_log@.push(
                UsbOp::InFailed { endpoint: EP_IN },
            ),
    {
        let data = match self.transport.bulk_in(EP_IN, len) {
            Ok(d) => d,
            Err(e) => {
                proof {
                    self.bus_log@ = self.bus_log@.push(BusOp::Fault);
                    self.usb_log@ = self.usb_log@.push(UsbOp::InFailed { endpoint: EP_IN });
                }
                return Err(e);
            },
        };
        proof {
            self.usb_log@ = self.usb_log@.push(UsbOp::In { endpoint: EP_IN, data: data@ });
        }
        Ok(data)
    }
}

impl Ch341aState {
    /// The state of a freshly opened device.
    pub open spec fn new_spec() -> Ch341aState {
        Ch341aState { speed: SpiSpeed::Medium, current_outputs: OUTPUTS_IDLE }
    }
}

impl<T: UsbTransport> Programmer for Ch341a<T> {
    closed spec fn log(&self) -> Seq<BusOp> {
        self.bus_log@
    }

    closed spec fn wf(&self) -> bool {
        true
    }

    /// Transfers take a receive buffer exactly as long as what is sent.
    open spec fn accepts_rx(&self, tx_len: nat, rx_len: nat) -> bool {
        tx_len == rx_len
    }

    proof fn lemma_accepts_equal(&self, n: nat) {
        assert(self.accepts_rx(n, n) == (n == n));
    }

    open spec fn bulk_limit(&self) -> nat {
        MAX_SPI_STREAM_SIZE as nat
    }

    open spec fn has_i2c() -> bool {
        true
    }

    open spec fn has_gpio() -> bool {
        true
    }

    fn name(&self) -> (n: &str)
        ensures
            n@ == "CH341A USB Programmer"@,
    {
        "CH341A USB Programmer"
    }

    /// In pieces of 32 bytes: the stream command with the piece, then the
    /// read of the answer, which must be as long as the piece.
    fn spi_transfer(&mut self, tx: &[u8], rx: &mut [u8]) -> (r: Result<()>)
        ensures
            final(self).driver_state() == old(self).driver_state(),
            r is Ok ==> final(self).usb() == old(self).usb() + transfer_usb(
                tx@,
                final(rx)@,
                div_ceil(tx@.len() as int, MAX_SPI_TRANSFER_SIZE as int),
            ),
            r is Err ==> link_fault(old(self).usb(), final(self).usb()),
    {
        let n = tx.len();
        let ghost usb0 = self.usb_log@;
        let ghost log0 = self.bus_log@;
        let size = MAX_SPI_TRANSFER_SIZE;
        let mut off: usize = 0;
        let ghost mut k: int = 0;
        while off < n
            invariant
                n == tx@.len(),
                old(rx)@.len() == n,
                rx@.len() == n,
                size == MAX_SPI_TRANSFER_SIZE,
                0 <= k,
                off <= n,
                off == n || off == k * size,
                off <= k * size,
                k == 0 || (k - 1) * size < n,
                self.state == old(self).state,
                self.bus_log@ == log0,
                log0 == old(self).bus_log@,
                usb0 == old(self).usb_log@,
                self.usb_log@ == usb0 + transfer_usb(tx@, rx@, k),
            decreases n - off,
        {
            let end = if n - off < size {
                n
            } else {
                off + size
            };
            let chunk = vstd::slice::slice_subrange(tx, off, end);
            let cmd = build_spi_transfer_cmd(chunk);
            self.out(cmd.as_slice())?;
            let response = self.inp(end - off)?;
            if response.len() != end - off {
                proof {
                    self.bus_log@ = self.bus_log@.push(BusOp::Fault);
                }
                return Err(Error::Other("CH341A: SPI answer of unexpected length".to_string()));
            }
            let ghost rx_before = rx@;
            let mut i: usize = 0;
            while i < response.len()
                invariant
                    off + response@.len() == end,
                    end <= n,
                    rx@.len() == n,
                    i <= response@.len(),
                    forall|j: int| 0 <= j < off ==> rx@[j] == rx_before[j],
                    forall|j: int| 0 <= j < i ==> rx@[off + j] == response@[j],
                decreases response@.len() - i,
            {
                rx[off + i] = response[i];
                i = i + 1;
            }
            proof {
                let s = size as int;
                assert(k * s + s == (k + 1) * s) by (nonlinear_arith);
                assert(off == k * s);
                assert(piece(tx@, s, k) =~= chunk@);
                assert(piece(rx@, s, k) =~= response@);
                assert(rx@.subrange(0, k * s) =~= rx_before.subrange(0, k * s));
                lemma_transfer_usb_prefix(tx@, rx@, rx_before, k);
                assert(transfer_usb(tx@, rx@, k + 1) == transfer_usb(tx@, rx@, k) + seq![
                    UsbOp::Out { endpoint: EP_OUT, data: cmd@ },
                    UsbOp::In { endpoint: EP_IN, data: response@ },
                ]);
                assert(self.usb_log@ =~= usb0 + transfer_usb(tx@, rx@, k + 1));
                k = k + 1;
            }
            off = end;
        }
        proof {
            let s = size as int;
            assert(k == div_ceil(n as int, s)) by (nonlinear_arith)
                requires
                    s > 0,
                    n <= k * s,
                    k == 0 || (k - 1) * s < n,
                    k >= 0,
            ;
            self.bus_log@ = log0 + clocks(tx@, rx@);
        }
        Ok(())
    }

    fn set_cs(&mut self, active: bool) -> (r: Result<()>)
        ensures
            r is Ok ==> final(self).usb() == old(self).usb().push(
                UsbOp::Out { endpoint: EP_OUT, data: cs_packet(active) },
            ) && final(self).driver_state().current_outputs == if active {
                old(self).driver_state().current_outputs & !1u8
            } else {
                old(self).driver_state().current_outputs | 1u8
            } && final(self).driver_state().speed == old(self).driver_state().speed,
            r is Err ==> final(self).driver_state() == old(self).driver_state(),
            r is Err ==> link_fault(old(self).usb(), final(self).usb()),
    {
        let mut next = self.state;
        let cmd = next.cs_cmd(active);
        self.out(cmd.as_slice())?;
        self.state = next;
        proof {
            self.bus_log@ = self.bus_log@.push(BusOp::Select(active));
        }
        Ok(())
    }

    /// Stream reads of at most 4095 bytes each; what they return is put together.
    fn spi_read_bulk(&mut self, len: usize) -> (r: Result<Vec<u8>>)
        ensures
            final(self).driver_state() == old(self).driver_state(),
            r is Ok ==> exists|ins: Seq<Seq<u8>>|
                #![trigger concat(ins)]
                ins.len() == div_ceil(len as int, MAX_SPI_STREAM_SIZE as int) && r->Ok_0@ == concat(
                    ins,
                ) && final(self).usb() == old(self).usb() + stream_usb(len as int, ins, ins.len() as int),
            r is Err ==> link_fault(old(self).usb(), final(self).usb()),
    {
        let ghost usb0 = self.usb_log@;
        let ghost log0 = self.bus_log@;
        let sizes = stream_chunk_sizes(len);
        let mut result: Vec<u8> = Vec::new();
        let ghost mut ins: Seq<Seq<u8>> = Seq::empty();
        let mut k: usize = 0;
        while k < sizes.len()
            invariant
                k <= sizes@.len(),
                sizes@.len() == div_ceil(len as int, MAX_SPI_STREAM_SIZE as int),
                forall|j: int|
                    0 <= j < sizes@.len() ==> #[trigger] sizes@[j] == piece_len(
                        len as int,
                        MAX_SPI_STREAM_SIZE as int,
                        j,
                    ),
                forall|j: int| 0 <= j < sizes@.len() ==> #[trigger] sizes@[j] <= MAX_SPI_STREAM_SIZE,
                ins.len() == k,
                result@ == concat(ins),
                self.state == old(self).state,
                self.bus_log@ == log0,
                log0 == old(self).bus_log@,
                usb0 == old(self).usb_log@,
                self.usb_log@ == usb0 + stream_usb(len as int, ins, k as int),
            decreases sizes@.len() - k,
        {
            let size = sizes[k];
            let cmd = build_spi_stream_cmd(size);
            self.out(cmd.as_slice())?;
            let response = self.inp(size)?;
            let ghost before = result@;
            let mut i: usize = 0;
            while i < response.len()
                invariant
                    i <= response@.len(),
                    result@ == before + response@.subrange(0, i as int),
                decreases response@.len() - i,
            {
                result.push(response[i]);
                i = i + 1;
                assert(response@.subrange(0, i as int) =~= response@.subrange(0, i - 1).push(
                    response@[i - 1],
                ));
            }
            proof {
                assert(response@.subrange(0, response@.len() as int) =~= response@);
                assert(cmd@ =~= stream_packet(size as nat));
                lemma_concat_push(ins, response@);
                let old_ins = ins;
                ins = ins.push(response@);
                assert(ins.drop_last() =~= old_ins);
                assert(stream_usb(len as int, ins, k as int) == stream_usb(
                    len as int,
                    old_ins,
                    k as int,
                )) by {
                    lemma_stream_usb_prefix(len as int, old_ins, ins, k as int);
                }
                assert(self.usb_log@ =~= usb0 + stream_usb(len as int, ins, k + 1));
            }
            k = k + 1;
        }
        proof {
            self.bus_log@ = log0 + clocks(idle_bytes(result@.len()), result@);
            assert(clocked_in(added(log0, self.bus_log@), result@)) by {
                assert(added(log0, self.bus_log@) =~= clocks(idle_bytes(result@.len()), result@));
            }
        }
        Ok(result)
    }

    /// Select, send `tx`, read `rx_len` bytes (stream reads when longer than
    /// two plain transfers), deselect.
    fn spi_transaction(&mut self, tx: &[u8], rx_len: usize) -> (r: Result<Vec<u8>>) {
        let ghost l0 = self.log();
        self.set_cs(true)?;
        let ghost l1 = self.log();
        if tx.len() > 0 {
            self.spi_write(tx)?;
        }
        let ghost l2 = self.log();
        let rx = if reads_in_bulk(rx_len) {
            self.spi_read_bulk(rx_len)?
        } else {
            self.spi_read(rx_len)?
        };
        if rx.len() != rx_len {
            proof {
                self.bus_log@ = self.bus_log@.push(BusOp::Fault);
            }
            return Err(Error::Other("CH341A: SPI answer of unexpected length".to_string()));
        }
        let ghost l3 = self.log();
        self.set_cs(false)?;
        proof {
            lemma_added_trans(l0, l1, l2);
            lemma_added_trans(l0, l2, l3);
            lemma_added_trans(l0, l3, self.log());
            let a = added(l0, self.log());
            assert(a =~= added(l0, l1) + added(l1, l2) + added(l2, l3) + added(l3, self.log()));
            if tx@.len() == 0 {
                assert(added(l1, l2) =~= Seq::<BusOp>::empty());
            }
            assert(a.subrange(1, tx@.len() as int + 1) =~= added(l1, l2));
            assert(a.subrange(tx@.len() as int + 1, tx@.len() + rx@.len() + 1int) =~= added(l2, l3));
            assert(a[0] == l1[l0.len() as int]);
        }
        Ok(rx)
    }

    /// One packet: select, stream `tx`, deselect. The answer is not read
    /// back; the record shows an idle bus.
    fn spi_transaction_write(&mut self, tx: &[u8]) -> (r: Result<()>)
        ensures
            final(self).driver_state() == old(self).driver_state(),
            r is Ok ==> final(self).usb() == old(self).usb().push(
                UsbOp::Out {
                    endpoint: EP_OUT,
                    data: cs_packet(true) + (if tx@.len() > 0 {
                        seq![CMD_SPI_STREAM] + tx@
                    } else {
                        Seq::empty()
                    }) + cs_packet(false),
                },
            ),
            r is Err ==> link_fault(old(self).usb(), final(self).usb()),
    {
        let cmd = build_transaction_write_cmd(tx);
        self.out(cmd.as_slice())?;
        proof {
            let frame = seq![BusOp::Select(true)] + clocks(tx@, idle_bytes(tx@.len())) + seq![
                BusOp::Select(false),
            ];
            let l0 = self.bus_log@;
            self.bus_log@ = l0 + frame;
            assert(added(l0, self.bus_log@) =~= frame);
            assert(frame.subrange(1, tx@.len() as int + 1) =~= clocks(tx@, idle_bytes(tx@.len())));
        }
        Ok(())
    }

    fn max_bulk_transfer_size(&self) -> (n: usize)
        ensures
            n == MAX_SPI_STREAM_SIZE,
    {
        MAX_SPI_STREAM_SIZE
    }

    /// Speed codes 0-7; others select ~3 MHz. The device is set up again.
    fn set_speed(&mut self, speed: u8) -> (r: Result<()>)
        ensures
            r is Ok ==> final(self).usb() == old(self).usb().push(
                UsbOp::Out { endpoint: EP_OUT, data: set_mode_packet(final(self).driver_state().speed) },
            ) && final(self).driver_state().current_outputs == OUTPUTS_IDLE && (speed <= 7
                ==> speed_code(final(self).driver_state().speed) == speed) && (speed > 7
                ==> final(self).driver_state().speed == SpiSpeed::Medium),
            r is Err ==> final(self).driver_state() == old(self).driver_state(),
            r is Err ==> link_fault(old(self).usb(), final(self).usb()),
    {
        let mut next = self.state;
        let cmd = next.set_speed_cmd(speed);
        self.out(cmd.as_slice())?;
        self.state = next;
        Ok(())
    }

    /// At most 31 bytes.
    fn i2c_write(&mut self, addr: u8, data: &[u8]) -> (r: Result<()>)
        ensures
            final(self).driver_state() == old(self).driver_state(),
            data@.len() > 31 ==> r is Err && final(self).usb() == old(self).usb(),
            r is Ok ==> final(self).usb() == old(self).usb().push(
                UsbOp::Out { endpoint: EP_OUT, data: i2c_write_packet(addr, data@) },
            ),
            r is Err && data@.len() <= 31 ==> link_fault(old(self).usb(), final(self).usb()),
    {
        let cmd = match build_i2c_write_cmd(addr, data) {
            Ok(c) => c,
            Err(e) => {
                proof {
                    self.bus_log@ = self.bus_log@.push(BusOp::Fault);
                }
                return Err(e);
            },
        };
        self.out(cmd.as_slice())?;
        proof {
            self.bus_log@ = self.bus_log@.push(BusOp::I2cWrite { addr, data: data@ });
        }
        Ok(())
    }

    /// At most 32 bytes; the answer must be as long as asked for.
    fn i2c_read(&mut self, addr: u8, len: usize) -> (r: Result<Vec<u8>>)
        ensures
            final(self).driver_state() == old(self).driver_state(),
            len > 32 ==> r is Err && final(self).usb() == old(self).usb(),
            r is Ok ==> final(self).usb() == old(self).usb().push(
                UsbOp::Out { endpoint: EP_OUT, data: i2c_read_packet(addr, len as u8) },
            ).push(UsbOp::In { endpoint: EP_IN, data: r->Ok_0@ }),
            r is Err && len <= 32 ==> link_fault(old(self).usb(), final(self).usb()),
    {
        let cmd = match build_i2c_read_cmd(addr, len) {
            Ok(c) => c,
            Err(e) => {
                proof {
                    self.bus_log@ = self.bus_log@.push(BusOp::Fault);
                }
                return Err(e);
            },
        };
        self.out(cmd.as_slice())?;
        let data = self.inp(len)?;
        if data.len() != len {
            proof {
                self.bus_log@ = self.bus_log@.push(BusOp::Fault);
            }
            return Err(Error::Other("CH341A: I2C answer of unexpected length".to_string()));
        }
        proof {
            self.bus_log@ = self.bus_log@.push(BusOp::I2cRead { addr, data: data@ });
        }
        Ok(data)
    }

    /// Pins 0-7; the other outputs keep their remembered levels.
    fn gpio_set(&mut self, pin: u8, level: bool) -> (r: Result<()>)
        ensures
            pin >= 8 ==> r is Err && final(self).usb() == old(self).usb(),
            r is Ok ==> final(self).usb() == old(self).usb().push(
                UsbOp::Out {
                    endpoint: EP_OUT,
                    data: gpio_packet(pin, level, old(self).driver_state().current_outputs),
                },
            ) && final(self).driver_state().current_outputs == gpio_outputs(
                pin,
                level,
                old(self).driver_state().current_outputs,
            ) && final(self).driver_state().speed == old(self).driver_state().speed,
            r is Err ==> final(self).driver_state() == old(self).driver_state(),
            r is Err && pin < 8 ==> link_fault(old(self).usb(), final(self).usb()),
    {
        if pin >= 8 {
            proof {
                self.bus_log@ = self.bus_log@.push(BusOp::Fault);
            }
            return Err(Error::InvalidParameter("GPIO pin out of range".to_string()));
        }
        let mut next = self.state;
        let cmd = next.gpio_cmd(pin, level);
        self.out(cmd.as_slice())?;
        self.state = next;
        proof {
            self.bus_log@ = self.bus_log@.push(BusOp::GpioSet { pin, level });
        }
        Ok(())
    }

    /// The input level is bit 3 of the first status byte.
    fn gpio_get(&mut self, pin: u8) -> (r: Result<bool>)
        ensures
            final(self).driver_state() == old(self).driver_state(),
            r is Ok ==> exists|status: Seq<u8>|
                #![trigger status[0]]
                status.len() >= 1 && r->Ok_0 == (status[0] & 0x08u8 != 0) && final(self).usb()
                    == old(self).usb().push(
                    UsbOp::Out { endpoint: EP_OUT, data: seq![CMD_GET_STATUS] },
                ).push(UsbOp::In { endpoint: EP_IN, data: status }),
            r is Err ==> link_fault(old(self).usb(), final(self).usb()),
    {
        let cmd = vec![CMD_GET_STATUS];
        self.out(cmd.as_slice())?;
        let status = self.inp(2)?;
        if status.len() < 1 {
            proof {
                self.bus_log@ = self.bus_log@.push(BusOp::Fault);
            }
            return Err(Error::Other("CH341A: empty status answer".to_string()));
        }
        let level = gpio_input_level(status.as_slice());
        proof {
            self.bus_log@ = self.bus_log@.push(BusOp::GpioGet { pin, level });
            assert(cmd@ =~= seq![CMD_GET_STATUS]);
        }
        Ok(level)
    }

    fn delay_us(&mut self, micros: u32) {
        self.transport.delay_us(micros);
    }
}

/// Stream reads that agree on the answers before `k` made the same requests.
proof fn lemma_stream_usb_prefix(len: int, a: Seq<Seq<u8>>, b: Seq<Seq<u8>>, k: int)
    requires
        0 <= k <= a.len(),
        k <= b.len(),
        forall|j: int| 0 <= j < k ==> a[j] == b[j],
    ensures
        stream_usb(len, a, k) == stream_usb(len, b, k),
    decreases k,
{
    if k > 0 {
        lemma_stream_usb_prefix(len, a, b, k - 1);
    }
}

} // verus!
