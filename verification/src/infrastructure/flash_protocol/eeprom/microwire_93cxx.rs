//! Microwire EEPROM (93Cxx Series) Protocol Implementation
//!
//! The Microwire protocol is bit-banged over the programmer's GPIO pins:
//! chip select, clock, data out (to the chip) and data in (from the chip).
//! Every transaction starts with a start bit, then a 2-bit opcode, the
//! address bits and, for writes, the data bits, most significant first.

use vstd::prelude::*;

use crate::domain::bad_block::BadBlockStrategy;
use crate::domain::chip::ChipSpec;
use crate::domain::flash_operation::{
    erase_call, erase_fits, get_status_call, read_call, read_fits, set_status_call, write_call,
    write_fits, FlashCall,
};
use crate::domain::types::report;
use crate::domain::{EraseRequest, FlashOperation, OobMode, Progress, ReadRequest, WriteRequest};
use crate::error::{Error, Result};
use crate::infrastructure::flash_protocol::commands::{MW_OP_EWEN, MW_OP_READ, MW_OP_WRITE};
use crate::infrastructure::programmer::ch341a::protocol::pins;
use crate::infrastructure::programmer::frames::{concat, lemma_added_trans, lemma_concat_push};
use crate::infrastructure::programmer::traits::{added, extends, faulted, BusOp, Programmer};

use vstd::arithmetic::power2::{lemma2_to64, pow2};

verus! {

/// Status polls of the ready line before giving up.
pub const MW_READY_POLLS: u32 = 1000;

/// Address bits of a device of `capacity` bytes.
pub open spec fn mw_address_bits(capacity: u32) -> u8 {
    if capacity == 32 || capacity == 128 {
        7  // 93C06, 93C46

    } else if capacity == 1024 || capacity == 2048 {
        11  // 93C76, 93C86

    } else {
        9  // 93C56, 93C66, and the default

    }
}

/// The address width fits each 93Cx6 device in its 8-bit organisation:
/// every byte address below the capacity has a code of that many bits, and
/// no more than two spare bits are sent. The larger device of each pair
/// (93C46, 93C66, 93C86) needs all of its bits; the smaller one (93C06,
/// 93C56, 93C76) is addressed like its larger sibling.
pub proof fn lemma_mw_address_bits_fit(capacity: u32)
    requires
        capacity == 32 || capacity == 128 || capacity == 256 || capacity == 512 || capacity == 1024
            || capacity == 2048,
    ensures
        capacity <= pow2(mw_address_bits(capacity) as nat) <= 4 * capacity,
        capacity == 128 || capacity == 512 || capacity == 2048 ==> pow2(
            mw_address_bits(capacity) as nat,
        ) == capacity,
        capacity == 32 ==> mw_address_bits(capacity) == mw_address_bits(128),
        capacity == 256 || capacity == 1024 ==> mw_address_bits(capacity) == mw_address_bits(
            (2 * capacity) as u32,
        ),
{
    lemma2_to64();
}

/// Chip select driven high.
pub open spec fn mw_cs_high() -> BusOp {
    BusOp::GpioSet { pin: pins::CS, level: true }
}

/// The ready/data line sampled at `level`.
pub open spec fn mw_din(level: bool) -> BusOp {
    BusOp::GpioGet { pin: pins::DIN, level }
}

/// A clock pulse.
pub open spec fn mw_pulse() -> Seq<BusOp> {
    seq![BusOp::GpioSet { pin: pins::CLK, level: true }, BusOp::GpioSet { pin: pins::CLK, level: false }]
}

/// One bit sent: data out driven, then a clock pulse.
pub open spec fn mw_bit(bit: bool) -> Seq<BusOp> {
    seq![BusOp::GpioSet { pin: pins::DOUT, level: bit }] + mw_pulse()
}

/// One bit received: clock high, data in sampled, clock low.
pub open spec fn mw_sample(bit: bool) -> Seq<BusOp> {
    seq![
        BusOp::GpioSet { pin: pins::CLK, level: true },
        BusOp::GpioGet { pin: pins::DIN, level: bit },
        BusOp::GpioSet { pin: pins::CLK, level: false },
    ]
}

/// Bit `i` of `value`.
pub open spec fn bit_of(value: u32, i: nat) -> bool {
    (value >> (i as u32)) & 1u32 != 0
}

/// The low `count` bits of `value` sent, most significant first.
pub open spec fn mw_bits(value: u32, count: nat) -> Seq<BusOp>
    decreases count,
{
    if count == 0 {
        Seq::empty()
    } else {
        mw_bit(bit_of(value, (count - 1) as nat)) + mw_bits(value, (count - 1) as nat)
    }
}

/// Bits go out most significant first: the `j`-th bit sent by
/// `mw_bits(value, count)` drives DOUT to bit `count - 1 - j` of `value`,
/// then pulses the clock high and low.
pub proof fn lemma_mw_bits_msb_first(value: u32, count: nat, j: int)
    requires
        0 <= j,
        j < count,
        count <= 32,
    ensures
        mw_bits(value, count).len() == 3 * count,
        mw_bits(value, count)[3 * j] == (BusOp::GpioSet {
            pin: pins::DOUT,
            level: (value >> ((count - 1 - j) as u32)) & 1u32 == 1u32,
        }),
        mw_bits(value, count)[3 * j + 1] == (BusOp::GpioSet { pin: pins::CLK, level: true }),
        mw_bits(value, count)[3 * j + 2] == (BusOp::GpioSet { pin: pins::CLK, level: false }),
    decreases count,
{
    lemma_mw_bits_len(value, count);
    let rest = mw_bits(value, (count - 1) as nat);
    let first = mw_bit(bit_of(value, (count - 1) as nat));
    assert(mw_bits(value, count) == first + rest);
    if j == 0 {
        let sh = (count - 1) as u32;
        assert(((value >> sh) & 1u32 != 0) == ((value >> sh) & 1u32 == 1u32)) by (bit_vector);
    } else {
        lemma_mw_bits_msb_first(value, (count - 1) as nat, j - 1);
        assert(mw_bits(value, count)[3 * j] == rest[3 * (j - 1)]);
        assert(mw_bits(value, count)[3 * j + 1] == rest[3 * (j - 1) + 1]);
        assert(mw_bits(value, count)[3 * j + 2] == rest[3 * (j - 1) + 2]);
    }
}

/// A transaction header sends the start bit 1, the two opcode bits (READ
/// 1,0; WRITE 0,1; write enable/disable 0,0), then the `abits` address
/// bits, most significant first: bit `abits - 1 - j` of `addr` is the `j`-th.
pub proof fn lemma_mw_header_bits(opcode: u8, abits: u8, addr: u32, j: int)
    requires
        0 <= j,
        j < abits,
        abits <= 30,
    ensures
        mw_header(opcode, abits, addr).len() == 10 + 3 * abits,
        mw_header(opcode, abits, addr)[1] == (BusOp::GpioSet { pin: pins::DOUT, level: true }),
        mw_header(opcode, abits, addr)[4] == (BusOp::GpioSet {
            pin: pins::DOUT,
            level: (opcode as u32 >> 1u32) & 1u32 == 1u32,
        }),
        mw_header(opcode, abits, addr)[7] == (BusOp::GpioSet {
            pin: pins::DOUT,
            level: opcode as u32 & 1u32 == 1u32,
        }),
        mw_header(opcode, abits, addr)[10 + 3 * j] == (BusOp::GpioSet {
            pin: pins::DOUT,
            level: (addr >> ((abits - 1 - j) as u32)) & 1u32 == 1u32,
        }),
        (MW_OP_READ as u32 >> 1u32) & 1u32 == 1u32 && MW_OP_READ as u32 & 1u32 == 0u32,
        (MW_OP_WRITE as u32 >> 1u32) & 1u32 == 0u32 && MW_OP_WRITE as u32 & 1u32 == 1u32,
        (MW_OP_EWEN as u32 >> 1u32) & 1u32 == 0u32 && MW_OP_EWEN as u32 & 1u32 == 0u32,
{
    let st = mw_start();
    let ob = mw_bits(opcode as u32, 2);
    let ab = mw_bits(addr, abits as nat);
    lemma_mw_bits_msb_first(opcode as u32, 2, 0);
    lemma_mw_bits_msb_first(opcode as u32, 2, 1);
    lemma_mw_bits_msb_first(addr, abits as nat, j);
    assert(st.len() == 4);
    assert(mw_header(opcode, abits, addr) == st + ob + ab);
    assert((st + ob + ab)[1] == st[1]);
    assert((st + ob + ab)[4] == ob[0]);
    assert((st + ob + ab)[7] == ob[3]);
    assert((st + ob + ab)[10 + 3 * j] == ab[3 * j]);
    let o = opcode as u32;
    assert((o >> 0u32) & 1u32 == o & 1u32) by (bit_vector);
    assert((6u32 >> 1u32) & 1u32 == 1u32 && 6u32 & 1u32 == 0u32) by (bit_vector);
    assert((5u32 >> 1u32) & 1u32 == 0u32 && 5u32 & 1u32 == 1u32) by (bit_vector);
    assert((4u32 >> 1u32) & 1u32 == 0u32 && 4u32 & 1u32 == 0u32) by (bit_vector);
}

/// `ops` is an attempt to send `bits` that failed: it follows `bits` up to
/// some point before their end, then stops there (the programmer refused
/// the next step) or ends with a fault.
pub open spec fn cut_short(ops: Seq<BusOp>, bits: Seq<BusOp>) -> bool {
    exists|k: int|
        0 <= k < bits.len() && k <= ops.len() && #[trigger] ops.take(k) == bits.take(k) && (ops.len()
            == k || ops.last() == BusOp::Fault)
}

/// A first step that failed (nothing recorded, or a fault) cuts short any
/// attempt.
proof fn lemma_cut_short_start(ops: Seq<BusOp>, bits: Seq<BusOp>)
    requires
        bits.len() > 0,
        ops.len() == 0 || ops.last() == BusOp::Fault,
    ensures
        cut_short(ops, bits),
{
    assert(ops.take(0) =~= bits.take(0));
}

/// An attempt cut short within `x` is cut short within `x + y`.
proof fn lemma_cut_short_extend(ops: Seq<BusOp>, x: Seq<BusOp>, y: Seq<BusOp>)
    requires
        cut_short(ops, x),
    ensures
        cut_short(ops, x + y),
{
    let k = choose|k: int|
        0 <= k < x.len() && k <= ops.len() && #[trigger] ops.take(k) == x.take(k) && (ops.len() == k
            || ops.last() == BusOp::Fault);
    assert((x + y).take(k) =~= x.take(k));
    assert(ops.take(k) == (x + y).take(k));
}

/// What went out exactly before an attempt cut short is part of it.
proof fn lemma_cut_short_after(p: Seq<BusOp>, ops: Seq<BusOp>, x: Seq<BusOp>)
    requires
        cut_short(ops, x),
    ensures
        cut_short(p + ops, p + x),
{
    let k = choose|k: int|
        0 <= k < x.len() && k <= ops.len() && #[trigger] ops.take(k) == x.take(k) && (ops.len() == k
            || ops.last() == BusOp::Fault);
    let k2 = p.len() + k;
    assert((p + ops).take(k2) =~= p + ops.take(k));
    assert((p + x).take(k2) =~= p + x.take(k));
    assert((p + ops).take(k2) == (p + x).take(k2));
    if ops.len() > k {
        assert((p + ops).last() == ops.last());
    }
}

/// The bits of `bits` received, in order.
pub open spec fn mw_samples(bits: Seq<bool>) -> Seq<BusOp>
    decreases bits.len(),
{
    if bits.len() == 0 {
        Seq::empty()
    } else {
        mw_samples(bits.drop_last()) + mw_sample(bits.last())
    }
}

/// The number that `bits` spell, most significant first.
pub open spec fn bits_value(bits: Seq<bool>) -> nat
    decreases bits.len(),
{
    if bits.len() == 0 {
        0
    } else {
        2 * bits_value(bits.drop_last()) + if bits.last() {
            1nat
        } else {
            0nat
        }
    }
}

/// `ops` received `count` bits that spell `value`.
pub open spec fn mw_received(ops: Seq<BusOp>, count: nat, value: nat) -> bool {
    exists|bits: Seq<bool>|
        bits.len() == count && value == bits_value(bits) && ops == #[trigger] mw_samples(bits)
}

/// Start of a transaction: chip select high, start bit.
pub open spec fn mw_start() -> Seq<BusOp> {
    seq![mw_cs_high()] + mw_bit(true)
}

/// End of a transaction: chip select low, data out low.
pub open spec fn mw_stop() -> Seq<BusOp> {
    seq![BusOp::GpioSet { pin: pins::CS, level: false }, BusOp::GpioSet { pin: pins::DOUT, level: false }]
}

/// The header of a transaction: start, 2 opcode bits, `abits` address bits.
pub open spec fn mw_header(opcode: u8, abits: u8, addr: u32) -> Seq<BusOp> {
    mw_start() + mw_bits(opcode as u32, 2) + mw_bits(addr, abits as nat)
}

/// `seg` reads `byte` at `addr`.
pub open spec fn mw_read_segment(seg: Seq<BusOp>, abits: u8, addr: u32, byte: u8) -> bool {
    let h = mw_header(MW_OP_READ, abits, addr);
    &&& seg.len() == h.len() + 24 + 2
    &&& seg.take(h.len() as int) == h
    &&& mw_received(seg.subrange(h.len() as int, h.len() + 24int), 8, byte as nat)
    &&& seg.skip(seg.len() - 2) == mw_stop()
}

/// `ops` reads `data` from the bytes at `address`, one transaction per byte.
pub open spec fn mw_read_traffic(
    ops: Seq<BusOp>,
    abits: u8,
    address: u32,
    data: Seq<u8>,
    segs: Seq<Seq<BusOp>>,
) -> bool {
    &&& ops == concat(segs)
    &&& segs.len() == data.len()
    &&& forall|j: int|
        0 <= j < segs.len() ==> mw_read_segment(
            #[trigger] segs[j],
            abits,
            (address + j) as u32,
            data[j],
        )
}

/// `ops` reads `data` from the bytes at `address`.
pub open spec fn mw_read_result(ops: Seq<BusOp>, abits: u8, address: u32, data: Seq<u8>) -> bool {
    exists|segs: Seq<Seq<BusOp>>| #[trigger] mw_read_traffic(ops, abits, address, data, segs)
}

/// `ops` waits for the chip: chip select high, the ready line sampled low
/// until it is sampled high, then the end of the transaction.
pub open spec fn mw_wait(ops: Seq<BusOp>) -> bool {
    &&& ops.len() >= 4
    &&& ops[0] == mw_cs_high()
    &&& forall|i: int|
        1 <= i < ops.len() - 3 ==> #[trigger] ops[i] == mw_din(false)
    &&& ops[ops.len() - 3] == mw_din(true)
    &&& ops.skip(ops.len() - 2) == mw_stop()
}

/// `ops` ends with a wait that gave up: chip select high, the ready line
/// sampled low `MW_READY_POLLS` times, then the end of the transaction.
pub open spec fn mw_timed_out(ops: Seq<BusOp>) -> bool {
    let n = MW_READY_POLLS + 3;
    &&& ops.len() >= n
    &&& ops[ops.len() - n] == mw_cs_high()
    &&& forall|i: int| ops.len() - n < i < ops.len() - 2 ==> #[trigger] ops[i] == mw_din(false)
    &&& ops.skip(ops.len() - 2) == mw_stop()
}

/// A wait that gave up at the end of the second of two steps gave up at the
/// end of both.
#[verifier::spinoff_prover]
proof fn lemma_mw_timed_out_suffix(a: Seq<BusOp>, b: Seq<BusOp>, c: Seq<BusOp>)
    requires
        extends(a, b),
        extends(b, c),
        mw_timed_out(added(b, c)),
    ensures
        mw_timed_out(added(a, c)),
{
    lemma_added_trans(a, b, c);
    let x = added(a, c);
    let y = added(b, c);
    let d = x.len() - y.len();
    let n = MW_READY_POLLS + 3;
    assert(x =~= added(a, b) + y);
    assert(x.len() >= n);
    assert(x[x.len() - n] == y[y.len() - n]);
    assert forall|i: int| x.len() - n < i < x.len() - 2 implies #[trigger] x[i] == mw_din(false) by {
        assert(x[i] == y[i - d]);
    }
    assert(x.skip(x.len() - 2) =~= y.skip(y.len() - 2));
}

/// `seg` writes `byte` at `addr` and waits for the write cycle.
pub open spec fn mw_write_segment(seg: Seq<BusOp>, abits: u8, addr: u32, byte: u8) -> bool {
    let w = mw_header(MW_OP_WRITE, abits, addr) + mw_bits(byte as u32, 8) + mw_stop();
    &&& seg.len() >= w.len()
    &&& seg.take(w.len() as int) == w
    &&& mw_wait(seg.skip(w.len() as int))
}

/// The address bits sent by EWEN (`11` then zeros) or EWDS (all zeros).
pub open spec fn mw_enable_addr(abits: u8, enable: bool) -> u32 {
    if enable {
        3u32 << ((abits - 2) as u32)
    } else {
        0
    }
}

/// `ops` is a write enable (or disable) transaction: start, the two opcode
/// bits (or an attempt at them that failed, which is not reported), the
/// enable address bits, stop.
pub open spec fn mw_enable_traffic(ops: Seq<BusOp>, abits: u8, enable: bool) -> bool {
    let tail = mw_bits(mw_enable_addr(abits, enable), abits as nat) + mw_stop();
    let mid = ops.subrange(mw_start().len() as int, ops.len() - tail.len());
    let opcode = mw_bits(MW_OP_EWEN as u32, 2);
    &&& ops.len() >= mw_start().len() + tail.len()
    &&& ops.take(mw_start().len() as int) == mw_start()
    &&& (mid == opcode || cut_short(mid, opcode))
    &&& ops.skip(ops.len() - tail.len()) == tail
}

/// `ops` writes `data` at `address`: write enable, one write and wait per
/// byte, write disable.
pub open spec fn mw_write_traffic(
    ops: Seq<BusOp>,
    abits: u8,
    address: u32,
    data: Seq<u8>,
    a: int,
    b: int,
    segs: Seq<Seq<BusOp>>,
) -> bool {
    &&& 0 <= a <= b <= ops.len()
    &&& mw_enable_traffic(ops.take(a), abits, true)
    &&& ops.subrange(a, b) == concat(segs)
    &&& mw_enable_traffic(ops.skip(b), abits, false)
    &&& segs.len() == data.len()
    &&& forall|j: int|
        0 <= j < segs.len() ==> mw_write_segment(
            #[trigger] segs[j],
            abits,
            (address + j) as u32,
            data[j],
        )
}

/// `ops` writes `data` at `address`.
pub open spec fn mw_write_result(ops: Seq<BusOp>, abits: u8, address: u32, data: Seq<u8>) -> bool {
    exists|a: int, b: int, segs: Seq<Seq<BusOp>>|
        #[trigger] mw_write_traffic(ops, abits, address, data, a, b, segs)
}

/// Sending `count` bits takes three events per bit.
proof fn lemma_mw_bits_len(value: u32, count: nat)
    ensures
        mw_bits(value, count).len() == 3 * count,
    decreases count,
{
    if count > 0 {
        lemma_mw_bits_len(value, (count - 1) as nat);
    }
}

/// Receiving bits takes three events per bit.
proof fn lemma_mw_samples_len(bits: Seq<bool>)
    ensures
        mw_samples(bits).len() == 3 * bits.len(),
    decreases bits.len(),
{
    if bits.len() > 0 {
        lemma_mw_samples_len(bits.drop_last());
    }
}

/// Eight bits spell a byte.
proof fn lemma_bits_value_bound(bits: Seq<bool>)
    ensures
        bits.len() <= 8 ==> bits_value(bits) < 256,
        bits.len() <= 7 ==> bits_value(bits) < 128,
        bits.len() <= 6 ==> bits_value(bits) < 64,
        bits.len() <= 5 ==> bits_value(bits) < 32,
        bits.len() <= 4 ==> bits_value(bits) < 16,
        bits.len() <= 3 ==> bits_value(bits) < 8,
        bits.len() <= 2 ==> bits_value(bits) < 4,
        bits.len() <= 1 ==> bits_value(bits) < 2,
    decreases bits.len(),
{
    if bits.len() > 0 {
        lemma_bits_value_bound(bits.drop_last());
    }
}

/// Microwire EEPROM protocol handler
pub struct MicrowireEeprom<P: Programmer> {
    programmer: P,
    spec: ChipSpec,
    address_bits: u8,
    /// Bits per memory word; this implementation uses 8-bit organisation.
    word_size: u8,
    calls: Ghost<Seq<FlashCall>>,
    reports: Ghost<Seq<Progress>>,
}

impl<P: Programmer> MicrowireEeprom<P> {
    /// The programmer the chip is reached through.
    pub closed spec fn device(&self) -> P {
        self.programmer
    }

    /// The chip description.
    pub closed spec fn chip(&self) -> ChipSpec {
        self.spec
    }

    /// Address bits per transaction.
    pub closed spec fn abits(&self) -> u8 {
        self.address_bits
    }

    pub fn new(programmer: P, spec: ChipSpec) -> (r: Self)
        ensures
            r.device() == programmer,
            r.chip() == spec,
            r.calls() == Seq::<FlashCall>::empty(),
            r.abits() == mw_address_bits(spec.capacity.0),
            r.progress() == Seq::<Progress>::empty(),
    {
        // Determine address bits based on capacity
        let capacity = spec.capacity.as_bytes();
        let address_bits = match capacity {
            32 => 7,  // 93C06
            128 => 7,  // 93C46
            256 => 9,  // 93C56
            512 => 9,  // 93C66
            1024 => 11,  // 93C76
            2048 => 11,  // 93C86
            _ => 9,
        };

        Self {
            programmer,
            spec,
            address_bits,
            word_size: 8,
            calls: Ghost(Seq::empty()),
            reports: Ghost(Seq::empty()),
        }
    }

    /// Everything handed to the progress callbacks of the operations so far,
    /// oldest first.
    pub closed spec fn progress(&self) -> Seq<Progress> {
        self.reports@
    }

    /// Gives back the programmer the chip was reached through.
    pub fn into_device(self) -> (p: P)
        ensures
            p == self.device(),
    {
        self.programmer
    }

    /// Pulse clock line
    fn pulse_clk(&mut self) -> (r: Result<()>)
        requires
            old(self).programmer.wf(),
        ensures
            final(self).programmer.wf(),
            final(self).spec == old(self).spec,
            final(self).address_bits == old(self).address_bits,
            extends(old(self).programmer.log(), final(self).programmer.log()),
            r is Ok ==> added(old(self).programmer.log(), final(self).programmer.log())
                == mw_pulse(),
            r is Err ==> faulted(old(self).programmer.log(), final(self).programmer.log()) || (r matches Err(Error::NotSupported(_)) && !P::has_gpio()),
            r is Err ==> cut_short(
                added(old(self).programmer.log(), final(self).programmer.log()),
                mw_pulse(),
            ),
    {
        let ghost l0 = self.programmer.log();
        let r1 = self.programmer.gpio_set(pins::CLK, true);
        if r1.is_err() {
            proof {
                lemma_cut_short_start(added(l0, self.programmer.log()), mw_pulse());
            }
            return r1;
        }
        let ghost l1 = self.programmer.log();
        let r = self.programmer.gpio_set(pins::CLK, false);
        assert(added(l0, self.programmer.log()) =~= mw_pulse() || r is Err);
        proof {
            if r is Err {
                let le = self.programmer.log();
                let first = seq![BusOp::GpioSet { pin: pins::CLK, level: true }];
                assert(le.subrange(0, l1.len() as int) =~= l1);
                lemma_cut_short_start(added(l1, le), seq![BusOp::GpioSet { pin: pins::CLK, level: false }]);
                lemma_cut_short_after(first, added(l1, le), seq![BusOp::GpioSet { pin: pins::CLK, level: false }]);
                assert(added(l0, l1) =~= first);
                lemma_added_trans(l0, l1, le);
                assert(mw_pulse() =~= first + seq![BusOp::GpioSet { pin: pins::CLK, level: false }]);
            }
        }
        r
    }

    /// Send a single bit
    fn send_bit(&mut self, bit: bool) -> (r: Result<()>)
        requires
            old(self).programmer.wf(),
        ensures
            final(self).programmer.wf(),
            final(self).spec == old(self).spec,
            final(self).address_bits == old(self).address_bits,
            extends(old(self).programmer.log(), final(self).programmer.log()),
            r is Ok ==> added(old(self).programmer.log(), final(self).programmer.log()) == mw_bit(
                bit,
            ),
            r is Err ==> faulted(old(self).programmer.log(), final(self).programmer.log()) || (r matches Err(Error::NotSupported(_)) && !P::has_gpio()),
            r is Err ==> cut_short(
                added(old(self).programmer.log(), final(self).programmer.log()),
                mw_bit(bit),
            ),
    {
        let ghost l0 = self.programmer.log();
        let r1 = self.programmer.gpio_set(pins::DOUT, bit);
        if r1.is_err() {
            proof {
                lemma_cut_short_start(added(l0, self.programmer.log()), mw_bit(bit));
            }
            return r1;
        }
        let ghost l1 = self.programmer.log();
        let r = self.pulse_clk();
        proof {
            assert(self.programmer.log().subrange(0, l1.len() as int) =~= l1);
            assert(self.programmer.log().subrange(0, l0.len() as int) =~= l0);
            if r is Err {
                let le = self.programmer.log();
                let first = seq![BusOp::GpioSet { pin: pins::DOUT, level: bit }];
                assert(added(l0, l1) =~= first);
                lemma_cut_short_after(first, added(l1, le), mw_pulse());
                lemma_added_trans(l0, l1, le);
            }
            if r is Ok {
                let le = self.programmer.log();
                assert(added(l0, le) =~= added(l0, l1) + added(l1, le));
                assert(added(l0, l1) =~= seq![BusOp::GpioSet { pin: pins::DOUT, level: bit }]);
                assert(added(l0, le) =~= mw_bit(bit));
            }
        }
        r
    }

    /// Read a single bit
    fn read_bit(&mut self) -> (r: Result<bool>)
        requires
            old(self).programmer.wf(),
        ensures
            final(self).programmer.wf(),
            final(self).spec == old(self).spec,
            final(self).address_bits == old(self).address_bits,
            extends(old(self).programmer.log(), final(self).programmer.log()),
            r is Ok ==> added(old(self).programmer.log(), final(self).programmer.log())
                == mw_sample(r->Ok_0),
            r is Err ==> faulted(old(self).programmer.log(), final(self).programmer.log()) || (r matches Err(Error::NotSupported(_)) && !P::has_gpio()),
    {
        let ghost l0 = self.programmer.log();
        self.programmer.gpio_set(pins::CLK, true)?;
        let bit = self.programmer.gpio_get(pins::DIN)?;
        self.programmer.gpio_set(pins::CLK, false)?;
        assert(added(l0, self.programmer.log()) =~= mw_sample(bit));
        Ok(bit)
    }

    /// Send the low `count` bits of `value` (MSB first)
    fn send_bits(&mut self, value: u32, count: u8) -> (r: Result<()>)
        requires
            old(self).programmer.wf(),
            count <= 32,
        ensures
            final(self).programmer.wf(),
            final(self).spec == old(self).spec,
            final(self).address_bits == old(self).address_bits,
            extends(old(self).programmer.log(), final(self).programmer.log()),
            r is Ok ==> added(old(self).programmer.log(), final(self).programmer.log()) == mw_bits(
                value,
                count as nat,
            ),
            r is Err ==> faulted(old(self).programmer.log(), final(self).programmer.log()) || (r matches Err(Error::NotSupported(_)) && !P::has_gpio()),
            r is Err ==> cut_short(
                added(old(self).programmer.log(), final(self).programmer.log()),
                mw_bits(value, count as nat),
            ),
    {
        let ghost l0 = self.programmer.log();
        let mut i: u8 = count;
        assert(Seq::<BusOp>::empty() + mw_bits(value, count as nat) =~= mw_bits(value, count as nat));
        while i > 0
            invariant
                self.programmer.wf(),
                self.spec == old(self).spec,
                self.address_bits == old(self).address_bits,
                l0 == old(self).programmer.log(),
                extends(l0, self.programmer.log()),
                i <= count <= 32,
                added(l0, self.programmer.log()) + mw_bits(value, i as nat) == mw_bits(
                    value,
                    count as nat,
                ),
            decreases i,
        {
            let ghost lb = self.programmer.log();
            let bit = (value >> (i - 1)) & 1 != 0;
            let rb = self.send_bit(bit);
            proof {
                assert(mw_bits(value, i as nat) == mw_bit(bit) + mw_bits(value, (i - 1) as nat));
                if rb is Err {
                    let le = self.programmer.log();
                    assert(le.subrange(0, l0.len() as int) =~= l0);
                    assert(added(l0, le) =~= added(l0, lb) + added(lb, le));
                    lemma_cut_short_extend(added(lb, le), mw_bit(bit), mw_bits(value, (i - 1) as nat));
                    lemma_cut_short_after(added(l0, lb), added(lb, le), mw_bits(value, i as nat));
                }
            }
            if rb.is_err() {
                return rb;
            }
            proof {
                let le = self.programmer.log();
                assert(le.subrange(0, l0.len() as int) =~= l0);
                assert(added(l0, le) =~= added(l0, lb) + added(lb, le));
                assert(mw_bits(value, i as nat) == mw_bit(bit) + mw_bits(value, (i - 1) as nat));
                assert(added(l0, le) + mw_bits(value, (i - 1) as nat) =~= added(l0, lb) + mw_bits(
                    value,
                    i as nat,
                ));
            }
            i = i - 1;
        }
        assert(added(l0, self.programmer.log()) + mw_bits(value, 0) =~= added(
            l0,
            self.programmer.log(),
        ));
        Ok(())
    }

    /// Read `count` bits (MSB first)
    fn read_bits(&mut self, count: u8) -> (r: Result<u32>)
        requires
            old(self).programmer.wf(),
            count <= 8,
        ensures
            final(self).programmer.wf(),
            final(self).spec == old(self).spec,
            final(self).address_bits == old(self).address_bits,
            extends(old(self).programmer.log(), final(self).programmer.log()),
            r is Ok ==> mw_received(
                added(old(self).programmer.log(), final(self).programmer.log()),
                count as nat,
                r->Ok_0 as nat,
            ),
            r is Err ==> faulted(old(self).programmer.log(), final(self).programmer.log()) || (r matches Err(Error::NotSupported(_)) && !P::has_gpio()),
    {
        let ghost l0 = self.programmer.log();
        let ghost mut bits: Seq<bool> = Seq::empty();
        let mut value: u32 = 0;
        let mut k: u8 = 0;
        assert(added(l0, l0) =~= mw_samples(bits));
        while k < count
            invariant
                self.programmer.wf(),
                self.spec == old(self).spec,
                self.address_bits == old(self).address_bits,
                l0 == old(self).programmer.log(),
                extends(l0, self.programmer.log()),
                k <= count <= 8,
                bits.len() == k,
                added(l0, self.programmer.log()) == mw_samples(bits),
                value == bits_value(bits),
            decreases count - k,
        {
            let ghost lb = self.programmer.log();
            let bit = self.read_bit()?;
            proof {
                lemma_bits_value_bound(bits);
                let le = self.programmer.log();
                assert(le.subrange(0, l0.len() as int) =~= l0);
                assert(added(l0, le) =~= added(l0, lb) + added(lb, le));
                assert(bits.push(bit).drop_last() =~= bits);
            }
            let b: u32 = if bit {
                1
            } else {
                0
            };
            assert((value << 1u32) | b == 2 * value + b) by (bit_vector)
                requires
                    value < 256,
                    b <= 1,
            ;
            value = (value << 1) | b;
            proof {
                bits = bits.push(bit);
            }
            k = k + 1;
        }
        Ok(value)
    }

    /// Start a transaction: chip select high, then the start bit (1).
    fn start(&mut self) -> (r: Result<()>)
        requires
            old(self).programmer.wf(),
        ensures
            final(self).programmer.wf(),
            final(self).spec == old(self).spec,
            final(self).address_bits == old(self).address_bits,
            extends(old(self).programmer.log(), final(self).programmer.log()),
            r is Ok ==> added(old(self).programmer.log(), final(self).programmer.log())
                == mw_start(),
            r is Err ==> faulted(old(self).programmer.log(), final(self).programmer.log()) || (r matches Err(Error::NotSupported(_)) && !P::has_gpio()),
    {
        let ghost l0 = self.programmer.log();
        self.programmer.gpio_set(pins::CS, true)?;
        let ghost l1 = self.programmer.log();
        let r = self.send_bit(true);
        proof {
            let le = self.programmer.log();
            assert(le.subrange(0, l0.len() as int) =~= l0);
            assert(added(l0, le) =~= added(l0, l1) + added(l1, le));
        }
        r
    }

    /// End a transaction: chip select low, data out low.
    fn stop(&mut self) -> (r: Result<()>)
        requires
            old(self).programmer.wf(),
        ensures
            final(self).programmer.wf(),
            final(self).spec == old(self).spec,
            final(self).address_bits == old(self).address_bits,
            extends(old(self).programmer.log(), final(self).programmer.log()),
            r is Ok ==> added(old(self).programmer.log(), final(self).programmer.log())
                == mw_stop(),
            r is Err ==> faulted(old(self).programmer.log(), final(self).programmer.log()) || (r matches Err(Error::NotSupported(_)) && !P::has_gpio()),
    {
        let ghost l0 = self.programmer.log();
        self.programmer.gpio_set(pins::CS, false)?;
        let r = self.programmer.gpio_set(pins::DOUT, false);
        assert(added(l0, self.programmer.log()) =~= mw_stop() || r is Err);
        r
    }

    /// Execute Write Enable (EWEN) or, with `enable` false, Write Disable
    /// (EWDS). A failure while sending the opcode bits is not reported: the
    /// address bits and stop still follow.
    fn write_enable(&mut self, enable: bool) -> (r: Result<()>)
        requires
            old(self).programmer.wf(),
            7 <= old(self).address_bits <= 11,
        ensures
            final(self).programmer.wf(),
            final(self).spec == old(self).spec,
            final(self).address_bits == old(self).address_bits,
            extends(old(self).programmer.log(), final(self).programmer.log()),
            r is Ok ==> mw_enable_traffic(
                added(old(self).programmer.log(), final(self).programmer.log()),
                old(self).address_bits,
                enable,
            ),
            r is Err ==> faulted(old(self).programmer.log(), final(self).programmer.log()) || (r matches Err(Error::NotSupported(_)) && !P::has_gpio()),
    {
        let ghost l0 = self.programmer.log();
        self.start()?;
        let ghost l1 = self.programmer.log();
        let op = MW_OP_EWEN;  // EWEN, EWDS, ERAL, WRAL all start with 100b
        let sent = self.send_bits(op as u32, 2);  // Send the other 2 bits of opcode
        let ghost l2 = self.programmer.log();
        // A failure while sending the opcode bits is not reported
        let _ = sent;

        let addr = if enable {
            0b11u32 << (self.address_bits - 2)
        } else {
            0
        };
        self.send_bits(addr, self.address_bits)?;
        let ghost l3 = self.programmer.log();
        let r = self.stop();
        proof {
            let le = self.programmer.log();
            assert(le.subrange(0, l0.len() as int) =~= l0);
            assert(le.subrange(0, l1.len() as int) =~= l1);
            assert(le.subrange(0, l2.len() as int) =~= l2);
            assert(le.subrange(0, l3.len() as int) =~= l3);
            if r is Ok {
                let ops = added(l0, le);
                let tail = mw_bits(mw_enable_addr(self.address_bits, enable), self.address_bits as nat)
                    + mw_stop();
                assert(addr == mw_enable_addr(self.address_bits, enable));
                assert(ops.take(mw_start().len() as int) =~= added(l0, l1));
                assert(ops.skip(ops.len() - tail.len()) =~= added(l2, l3) + added(l3, le));
                assert(ops.subrange(mw_start().len() as int, ops.len() - tail.len()) =~= added(l1, l2));
                assert(op as u32 == MW_OP_EWEN as u32);
            }
        }
        r
    }

    /// Select the chip and sample the ready line until it reads high (at
    /// most `MW_READY_POLLS` times), then end the transaction.
    fn wait_ready(&mut self) -> (r: Result<()>)
        requires
            old(self).programmer.wf(),
        ensures
            final(self).programmer.wf(),
            final(self).spec == old(self).spec,
            final(self).address_bits == old(self).address_bits,
            extends(old(self).programmer.log(), final(self).programmer.log()),
            r is Ok ==> mw_wait(added(old(self).programmer.log(), final(self).programmer.log())),
            r is Err ==> faulted(old(self).programmer.log(), final(self).programmer.log()) || (r matches Err(Error::NotSupported(_)) && !P::has_gpio()) || (r matches Err(Error::Timeout) && mw_timed_out(
                added(old(self).programmer.log(), final(self).programmer.log()),
            )),
    {
        let ghost l0 = self.programmer.log();
        self.programmer.gpio_set(pins::CS, true)?;
        let mut ready = false;
        let mut polls: u32 = 0;
        while polls < MW_READY_POLLS
            invariant_except_break
                self.programmer.wf(),
                self.spec == old(self).spec,
                self.address_bits == old(self).address_bits,
                l0 == old(self).programmer.log(),
                extends(l0, self.programmer.log()),
                !ready,
                polls <= MW_READY_POLLS,
                added(l0, self.programmer.log()).len() == polls + 1,
                added(l0, self.programmer.log())[0] == mw_cs_high(),
                forall|i: int|
                    1 <= i < added(l0, self.programmer.log()).len() ==> #[trigger] added(
                        l0,
                        self.programmer.log(),
                    )[i] == mw_din(false),
            ensures
                self.programmer.wf(),
                self.spec == old(self).spec,
                self.address_bits == old(self).address_bits,
                extends(l0, self.programmer.log()),
                ready ==> {
                    let a = added(l0, self.programmer.log());
                    &&& a.len() >= 2
                    &&& a[0] == mw_cs_high()
                    &&& forall|i: int|
                        1 <= i < a.len() - 1 ==> #[trigger] a[i] == mw_din(false)
                    &&& a[a.len() - 1] == mw_din(true)
                },
                !ready ==> {
                    let a = added(l0, self.programmer.log());
                    &&& a.len() == MW_READY_POLLS + 1
                    &&& a[0] == mw_cs_high()
                    &&& forall|i: int| 1 <= i < a.len() ==> #[trigger] a[i] == mw_din(false)
                },
            decreases MW_READY_POLLS - polls,
        {
            let ghost lb = self.programmer.log();
            let level = self.programmer.gpio_get(pins::DIN)?;
            proof {
                let le = self.programmer.log();
                assert(le.subrange(0, l0.len() as int) =~= l0);
                assert forall|i: int| 0 <= i < added(l0, lb).len() implies added(l0, le)[i] == added(
                    l0,
                    lb,
                )[i] by {
                    assert(le[l0.len() + i] == lb[l0.len() + i]);
                }
            }
            if level {
                ready = true;
                break;
            }
            polls = polls + 1;
        }
        let ghost lr = self.programmer.log();
        self.stop()?;
        if !ready {
            proof {
                let le = self.programmer.log();
                assert(le.subrange(0, l0.len() as int) =~= l0);
                let a = added(l0, lr);
                let ops = added(l0, le);
                assert(ops =~= a + mw_stop());
                assert(ops.skip(ops.len() - 2) =~= mw_stop());
                assert forall|i: int| ops.len() - (MW_READY_POLLS + 3) < i < ops.len() - 2 implies #[trigger] ops[i] == mw_din(false) by {
                    assert(ops[i] == a[i]);
                }
            }
            return Err(Error::Timeout);
        }
        proof {
            let le = self.programmer.log();
            assert(le.subrange(0, l0.len() as int) =~= l0);
            let a = added(l0, lr);
            let ops = added(l0, le);
            assert(ops =~= a + mw_stop());
            assert(ops.skip(ops.len() - 2) =~= mw_stop());
            assert forall|i: int| 1 <= i < ops.len() - 3 implies #[trigger] ops[i] == mw_din(false) by {
                assert(ops[i] == a[i]);
            }
        }
        Ok(())
    }

    /// Read one byte at `addr`: start, READ opcode, address, 8 data bits, stop.
    #[verifier::spinoff_prover]
    fn read_byte(&mut self, addr: u32) -> (r: Result<u8>)
        requires
            old(self).programmer.wf(),
            7 <= old(self).address_bits <= 11,
        ensures
            final(self).programmer.wf(),
            final(self).spec == old(self).spec,
            final(self).address_bits == old(self).address_bits,
            extends(old(self).programmer.log(), final(self).programmer.log()),
            r is Ok ==> mw_read_segment(
                added(old(self).programmer.log(), final(self).programmer.log()),
                old(self).address_bits,
                addr,
                r->Ok_0,
            ),
            r is Err ==> faulted(old(self).programmer.log(), final(self).programmer.log()) || (r matches Err(Error::NotSupported(_)) && !P::has_gpio()),
    {
        let ghost l0 = self.programmer.log();
        self.start()?;
        let ghost l1 = self.programmer.log();
        self.send_bits(MW_OP_READ as u32, 2)?;
        let ghost l2 = self.programmer.log();
        self.send_bits(addr, self.address_bits)?;
        let ghost l3 = self.programmer.log();
        let value = self.read_bits(8)?;
        let ghost l4 = self.programmer.log();
        self.stop()?;
        proof {
            let le = self.programmer.log();
            let bits = choose|bits: Seq<bool>|
                bits.len() == 8 && value == bits_value(bits) && added(l3, l4) == #[trigger] mw_samples(bits);
            lemma_bits_value_bound(bits);
            lemma_mw_samples_len(bits);
            lemma_mw_bits_len(MW_OP_READ as u32, 2);
            lemma_mw_bits_len(addr, self.address_bits as nat);
            assert(le.subrange(0, l0.len() as int) =~= l0);
            assert(le.subrange(0, l1.len() as int) =~= l1);
            assert(le.subrange(0, l2.len() as int) =~= l2);
            assert(le.subrange(0, l3.len() as int) =~= l3);
            assert(le.subrange(0, l4.len() as int) =~= l4);
            let seg = added(l0, le);
            let h = mw_header(MW_OP_READ, self.address_bits, addr);
            assert(added(l0, l3) =~= added(l0, l1) + added(l1, l2) + added(l2, l3));
            assert(seg.take(h.len() as int) =~= h);
            assert(seg.subrange(h.len() as int, h.len() + 24int) =~= added(l3, l4));
            assert(added(l4, le) == mw_stop());
            assert(mw_stop().len() == 2);
            assert(le.len() == l4.len() + 2);
            assert(seg.len() == added(l0, l4).len() + 2);
            assert(seg.skip(seg.len() - 2) =~= added(l4, le));
            assert((value as u8) as nat == value as nat);
        }
        Ok(value as u8)
    }

    /// Write one byte at `addr`: start, WRITE opcode, address, 8 data bits,
    /// stop, then wait for the write cycle.
    fn write_byte(&mut self, addr: u32, byte: u8) -> (r: Result<()>)
        requires
            old(self).programmer.wf(),
            7 <= old(self).address_bits <= 11,
        ensures
            final(self).programmer.wf(),
            final(self).spec == old(self).spec,
            final(self).address_bits == old(self).address_bits,
            extends(old(self).programmer.log(), final(self).programmer.log()),
            r is Ok ==> mw_write_segment(
                added(old(self).programmer.log(), final(self).programmer.log()),
                old(self).address_bits,
                addr,
                byte,
            ),
            r is Err ==> faulted(old(self).programmer.log(), final(self).programmer.log()) || (r matches Err(Error::NotSupported(_)) && !P::has_gpio()) || (r matches Err(Error::Timeout) && mw_timed_out(
                added(old(self).programmer.log(), final(self).programmer.log()),
            )),
    {
        let ghost l0 = self.programmer.log();
        self.start()?;
        let ghost l1 = self.programmer.log();
        self.send_bits(MW_OP_WRITE as u32, 2)?;
        let ghost l2 = self.programmer.log();
        self.send_bits(addr, self.address_bits)?;
        let ghost l3 = self.programmer.log();
        self.send_bits(byte as u32, 8)?;
        let ghost l4 = self.programmer.log();
        self.stop()?;
        let ghost l5 = self.programmer.log();

        // Wait for internal write cycle
        let w = self.wait_ready();
        proof {
            if w is Err && !faulted(l5, self.programmer.log()) && !(w matches Err(Error::NotSupported(_)) && !P::has_gpio()) {
                assert(l5.subrange(0, l0.len() as int) =~= l0);
                lemma_mw_timed_out_suffix(l0, l5, self.programmer.log());
            }
        }
        w?;
        proof {
            let le = self.programmer.log();
            assert(le.subrange(0, l0.len() as int) =~= l0);
            assert(le.subrange(0, l1.len() as int) =~= l1);
            assert(le.subrange(0, l2.len() as int) =~= l2);
            assert(le.subrange(0, l3.len() as int) =~= l3);
            assert(le.subrange(0, l4.len() as int) =~= l4);
            assert(le.subrange(0, l5.len() as int) =~= l5);
            let seg = added(l0, le);
            let w = mw_header(MW_OP_WRITE, self.address_bits, addr) + mw_bits(byte as u32, 8)
                + mw_stop();
            assert(added(l0, l5) =~= added(l0, l1) + added(l1, l2) + added(l2, l3) + added(l3, l4)
                + added(l4, l5));
            assert(seg.take(w.len() as int) =~= w);
            assert(seg.skip(w.len() as int) =~= added(l5, le));
        }
        Ok(())
    }
}

/// Reports at every `every`-th of the first `n` bytes, counting from the
/// first: `(i, total)` for each such byte `i`.
pub open spec fn sampled_reports(n: nat, every: nat, total: nat) -> Seq<Progress>
    decreases n,
{
    if n == 0 {
        Seq::empty()
    } else {
        let before = sampled_reports((n - 1) as nat, every, total);
        if (n - 1) % (every as int) == 0 {
            before.push(Progress { current: (n - 1) as u64, total: total as u64 })
        } else {
            before
        }
    }
}

/// The reports of a transfer of `total` bytes: every `every`-th byte, then
/// the whole.
pub open spec fn mw_reports(total: nat, every: nat) -> Seq<Progress> {
    sampled_reports(total, every, total).push(Progress { current: total as u64, total: total as u64 })
}

/// What the Microwire protocol keeps: an address width it supports.
pub open spec fn mw_abits_ok(abits: u8) -> bool {
    7 <= abits <= 11
}

impl<P: Programmer> MicrowireEeprom<P> {
    #[verifier::spinoff_prover]
    fn read_op<F: Fn(Progress)>(
        &mut self,
        request: ReadRequest,
        on_progress: &F,
        reports: &mut Ghost<Seq<Progress>>,
    ) -> (r: Result<Vec<u8>>)
        requires
            old(self).inv(),
            read_fits(request),
            forall|p: Progress| #[trigger] on_progress.requires((p,)),
        ensures
            final(self).inv(),
            final(self).chip() == old(self).chip(),
            final(self).abits() == old(self).abits(),
            extends(old(self).device().log(), final(self).device().log()),
            r is Ok ==> r->Ok_0@.len() == request.length && mw_read_result(
                added(old(self).device().log(), final(self).device().log()),
                old(self).abits(),
                request.address.0,
                r->Ok_0@,
            ),
            r is Ok ==> final(reports)@ == old(reports)@ + mw_reports(request.length as nat, 16),
            r is Err ==> faulted(old(self).device().log(), final(self).device().log()) || (r matches Err(Error::NotSupported(_)) && !P::has_gpio()),
    {
        let address = request.address.as_u32();
        let length = request.length as usize;
        let mut data: Vec<u8> = Vec::new();
        let ghost r0 = reports@;
        let ghost l0 = self.programmer.log();
        let ghost mut segs: Seq<Seq<BusOp>> = Seq::empty();
        assert(added(l0, l0) =~= concat(segs));

        let mut i: usize = 0;
        while i < length
            invariant
                self.programmer.wf(),
                self.spec == old(self).spec,
                self.address_bits == old(self).address_bits,
                mw_abits_ok(self.address_bits),
                l0 == old(self).programmer.log(),
                extends(l0, self.programmer.log()),
                address == request.address.0,
                length == request.length,
                address + length <= u32::MAX,
                i <= length,
                data@.len() == i,
                reports@ == r0 + sampled_reports(i as nat, 16, length as nat),
                mw_read_traffic(added(l0, self.programmer.log()), self.address_bits, address, data@, segs),
                forall|p: Progress| #[trigger] on_progress.requires((p,)),
            decreases length - i,
        {
            let curr_addr = address + i as u32;
            let ghost lb = self.programmer.log();
            let byte = self.read_byte(curr_addr)?;
            proof {
                let le = self.programmer.log();
                assert(le.subrange(0, l0.len() as int) =~= l0);
                assert(added(l0, le) =~= added(l0, lb) + added(lb, le));
                lemma_concat_push(segs, added(lb, le));
                let old_segs = segs;
                segs = segs.push(added(lb, le));
                let d2 = data@.push(byte);
                assert forall|j: int| 0 <= j < segs.len() implies mw_read_segment(
                    #[trigger] segs[j],
                    self.address_bits,
                    (address + j) as u32,
                    d2[j],
                ) by {
                    if j < old_segs.len() {
                        assert(segs[j] == old_segs[j]);
                    }
                }
            }
            data.push(byte);

            if i % 16 == 0 {
                report(on_progress, Progress::new(i as u64, length as u64), reports);
            }
            assert(reports@ =~= r0 + sampled_reports((i + 1) as nat, 16, length as nat));
            i = i + 1;
        }

        report(on_progress, Progress::new(length as u64, length as u64), reports);
        assert(reports@ =~= r0 + mw_reports(length as nat, 16));
        Ok(data)
    }

    #[verifier::spinoff_prover]
    fn write_op<F: Fn(Progress)>(
        &mut self,
        request: WriteRequest,
        on_progress: &F,
        reports: &mut Ghost<Seq<Progress>>,
    ) -> (r: Result<()>)
        requires
            old(self).inv(),
            write_fits(request),
            forall|p: Progress| #[trigger] on_progress.requires((p,)),
        ensures
            final(self).inv(),
            final(self).chip() == old(self).chip(),
            final(self).abits() == old(self).abits(),
            extends(old(self).device().log(), final(self).device().log()),
            r is Ok ==> mw_write_result(
                added(old(self).device().log(), final(self).device().log()),
                old(self).abits(),
                request.address.0,
                request.data@,
            ),
            r is Ok ==> final(reports)@ == old(reports)@ + mw_reports(request.data@.len(), 4),
            r is Err ==> faulted(old(self).device().log(), final(self).device().log()) || (r matches Err(Error::NotSupported(_)) && !P::has_gpio()) || (r matches Err(Error::Timeout) && mw_timed_out(
                added(old(self).device().log(), final(self).device().log()),
            )),
    {
        let address = request.address.as_u32();
        let data = request.data;
        let ghost l0 = self.programmer.log();
        let ghost r0 = reports@;

        self.write_enable(true)?;
        let ghost l1 = self.programmer.log();
        let ghost mut segs: Seq<Seq<BusOp>> = Seq::empty();

        let mut i: usize = 0;
        while i < data.len()
            invariant
                self.programmer.wf(),
                self.spec == old(self).spec,
                self.address_bits == old(self).address_bits,
                mw_abits_ok(self.address_bits),
                l0 == old(self).programmer.log(),
                extends(l0, l1),
                extends(l1, self.programmer.log()),
                address == request.address.0,
                data@ == request.data@,
                address + data@.len() <= u32::MAX,
                i <= data@.len(),
                added(l1, self.programmer.log()) == concat(segs),
                segs.len() == i,
                reports@ == r0 + sampled_reports(i as nat, 4, data@.len()),
                forall|j: int|
                    0 <= j < i ==> mw_write_segment(
                        #[trigger] segs[j],
                        self.address_bits,
                        (address + j) as u32,
                        data@[j],
                    ),
                forall|p: Progress| #[trigger] on_progress.requires((p,)),
            decreases data@.len() - i,
        {
            let curr_addr = address + i as u32;
            let ghost lb = self.programmer.log();
            let w = self.write_byte(curr_addr, data[i]);
            proof {
                if w is Err && !faulted(lb, self.programmer.log()) && !(w matches Err(Error::NotSupported(_)) && !P::has_gpio()) {
                    lemma_added_trans(l0, l1, lb);
                    lemma_mw_timed_out_suffix(l0, lb, self.programmer.log());
                }
            }
            w?;
            proof {
                let le = self.programmer.log();
                assert(le.subrange(0, l1.len() as int) =~= l1);
                assert(added(l1, le) =~= added(l1, lb) + added(lb, le));
                lemma_concat_push(segs, added(lb, le));
                segs = segs.push(added(lb, le));
            }

            if i % 4 == 0 {
                report(on_progress, Progress::new(i as u64, data.len() as u64), reports);
            }
            assert(reports@ =~= r0 + sampled_reports((i + 1) as nat, 4, data@.len()));
            i = i + 1;
        }

        let ghost l2 = self.programmer.log();
        self.write_enable(false)?;
        proof {
            let le = self.programmer.log();
            assert(le.subrange(0, l0.len() as int) =~= l0);
            assert(l2.subrange(0, l0.len() as int) =~= l0);
            let ops = added(l0, le);
            let a = added(l0, l1).len() as int;
            let b = added(l0, l2).len() as int;
            assert(ops.take(a) =~= added(l0, l1));
            assert(ops.subrange(a, b) =~= added(l1, l2));
            assert(ops.skip(b) =~= added(l2, le));
            assert(mw_write_traffic(ops, self.address_bits, address, data@, a, b, segs));
        }
        report(on_progress, Progress::new(data.len() as u64, data.len() as u64), reports);
        assert(reports@ =~= r0 + mw_reports(data@.len(), 4));

        Ok(())
    }

    /// Writes 0xFF to every byte of the requested range.
    #[verifier::spinoff_prover]
    fn erase_op<F: Fn(Progress)>(&mut self, request: EraseRequest, on_progress: &F) -> (r: Result<()>)
        requires
            old(self).inv(),
            erase_fits(request),
            forall|p: Progress| #[trigger] on_progress.requires((p,)),
        ensures
            final(self).inv(),
            final(self).chip() == old(self).chip(),
            final(self).abits() == old(self).abits(),
            extends(old(self).device().log(), final(self).device().log()),
            r is Ok ==> mw_write_result(
                added(old(self).device().log(), final(self).device().log()),
                old(self).abits(),
                request.address.0,
                Seq::new(request.length as nat, |i: int| 0xFFu8),
            ),
            r is Ok ==> final(self).progress() == old(self).progress() + mw_reports(request.length as nat, 4),
            r is Err ==> faulted(old(self).device().log(), final(self).device().log()) || (r matches Err(Error::NotSupported(_)) && !P::has_gpio()) || (r matches Err(Error::Timeout) && mw_timed_out(
                added(old(self).device().log(), final(self).device().log()),
            )),
    {
        let fill_data: Vec<u8> = vec![0xFFu8; request.length as usize];
        let write_req = WriteRequest {
            address: request.address,
            data: fill_data.as_slice(),
            use_ecc: false,
            verify: false,
            ignore_ecc_errors: true,
            oob_mode: OobMode::Excluded,
            bad_block_strategy: BadBlockStrategy::Fail,
            bbt: None,
            retry_count: 0,
        };
        assert(fill_data@ =~= Seq::new(request.length as nat, |i: int| 0xFFu8));
        self.write(write_req, on_progress)
    }
}

impl<P: Programmer> FlashOperation for MicrowireEeprom<P> {
    open spec fn inv(&self) -> bool {
        self.device().wf() && mw_abits_ok(self.abits())
    }

    closed spec fn calls(&self) -> Seq<FlashCall> {
        self.calls@
    }

    /// This chip kind has no status register to read: `NotSupported`.
    fn get_status(&mut self) -> (r: Result<Vec<u8>>)
        ensures
            r matches Err(Error::NotSupported(_)),
            final(self).device() == old(self).device(),
            final(self).chip() == old(self).chip(),
    {
        let r = Err(Error::NotSupported("status registers are not available for this chip".to_string()));
        self.calls = Ghost(self.calls@.push(get_status_call(r)));
        r
    }

    /// This chip kind has no status register to write: `NotSupported`.
    fn set_status(&mut self, status: &[u8]) -> (r: Result<()>)
        ensures
            r matches Err(Error::NotSupported(_)),
            final(self).device() == old(self).device(),
            final(self).chip() == old(self).chip(),
    {
        let r = Err(Error::NotSupported("status registers are not available for this chip".to_string()));
        self.calls = Ghost(self.calls@.push(set_status_call(status@, r)));
        r
    }

    fn read<F: Fn(Progress)>(&mut self, request: ReadRequest, on_progress: &F) -> (r: Result<Vec<u8>>)
        ensures
            final(self).chip() == old(self).chip(),
            final(self).abits() == old(self).abits(),
            extends(old(self).device().log(), final(self).device().log()),
            r is Ok ==> r->Ok_0@.len() == request.length && mw_read_result(
                added(old(self).device().log(), final(self).device().log()),
                old(self).abits(),
                request.address.0,
                r->Ok_0@,
            ),
            r is Ok ==> final(self).progress() == old(self).progress() + mw_reports(request.length as nat, 16),
            r is Err ==> faulted(old(self).device().log(), final(self).device().log()) || (r matches Err(Error::NotSupported(_)) && !P::has_gpio()),
    {
        let ghost h = self.calls@;
        let ghost req = request;
        let mut reports = self.reports;
        let r = self.read_op(request, on_progress, &mut reports);
        self.reports = reports;
        self.calls = Ghost(h.push(read_call(req, r)));
        r
    }

    fn write<F: Fn(Progress)>(&mut self, request: WriteRequest, on_progress: &F) -> (r: Result<()>)
        ensures
            final(self).chip() == old(self).chip(),
            final(self).abits() == old(self).abits(),
            extends(old(self).device().log(), final(self).device().log()),
            r is Ok ==> mw_write_result(
                added(old(self).device().log(), final(self).device().log()),
                old(self).abits(),
                request.address.0,
                request.data@,
            ),
            r is Ok ==> final(self).progress() == old(self).progress() + mw_reports(request.data@.len(), 4),
            r is Err ==> faulted(old(self).device().log(), final(self).device().log()) || (r matches Err(Error::NotSupported(_)) && !P::has_gpio()) || (r matches Err(Error::Timeout) && mw_timed_out(
                added(old(self).device().log(), final(self).device().log()),
            )),
    {
        let ghost h = self.calls@;
        let ghost req = request;
        let mut reports = self.reports;
        let r = self.write_op(request, on_progress, &mut reports);
        self.reports = reports;
        self.calls = Ghost(h.push(write_call(req, r)));
        r
    }

    fn erase<F: Fn(Progress)>(&mut self, request: EraseRequest, on_progress: &F) -> (r: Result<()>)
        ensures
            final(self).chip() == old(self).chip(),
            final(self).abits() == old(self).abits(),
            extends(old(self).device().log(), final(self).device().log()),
            r is Ok ==> mw_write_result(
                added(old(self).device().log(), final(self).device().log()),
                old(self).abits(),
                request.address.0,
                Seq::new(request.length as nat, |i: int| 0xFFu8),
            ),
            r is Ok ==> final(self).progress() == old(self).progress() + mw_reports(request.length as nat, 4),
            r is Err ==> faulted(old(self).device().log(), final(self).device().log()) || (r matches Err(Error::NotSupported(_)) && !P::has_gpio()) || (r matches Err(Error::Timeout) && mw_timed_out(
                added(old(self).device().log(), final(self).device().log()),
            )),
    {
        let ghost h = self.calls@;
        let ghost req = request;
        let r = self.erase_op(request, on_progress);
        self.calls = Ghost(h.push(erase_call(req, r)));
        r
    }
}

} // verus!
