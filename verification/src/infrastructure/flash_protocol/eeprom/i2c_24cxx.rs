//! I2C EEPROM (24Cxx Series) Protocol Implementation
//!
//! These EEPROMs use I2C for communication; small devices (up to 2 KiB)
//! carry the high address bits in the device address, larger ones take a
//! two-byte memory address.

use vstd::prelude::*;

use crate::domain::chip::ChipSpec;
use crate::domain::flash_operation::{
    erase_call, erase_fits, get_status_call, read_call, read_fits, set_status_call, write_call,
    write_fits, FlashCall,
};
use crate::domain::types::{
    lemma_page_reports_next, lemma_report_next, lemma_step_reports_next, page_piece, page_reports, report,
    step_reports,
};
use crate::domain::{EraseRequest, FlashOperation, Progress, ReadRequest, WriteRequest};
use crate::error::{Error, Result};
use crate::infrastructure::flash_protocol::commands::I2C_ADDR_24CXX;
use crate::infrastructure::programmer::frames::{concat, extend_prefix, lemma_added_trans, lemma_concat_push};
use crate::infrastructure::programmer::traits::{added, extends, faulted, BusOp, Programmer};

verus! {

/// Largest piece read in one I2C transaction.
pub const MAX_I2C_READ: usize = 32;

/// Microseconds to wait for the EEPROM's internal write cycle (typically 5-10 ms).
pub const I2C_WRITE_CYCLE_US: u32 = 10000;

/// Device address and memory address bytes for `address` on a device of
/// `capacity` bytes.
pub open spec fn i2c_addressing(capacity: u32, address: u32) -> (u8, Seq<u8>) {
    if capacity <= 2048 {
        // 24C01 to 24C16: 1-byte address + address bits in device ID
        (
            I2C_ADDR_24CXX | ((((address >> 8u32) as u8) & 0x07u8) << 1u8),
            seq![address as u8],
        )
    } else {
        // 24C32 to 24C1024: 2-byte address
        (I2C_ADDR_24CXX, seq![(address >> 8u32) as u8, address as u8])
    }
}

/// The device and memory address that an I2C command names: on devices of
/// at most 2 KiB, the block bits 1-3 of the device address above the one
/// memory address byte; on larger ones, the two memory address bytes, most
/// significant first.
pub open spec fn i2c_named_address(capacity: u32, dev: u8, bytes: Seq<u8>) -> int {
    if capacity <= 2048 {
        ((dev >> 1u8) & 0x07u8) * 0x100 + bytes[0]
    } else {
        bytes[0] * 0x100 + bytes[1]
    }
}

/// Every memory address of a 24Cxx device is reached through the device
/// address 0xA0 plus its block bits and the memory address bytes, most
/// significant first: the address they name is the address asked for. On
/// devices above 2 KiB the device address is 0xA0 itself and two bytes are
/// sent, the high byte first.
pub proof fn lemma_i2c_addressing_names_address(capacity: u32, address: u32)
    requires
        address < capacity,
        capacity <= 0x10000,
    ensures
        i2c_named_address(capacity, i2c_addressing(capacity, address).0, i2c_addressing(capacity, address).1)
            == address,
        capacity <= 2048 ==> i2c_addressing(capacity, address).1.len() == 1 && i2c_addressing(
            capacity,
            address,
        ).0 & 0xF1u8 == 0xA0u8,
        capacity > 2048 ==> i2c_addressing(capacity, address).1.len() == 2 && i2c_addressing(
            capacity,
            address,
        ).0 == 0xA0u8,
{
    let hi = (address >> 8u32) as u8;
    let lo = address as u8;
    if capacity <= 2048 {
        let dev = 0xA0u8 | ((hi & 0x07u8) << 1u8);
        assert(dev & 0xF1u8 == 0xA0u8) by (bit_vector)
            requires
                dev == 0xA0u8 | ((hi & 0x07u8) << 1u8),
        ;
        assert(((dev >> 1u8) & 0x07u8) as u32 * 0x100u32 + lo as u32 == address) by (bit_vector)
            requires
                dev == 0xA0u8 | ((hi & 0x07u8) << 1u8),
                hi == (address >> 8u32) as u8,
                lo == address as u8,
                address < 2048u32,
        ;
    } else {
        assert(hi as u32 * 0x100u32 + lo as u32 == address) by (bit_vector)
            requires
                hi == (address >> 8u32) as u8,
                lo == address as u8,
                address < 0x10000u32,
        ;
    }
}

/// `seg` ends with a successful read of `rx` at `address`: the memory
/// address written, then the data read (what comes before are attempts
/// that failed).
pub open spec fn ends_with_i2c_read(seg: Seq<BusOp>, capacity: u32, address: u32, rx: Seq<u8>) -> bool {
    let (dev, bytes) = i2c_addressing(capacity, address);
    &&& seg.len() >= 2
    &&& seg[seg.len() - 2] == BusOp::I2cWrite { addr: dev, data: bytes }
    &&& seg[seg.len() - 1] == BusOp::I2cRead { addr: dev, data: rx }
}

/// `ops` reads `data` from the `length` bytes at `address`, in pieces of at
/// most `MAX_I2C_READ` bytes, each read from where the previous one ended.
pub open spec fn i2c_read_traffic(
    ops: Seq<BusOp>,
    capacity: u32,
    address: u32,
    length: int,
    data: Seq<u8>,
    segs: Seq<Seq<BusOp>>,
    chunks: Seq<Seq<u8>>,
) -> bool {
    &&& ops == concat(segs)
    &&& segs.len() == chunks.len()
    &&& data == concat(chunks)
    &&& data.len() == length
    &&& forall|j: int|
        0 <= j < chunks.len() ==> 0 < (#[trigger] chunks[j]).len() <= MAX_I2C_READ
            && ends_with_i2c_read(
            segs[j],
            capacity,
            (address + concat(chunks.take(j)).len()) as u32,
            chunks[j],
        )
}

/// `ops` reads `data` from the `length` bytes at `address`.
pub open spec fn i2c_read_result(
    ops: Seq<BusOp>,
    capacity: u32,
    address: u32,
    length: int,
    data: Seq<u8>,
) -> bool {
    exists|segs: Seq<Seq<BusOp>>, chunks: Seq<Seq<u8>>|
        #[trigger] i2c_read_traffic(ops, capacity, address, length, data, segs, chunks)
}

/// Bytes written in one go at `addr` when `remaining` bytes are left: up to
/// the end of the page.
pub open spec fn i2c_piece_len(addr: int, remaining: int, page_size: int) -> int {
    vstd::math::min(page_size - addr % page_size, remaining)
}

/// The I2C write that stores `bytes` at `addr`.
pub open spec fn i2c_write_op(capacity: u32, addr: u32, bytes: Seq<u8>) -> BusOp {
    BusOp::I2cWrite {
        addr: i2c_addressing(capacity, addr).0,
        data: i2c_addressing(capacity, addr).1 + bytes,
    }
}

/// Each event of `ops` writes the page piece of `data` that starts at the
/// matching offset of `offs`, and the next piece starts where it ends.
pub open spec fn i2c_write_pieces(
    capacity: u32,
    page_size: int,
    address: u32,
    data: Seq<u8>,
    ops: Seq<BusOp>,
    offs: Seq<int>,
) -> bool {
    &&& offs.len() == ops.len() + 1
    &&& offs[0] == 0
    &&& forall|j: int|
        #![trigger ops[j]]
        #![trigger offs[j]]
        0 <= j < ops.len() ==> offs[j + 1] == offs[j] + i2c_piece_len(
            address + offs[j],
            data.len() - offs[j],
            page_size,
        ) && ops[j] == i2c_write_op(
            capacity,
            (address + offs[j]) as u32,
            data.subrange(offs[j], offs[j + 1]),
        )
}

/// `ops` writes `data` at `address`, one I2C write per page piece.
pub open spec fn i2c_write_data_result(
    ops: Seq<BusOp>,
    capacity: u32,
    page_size: int,
    address: u32,
    data: Seq<u8>,
) -> bool {
    exists|offs: Seq<int>|
        #![trigger i2c_write_pieces(capacity, page_size, address, data, ops, offs)]
        offs.last() == data.len() && i2c_write_pieces(capacity, page_size, address, data, ops, offs)
}

/// `ops` writes `data` at `address` and, when `verify` is set, then reads the
/// same range back and finds `data` there.
pub open spec fn i2c_write_result(
    ops: Seq<BusOp>,
    capacity: u32,
    page_size: int,
    address: u32,
    data: Seq<u8>,
    verify: bool,
) -> bool {
    exists|k: int|
        0 <= k <= ops.len() && #[trigger] i2c_write_data_result(
            ops.take(k),
            capacity,
            page_size,
            address,
            data,
        ) && if verify {
            i2c_read_result(ops.skip(k), capacity, address, data.len() as int, data)
        } else {
            k == ops.len()
        }
}

/// One more written piece extends the pieces.
proof fn lemma_i2c_pieces_push(
    capacity: u32,
    page_size: int,
    address: u32,
    data: Seq<u8>,
    ops: Seq<BusOp>,
    offs: Seq<int>,
    op: BusOp,
    n: int,
)
    requires
        i2c_write_pieces(capacity, page_size, address, data, ops, offs),
        n == i2c_piece_len(address + offs.last(), data.len() - offs.last(), page_size),
        op == i2c_write_op(
            capacity,
            (address + offs.last()) as u32,
            data.subrange(offs.last(), offs.last() + n),
        ),
    ensures
        i2c_write_pieces(capacity, page_size, address, data, ops.push(op), offs.push(offs.last() + n)),
{
    let s2 = ops.push(op);
    let o2 = offs.push(offs.last() + n);
    assert forall|j: int|
        #![trigger s2[j]]
        #![trigger o2[j]]
        0 <= j < s2.len() implies o2[j + 1] == o2[j] + i2c_piece_len(
            address + o2[j],
            data.len() - o2[j],
            page_size,
        ) && s2[j] == i2c_write_op(
            capacity,
            (address + o2[j]) as u32,
            data.subrange(o2[j], o2[j + 1]),
        ) by {
        if j < ops.len() {
            assert(s2[j] == ops[j]);
            assert(o2[j] == offs[j]);
            assert(o2[j + 1] == offs[j + 1]);
        } else {
            assert(s2[j] == op);
            assert(o2[j] == offs.last());
            assert(o2[j + 1] == offs.last() + n);
        }
    }
    assert(o2[0] == offs[0]);
}

/// Whether `a` and `b` hold the same bytes.
fn bytes_equal(a: &[u8], b: &[u8]) -> (r: bool)
    ensures
        r == (a@ == b@),
{
    if a.len() != b.len() {
        return false;
    }
    let mut i: usize = 0;
    while i < a.len()
        invariant
            a@.len() == b@.len(),
            i <= a@.len(),
            forall|j: int| 0 <= j < i ==> a@[j] == b@[j],
        decreases a@.len() - i,
    {
        if a[i] != b[i] {
            return false;
        }
        i = i + 1;
    }
    assert(a@ =~= b@);
    true
}

/// A write followed, when verifying, by a read-back that found the data.
proof fn lemma_write_then_verify(
    l0: Seq<BusOp>,
    lw: Seq<BusOp>,
    le: Seq<BusOp>,
    capacity: u32,
    page_size: int,
    address: u32,
    data: Seq<u8>,
    verify: bool,
)
    requires
        extends(l0, lw),
        extends(lw, le),
        i2c_write_data_result(added(l0, lw), capacity, page_size, address, data),
        verify ==> i2c_read_result(added(lw, le), capacity, address, data.len() as int, data),
        !verify ==> le == lw,
    ensures
        i2c_write_result(added(l0, le), capacity, page_size, address, data, verify),
{
    let ops = added(l0, le);
    let k = added(l0, lw).len() as int;
    lemma_added_trans(l0, lw, le);
    assert(ops.take(k) =~= added(l0, lw));
    assert(ops.skip(k) =~= added(lw, le));
    assert(i2c_write_data_result(ops.take(k), capacity, page_size, address, data));
}

/// I2C EEPROM protocol handler
pub struct I2cEeprom<P: Programmer> {
    programmer: P,
    spec: ChipSpec,
    calls: Ghost<Seq<FlashCall>>,
    reports: Ghost<Seq<Progress>>,
}

impl<P: Programmer> I2cEeprom<P> {
    /// The programmer the chip is reached through.
    pub closed spec fn device(&self) -> P {
        self.programmer
    }

    /// The chip description.
    pub closed spec fn chip(&self) -> ChipSpec {
        self.spec
    }

    pub fn new(programmer: P, spec: ChipSpec) -> (r: Self)
        ensures
            r.device() == programmer,
            r.chip() == spec,
            r.calls() == Seq::<FlashCall>::empty(),
            r.progress() == Seq::<Progress>::empty(),
    {
        Self { programmer, spec, calls: Ghost(Seq::empty()), reports: Ghost(Seq::empty()) }
    }

    /// Everything handed to the progress callbacks of the operations so far,
    /// oldest first.
    pub closed spec fn progress(&self) -> Seq<Progress> {
        self.reports@
    }

    /// Gives back the programmer the chip was reached through.
    pub fn into_device(self) -> (p: P)
        ensures
            p == self.device(),
    {
        self.programmer
    }

    /// Device address and memory address bytes for `address`.
    fn get_addressing_info(&self, address: u32) -> (r: (u8, Vec<u8>))
        ensures
            r.0 == i2c_addressing(self.spec.capacity.0, address).0,
            r.1@ == i2c_addressing(self.spec.capacity.0, address).1,
    {
        let capacity = self.spec.capacity.as_bytes();
        let base_addr = I2C_ADDR_24CXX;

        if capacity <= 2048 {
            // 24C01 to 24C16: 1-byte address + address bits in device ID
            let addr_high = (address >> 8) as u8 & 0x07;
            let device_addr = base_addr | (addr_high << 1);
            let addr_bytes = vec![address as u8];
            assert(addr_bytes@ =~= i2c_addressing(capacity, address).1);
            (device_addr, addr_bytes)
        } else {
            // 24C32 to 24C1024: 2-byte address
            let device_addr = base_addr;
            let addr_bytes = vec![(address >> 8) as u8, address as u8];
            assert(addr_bytes@ =~= i2c_addressing(capacity, address).1);
            (device_addr, addr_bytes)
        }
    }

    /// Get page size for this EEPROM
    fn page_size(&self) -> (n: usize)
        ensures
            n == self.spec.layout.page_size,
    {
        self.spec.layout.page_size as usize
    }

    /// Write the memory address of `address`, then read `len` bytes; tried
    /// again after a failure up to `retries` times.
    fn read_piece_with_retries(&mut self, address: u32, len: usize, retries: u32) -> (r: Result<
        Vec<u8>,
    >)
        requires
            old(self).programmer.wf(),
        ensures
            final(self).programmer.wf(),
            final(self).spec == old(self).spec,
            extends(old(self).programmer.log(), final(self).programmer.log()),
            r is Ok ==> r->Ok_0@.len() == len && ends_with_i2c_read(
                added(old(self).programmer.log(), final(self).programmer.log()),
                old(self).spec.capacity.0,
                address,
                r->Ok_0@,
            ),
            r is Err ==> faulted(old(self).programmer.log(), final(self).programmer.log()) || (r matches Err(Error::NotSupported(_)) && !P::has_i2c()),
    {
        let (device_addr, addr_bytes) = self.get_addressing_info(address);
        let ghost l0 = self.programmer.log();
        let mut attempts: u32 = 0;
        loop
            invariant
                self.programmer.wf(),
                self.spec == old(self).spec,
                l0 == old(self).programmer.log(),
                extends(l0, self.programmer.log()),
                device_addr == i2c_addressing(self.spec.capacity.0, address).0,
                addr_bytes@ == i2c_addressing(self.spec.capacity.0, address).1,
                attempts <= retries,
            decreases retries - attempts,
        {
            let ghost lb = self.programmer.log();
            let res = match self.programmer.i2c_write(device_addr, addr_bytes.as_slice()) {
                Ok(()) => self.programmer.i2c_read(device_addr, len),
                Err(e) => Err(e),
            };
            proof {
                let a = added(l0, self.programmer.log());
                assert(self.programmer.log().subrange(0, l0.len() as int) =~= l0);
            }
            match res {
                Ok(data) => {
                    proof {
                        let a = added(l0, self.programmer.log());
                        let n = self.programmer.log().len();
                        assert(a[a.len() - 2] == self.programmer.log()[n - 2]);
                        assert(a[a.len() - 1] == self.programmer.log()[n - 1]);
                    }
                    return Ok(data);
                },
                Err(e) => {
                    if attempts < retries {
                        attempts = attempts + 1;
                    } else {
                        return Err(e);
                    }
                },
            }
        }
    }

    /// Write `piece` at `address` in one I2C write, then wait for the write cycle.
    fn write_piece(&mut self, address: u32, piece: &[u8]) -> (r: Result<()>)
        requires
            old(self).programmer.wf(),
        ensures
            final(self).programmer.wf(),
            final(self).spec == old(self).spec,
            extends(old(self).programmer.log(), final(self).programmer.log()),
            r is Ok ==> final(self).programmer.log() == old(self).programmer.log().push(
                i2c_write_op(old(self).spec.capacity.0, address, piece@),
            ),
            r is Err ==> faulted(old(self).programmer.log(), final(self).programmer.log()) || (r matches Err(Error::NotSupported(_)) && !P::has_i2c()),
    {
        let (device_addr, addr_bytes) = self.get_addressing_info(address);

        // I2C write packet: memory address, then data
        let mut packet: Vec<u8> = Vec::new();
        extend_prefix(&mut packet, addr_bytes.as_slice(), addr_bytes.len());
        extend_prefix(&mut packet, piece, piece.len());
        assert(addr_bytes@.subrange(0, addr_bytes@.len() as int) =~= addr_bytes@);
        assert(piece@.subrange(0, piece@.len() as int) =~= piece@);

        self.programmer.i2c_write(device_addr, packet.as_slice())?;
        self.programmer.delay_us(I2C_WRITE_CYCLE_US);
        Ok(())
    }
    /// Write `data` at `address`, page piece by page piece.
    #[verifier::spinoff_prover]
    fn write_pages<F: Fn(Progress)>(
        &mut self,
        address: u32,
        data: &[u8],
        on_progress: &F,
        reports: &mut Ghost<Seq<Progress>>,
    ) -> (r: Result<()>)
        requires
            old(self).programmer.wf(),
            i2c_layout_ok(old(self).spec),
            address + data@.len() <= u32::MAX,
            forall|p: Progress| #[trigger] on_progress.requires((p,)),
        ensures
            final(self).programmer.wf(),
            final(self).spec == old(self).spec,
            extends(old(self).programmer.log(), final(self).programmer.log()),
            r is Ok ==> i2c_write_data_result(
                added(old(self).programmer.log(), final(self).programmer.log()),
                old(self).spec.capacity.0,
                old(self).spec.layout.page_size as int,
                address,
                data@,
            ),
            r is Ok ==> final(reports)@ == old(reports)@ + page_reports(
                address as int,
                old(self).spec.layout.page_size as int,
                0,
                data@.len(),
            ),
            r is Err ==> faulted(old(self).programmer.log(), final(self).programmer.log()) || (r matches Err(Error::NotSupported(_)) && !P::has_i2c()),
    {
        let ghost capacity = self.spec.capacity.0;
        let page_size = self.page_size();
        let ghost r0 = reports@;
        let mut offset: usize = 0;
        let mut current_addr = address;
        let ghost l0 = self.programmer.log();
        let ghost mut offs: Seq<int> = seq![0int];

        while offset < data.len()
            invariant
                reports@ + page_reports(address as int, page_size as int, offset as nat, data@.len()) == r0
                    + page_reports(address as int, page_size as int, 0, data@.len()),
                self.programmer.wf(),
                self.spec == old(self).spec,
                i2c_layout_ok(self.spec),
                capacity == self.spec.capacity.0,
                page_size == self.spec.layout.page_size,
                l0 == old(self).programmer.log(),
                extends(l0, self.programmer.log()),
                address + data@.len() <= u32::MAX,
                offset <= data@.len(),
                current_addr == address + offset,
                offs.last() == offset,
                i2c_write_pieces(
                    capacity,
                    page_size as int,
                    address,
                    data@,
                    added(l0, self.programmer.log()),
                    offs,
                ),
                forall|p: Progress| #[trigger] on_progress.requires((p,)),
            decreases data@.len() - offset,
        {
            // Bytes left in the current page
            let page_offset = (current_addr as usize) % page_size;
            let bytes_in_page = page_size - page_offset;
            let bytes_to_write = if bytes_in_page < data.len() - offset {
                bytes_in_page
            } else {
                data.len() - offset
            };

            let piece = vstd::slice::slice_subrange(data, offset, offset + bytes_to_write);
            let ghost lb = self.programmer.log();
            self.write_piece(current_addr, piece)?;
            proof {
                let op = i2c_write_op(capacity, current_addr, piece@);
                assert(added(l0, self.programmer.log()) =~= added(l0, lb).push(op));
                lemma_i2c_pieces_push(
                    capacity,
                    page_size as int,
                    address,
                    data@,
                    added(l0, lb),
                    offs,
                    op,
                    bytes_to_write as int,
                );
                offs = offs.push(offset + bytes_to_write);
            }

            let ghost done = offset as nat;
            assert(bytes_to_write == page_piece(address + offset, data@.len() - offset, page_size as int));
            offset = offset + bytes_to_write;
            current_addr = current_addr + bytes_to_write as u32;

            let p = Progress::new(offset as u64, data.len() as u64);
            proof {
                lemma_page_reports_next(address as int, page_size as int, done, data@.len(), offset as nat);
                lemma_report_next(
                    reports@,
                    p,
                    page_reports(address as int, page_size as int, done, data@.len()),
                    page_reports(address as int, page_size as int, offset as nat, data@.len()),
                );
            }
            report(on_progress, p, reports);
        }
        assert(page_reports(address as int, page_size as int, data@.len(), data@.len())
            =~= Seq::<Progress>::empty());
        assert(reports@ + Seq::<Progress>::empty() =~= reports@);

        proof {
            assert(i2c_write_data_result(added(l0, self.programmer.log()), capacity, page_size as int, address, data@));
        }
        Ok(())

    }
}

/// Geometry that the EEPROM protocol can work with: pages are not empty.
pub open spec fn i2c_layout_ok(spec: ChipSpec) -> bool {
    spec.layout.page_size > 0
}

impl<P: Programmer> I2cEeprom<P> {
    #[verifier::spinoff_prover]
    fn read_op<F: Fn(Progress)>(
        &mut self,
        request: ReadRequest,
        on_progress: &F,
        reports: &mut Ghost<Seq<Progress>>,
    ) -> (r: Result<Vec<u8>>)
        requires
            old(self).inv(),
            read_fits(request),
            forall|p: Progress| #[trigger] on_progress.requires((p,)),
        ensures
            final(self).inv(),
            final(self).chip() == old(self).chip(),
            extends(old(self).device().log(), final(self).device().log()),
            r is Ok ==> r->Ok_0@.len() == request.length && i2c_read_result(
                added(old(self).device().log(), final(self).device().log()),
                old(self).chip().capacity.0,
                request.address.0,
                request.length as int,
                r->Ok_0@,
            ),
            r is Ok ==> final(reports)@ == old(reports)@ + step_reports(0, request.length as nat, MAX_I2C_READ as nat),
            r is Err ==> faulted(old(self).device().log(), final(self).device().log()) || (r matches Err(Error::NotSupported(_)) && !P::has_i2c()),
    {
        let ghost capacity = self.spec.capacity.0;
        let address = request.address.as_u32();
        let length = request.length as usize;
        let mut result: Vec<u8> = Vec::new();
        let mut remaining = length;
        let mut current_addr = address;
        let ghost r0 = reports@;
        let ghost cs = MAX_I2C_READ as nat;
        let ghost l0 = self.programmer.log();
        let ghost mut segs: Seq<Seq<BusOp>> = Seq::empty();
        let ghost mut chunks: Seq<Seq<u8>> = Seq::empty();

        while remaining > 0
            invariant
                self.programmer.wf(),
                self.spec == old(self).spec,
                i2c_layout_ok(self.spec),
                capacity == self.spec.capacity.0,
                l0 == old(self).programmer.log(),
                extends(l0, self.programmer.log()),
                added(l0, self.programmer.log()) == concat(segs),
                address == request.address.0,
                length == request.length,
                address + length <= u32::MAX,
                cs == MAX_I2C_READ,
                reports@ + step_reports(result@.len(), length as nat, cs) == r0 + step_reports(
                    0,
                    length as nat,
                    cs,
                ),
                result@ == concat(chunks),
                result@.len() + remaining == length,
                current_addr == address + result@.len(),
                segs.len() == chunks.len(),
                forall|j: int|
                    0 <= j < chunks.len() ==> 0 < (#[trigger] chunks[j]).len() <= MAX_I2C_READ
                        && ends_with_i2c_read(
                        segs[j],
                        capacity,
                        (address + concat(chunks.take(j)).len()) as u32,
                        chunks[j],
                    ),
                forall|p: Progress| #[trigger] on_progress.requires((p,)),
            decreases remaining,
        {
            let read_size = if remaining < MAX_I2C_READ {
                remaining
            } else {
                MAX_I2C_READ
            };

            let ghost lb = self.programmer.log();
            let chunk = self.read_piece_with_retries(current_addr, read_size, request.retry_count)?;
            proof {
                let old_chunks = chunks;
                lemma_concat_push(segs, added(lb, self.programmer.log()));
                lemma_concat_push(chunks, chunk@);
                assert(self.programmer.log().subrange(0, l0.len() as int) =~= l0);
                assert(added(l0, self.programmer.log()) =~= added(l0, lb) + added(
                    lb,
                    self.programmer.log(),
                ));
                segs = segs.push(added(lb, self.programmer.log()));
                chunks = chunks.push(chunk@);
                assert forall|j: int| 0 <= j < chunks.len() implies 0 < (
                #[trigger] chunks[j]).len() <= MAX_I2C_READ && ends_with_i2c_read(
                    segs[j],
                    capacity,
                    (address + concat(chunks.take(j)).len()) as u32,
                    chunks[j],
                ) by {
                    if j < old_chunks.len() {
                        assert(chunks.take(j) =~= old_chunks.take(j));
                    } else {
                        assert(chunks.take(j) =~= old_chunks);
                    }
                }
            }
            extend_prefix(&mut result, chunk.as_slice(), chunk.len());
            assert(chunk@.subrange(0, chunk@.len() as int) =~= chunk@);

            remaining = remaining - read_size;
            current_addr = current_addr + read_size as u32;

            let ghost done = (result@.len() - read_size) as nat;
            let p = Progress::new(result.len() as u64, length as u64);
            proof {
                lemma_step_reports_next(done, length as nat, cs, result@.len());
                lemma_report_next(
                    reports@,
                    p,
                    step_reports(done, length as nat, cs),
                    step_reports(result@.len(), length as nat, cs),
                );
            }
            report(on_progress, p, reports);
        }
        assert(step_reports(length as nat, length as nat, cs) =~= Seq::<Progress>::empty());
        assert(reports@ + Seq::<Progress>::empty() =~= reports@);
        proof {
            assert(i2c_read_traffic(
                added(l0, self.programmer.log()),
                capacity,
                address,
                request.length as int,
                result@,
                segs,
                chunks,
            ));
        }
        Ok(result)
    }

    #[verifier::spinoff_prover]
    fn write_op<F: Fn(Progress)>(
        &mut self,
        request: WriteRequest,
        on_progress: &F,
        reports: &mut Ghost<Seq<Progress>>,
    ) -> (r: Result<()>)
        requires
            old(self).inv(),
            write_fits(request),
            forall|p: Progress| #[trigger] on_progress.requires((p,)),
        ensures
            final(self).inv(),
            final(self).chip() == old(self).chip(),
            extends(old(self).device().log(), final(self).device().log()),
            r is Ok ==> i2c_write_result(
                added(old(self).device().log(), final(self).device().log()),
                old(self).chip().capacity.0,
                old(self).chip().layout.page_size as int,
                request.address.0,
                request.data@,
                request.verify,
            ),
            r is Ok ==> final(reports)@ == old(reports)@ + page_reports(
                request.address.0 as int,
                old(self).chip().layout.page_size as int,
                0,
                request.data@.len(),
            ),
            r is Err ==> faulted(old(self).device().log(), final(self).device().log()) || (r matches Err(Error::NotSupported(_)) && !P::has_i2c()) || (r matches Err(Error::VerificationFailed { address, .. }) && request.verify && address
                == request.address.0),
    {
        let ghost capacity = self.spec.capacity.0;
        let ghost page_size = self.spec.layout.page_size;
        let data = request.data;
        let address = request.address.as_u32();
        let ghost l0 = self.programmer.log();
        self.write_pages(address, data, on_progress, reports)?;
        let ghost lw = self.programmer.log();

        if request.verify {
            let verify_req = ReadRequest {
                address: request.address,
                length: request.data.len() as u32,
                use_ecc: request.use_ecc,
                ignore_ecc_errors: request.ignore_ecc_errors,
                oob_mode: request.oob_mode,
                bad_block_strategy: request.bad_block_strategy,
                bbt: None,
                retry_count: request.retry_count,
            };
            let read_back = self.read(verify_req, &|_p: Progress| {})?;
            if !bytes_equal(read_back.as_slice(), data) {
                return Err(Error::VerificationFailed { address, expected: 0, actual: 0 });
            }
        }
        proof {
            lemma_write_then_verify(
                l0,
                lw,
                self.programmer.log(),
                capacity,
                page_size as int,
                address,
                data@,
                request.verify,
            );
        }
        Ok(())
    }

    /// I2C EEPROMs are overwritable; a "full erase" fills every byte with
    /// 0xFF, whatever range the request names.
    #[verifier::spinoff_prover]
    fn erase_op<F: Fn(Progress)>(
        &mut self,
        _request: EraseRequest,
        on_progress: &F,
        reports: &mut Ghost<Seq<Progress>>,
    ) -> (r: Result<()>)
        requires
            old(self).inv(),
            erase_fits(_request),
            forall|p: Progress| #[trigger] on_progress.requires((p,)),
        ensures
            final(self).inv(),
            final(self).chip() == old(self).chip(),
            extends(old(self).device().log(), final(self).device().log()),
            r is Ok ==> i2c_write_data_result(
                added(old(self).device().log(), final(self).device().log()),
                old(self).chip().capacity.0,
                old(self).chip().layout.page_size as int,
                0,
                Seq::new(old(self).chip().capacity.0 as nat, |i: int| 0xFFu8),
            ),
            r is Ok ==> final(reports)@ == old(reports)@ + step_reports(
                0,
                old(self).chip().capacity.0 as nat,
                old(self).chip().layout.page_size as nat,
            ),
            r is Err ==> faulted(old(self).device().log(), final(self).device().log()) || (r matches Err(Error::NotSupported(_)) && !P::has_i2c()),
    {
        let ghost cap = self.spec.capacity.0;
        let capacity = self.spec.capacity.as_bytes() as usize;
        let page_size = self.page_size();
        let fill_data: Vec<u8> = vec![0xFFu8; page_size];
        let ghost all = Seq::new(capacity as nat, |i: int| 0xFFu8);

        let mut offset: usize = 0;
        let ghost l0 = self.programmer.log();
        let ghost mut offs: Seq<int> = seq![0int];
        let ghost r0 = reports@;

        while offset < capacity
            invariant
                reports@ + step_reports(offset as nat, capacity as nat, page_size as nat) == r0
                    + step_reports(0, capacity as nat, page_size as nat),
                self.programmer.wf(),
                self.spec == old(self).spec,
                i2c_layout_ok(self.spec),
                cap == self.spec.capacity.0,
                page_size == self.spec.layout.page_size,
                capacity == cap,
                capacity <= u32::MAX,
                fill_data@ == Seq::new(page_size as nat, |i: int| 0xFFu8),
                all == Seq::new(capacity as nat, |i: int| 0xFFu8),
                l0 == old(self).programmer.log(),
                extends(l0, self.programmer.log()),
                offset <= capacity,
                offset == capacity || offset % page_size == 0,
                offs.last() == offset,
                i2c_write_pieces(cap, page_size as int, 0, all, added(l0, self.programmer.log()), offs),
                forall|p: Progress| #[trigger] on_progress.requires((p,)),
            decreases capacity - offset,
        {
            let bytes_to_write = if page_size < capacity - offset {
                page_size
            } else {
                capacity - offset
            };
            let piece = vstd::slice::slice_subrange(fill_data.as_slice(), 0, bytes_to_write);
            assert(piece@ =~= all.subrange(offset as int, offset + bytes_to_write));
            assert(bytes_to_write == i2c_piece_len(0 + offset, all.len() - offset, page_size as int));

            let ghost lb = self.programmer.log();
            self.write_piece(offset as u32, piece)?;
            proof {
                let op = i2c_write_op(cap, offset as u32, piece@);
                assert(added(l0, self.programmer.log()) =~= added(l0, lb).push(op));
                lemma_i2c_pieces_push(
                    cap,
                    page_size as int,
                    0,
                    all,
                    added(l0, lb),
                    offs,
                    op,
                    bytes_to_write as int,
                );
                offs = offs.push(offset + bytes_to_write);
            }

            let ghost done = offset as nat;
            offset = offset + bytes_to_write;
            proof {
                if offset < capacity {
                    assert(bytes_to_write == page_size);
                    assert((offset as int) % (page_size as int) == 0) by (nonlinear_arith)
                        requires
                            (offset - page_size) % (page_size as int) == 0,
                            page_size > 0,
                            offset >= page_size,
                    ;
                }
            }
            let p = Progress::new(offset as u64, capacity as u64);
            proof {
                lemma_step_reports_next(done, capacity as nat, page_size as nat, offset as nat);
                lemma_report_next(
                    reports@,
                    p,
                    step_reports(done, capacity as nat, page_size as nat),
                    step_reports(offset as nat, capacity as nat, page_size as nat),
                );
            }
            report(on_progress, p, reports);
        }
        assert(step_reports(capacity as nat, capacity as nat, page_size as nat) =~= Seq::<Progress>::empty());
        assert(reports@ + Seq::<Progress>::empty() =~= reports@);
        proof {
            assert(i2c_write_data_result(
                added(l0, self.programmer.log()),
                cap,
                page_size as int,
                0,
                all,
            ));
        }
        Ok(())
    }
}

impl<P: Programmer> FlashOperation for I2cEeprom<P> {
    open spec fn inv(&self) -> bool {
        self.device().wf() && i2c_layout_ok(self.chip())
    }

    closed spec fn calls(&self) -> Seq<FlashCall> {
        self.calls@
    }

    /// This chip kind has no status register to read: `NotSupported`.
    fn get_status(&mut self) -> (r: Result<Vec<u8>>)
        ensures
            r matches Err(Error::NotSupported(_)),
            final(self).device() == old(self).device(),
            final(self).chip() == old(self).chip(),
    {
        let r = Err(Error::NotSupported("status registers are not available for this chip".to_string()));
        self.calls = Ghost(self.calls@.push(get_status_call(r)));
        r
    }

    /// This chip kind has no status register to write: `NotSupported`.
    fn set_status(&mut self, status: &[u8]) -> (r: Result<()>)
        ensures
            r matches Err(Error::NotSupported(_)),
            final(self).device() == old(self).device(),
            final(self).chip() == old(self).chip(),
    {
        let r = Err(Error::NotSupported("status registers are not available for this chip".to_string()));
        self.calls = Ghost(self.calls@.push(set_status_call(status@, r)));
        r
    }

    fn read<F: Fn(Progress)>(&mut self, request: ReadRequest, on_progress: &F) -> (r: Result<Vec<u8>>)
        ensures
            final(self).chip() == old(self).chip(),
            extends(old(self).device().log(), final(self).device().log()),
            r is Ok ==> r->Ok_0@.len() == request.length && i2c_read_result(
                added(old(self).device().log(), final(self).device().log()),
                old(self).chip().capacity.0,
                request.address.0,
                request.length as int,
                r->Ok_0@,
            ),
            r is Ok ==> final(self).progress() == old(self).progress() + step_reports(0, request.length as nat, MAX_I2C_READ as nat),
            r is Err ==> faulted(old(self).device().log(), final(self).device().log()) || (r matches Err(Error::NotSupported(_)) && !P::has_i2c()),
    {
        let ghost h = self.calls@;
        let ghost req = request;
        let mut reports = self.reports;
        let r = self.read_op(request, on_progress, &mut reports);
        self.reports = reports;
        self.calls = Ghost(h.push(read_call(req, r)));
        r
    }

    fn write<F: Fn(Progress)>(&mut self, request: WriteRequest, on_progress: &F) -> (r: Result<()>)
        ensures
            final(self).chip() == old(self).chip(),
            extends(old(self).device().log(), final(self).device().log()),
            r is Ok ==> i2c_write_result(
                added(old(self).device().log(), final(self).device().log()),
                old(self).chip().capacity.0,
                old(self).chip().layout.page_size as int,
                request.address.0,
                request.data@,
                request.verify,
            ),
            r is Ok ==> final(self).progress() == old(self).progress() + page_reports(
                request.address.0 as int,
                old(self).chip().layout.page_size as int,
                0,
                request.data@.len(),
            ),
            r is Err ==> faulted(old(self).device().log(), final(self).device().log()) || (r matches Err(Error::NotSupported(_)) && !P::has_i2c()) || (r matches Err(Error::VerificationFailed { address, .. }) && request.verify && address
                == request.address.0),
    {
        let ghost h = self.calls@;
        let ghost req = request;
        let mut reports = self.reports;
        let r = self.write_op(request, on_progress, &mut reports);
        self.reports = reports;
        self.calls = Ghost(h.push(write_call(req, r)));
        r
    }

    fn erase<F: Fn(Progress)>(&mut self, _request: EraseRequest, on_progress: &F) -> (r: Result<()>)
        ensures
            final(self).chip() == old(self).chip(),
            extends(old(self).device().log(), final(self).device().log()),
            r is Ok ==> i2c_write_data_result(
                added(old(self).device().log(), final(self).device().log()),
                old(self).chip().capacity.0,
                old(self).chip().layout.page_size as int,
                0,
                Seq::new(old(self).chip().capacity.0 as nat, |i: int| 0xFFu8),
            ),
            r is Ok ==> final(self).progress() == old(self).progress() + step_reports(
                0,
                old(self).chip().capacity.0 as nat,
                old(self).chip().layout.page_size as nat,
            ),
            r is Err ==> faulted(old(self).device().log(), final(self).device().log()) || (r matches Err(Error::NotSupported(_)) && !P::has_i2c()),
    {
        let ghost h = self.calls@;
        let ghost req = _request;
        let mut reports = self.reports;
        let r = self.erase_op(_request, on_progress, &mut reports);
        self.reports = reports;
        self.calls = Ghost(h.push(erase_call(req, r)));
        r
    }
}

} // verus!
