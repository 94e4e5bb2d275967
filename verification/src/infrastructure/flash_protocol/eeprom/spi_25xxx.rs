//! SPI EEPROM (25xxx Series) Protocol Implementation
//!
//! These EEPROMs use a simplified SPI Flash command set with smaller page sizes.
//!
//! # Supported Chips
//!
//! - 25010 (128 bytes)
//! - 25020 (256 bytes)
//! - 25040 (512 bytes)
//! - 25080 (1 KB)
//! - 25160 (2 KB)
//! - 25320 (4 KB)
//! - 25640 (8 KB)
//! - 25128 (16 KB)
//! - 25256 (32 KB)
//! - 25512 (64 KB)
//! - 251024 (128 KB)
//!
//! # Address Modes
//!
//! - Devices ≤512 bytes (25010-25040): 1-byte address
//! - Devices 1KB-64KB (25080-25512): 2-byte address
//! - Devices ≥128KB (251024): 3-byte address

use vstd::prelude::*;

use crate::domain::chip::ChipSpec;
use crate::domain::flash_operation::{
    erase_call, erase_fits, get_status_call, read_call, read_fits, set_status_call, write_call,
    write_fits, FlashCall,
};
use crate::domain::types::{lemma_report_next, lemma_step_reports_next, report, step_reports};
use crate::domain::{EraseRequest, FlashOperation, Progress, ReadRequest, WriteRequest};
use crate::error::{Error, Result};
use crate::infrastructure::flash_protocol::commands::{
    CMD_EEPROM_RDSR, CMD_EEPROM_READ, CMD_EEPROM_WREN, CMD_EEPROM_WRITE, CMD_EEPROM_WRSR,
    STATUS_EEPROM_WIP,
};
use crate::infrastructure::programmer::frames::{
    busy_polls, concat, extend_prefix, lemma_added_trans, lemma_busy_polls_push,
    lemma_command_frame, lemma_concat_push, lemma_polls_until_ready, lemma_query_frame,
    lemma_timed_out_suffix, polls_until_ready, timed_out,
};
use crate::infrastructure::programmer::traits::{
    added, command_frame, extends, faulted, query_frame, BusOp, Programmer,
};

verus! {

/// Microseconds between two status polls.
pub const EEPROM_POLL_INTERVAL_US: u32 = 50;

/// Status polls before giving up: 100 ms at the poll interval (a write
/// cycle typically takes under 5 ms).
pub const EEPROM_POLL_BUDGET: u32 = 2000;

/// Largest piece read in one transaction.
pub const EEPROM_READ_CHUNK: usize = 4096;

/// Address mode for SPI EEPROM based on capacity
#[derive(Debug, Clone, Copy, PartialEq, Eq)]
pub enum AddressMode {
    /// 1-byte address for devices ≤512 bytes
    OneByte,
    /// 2-byte address for devices 1KB-64KB
    TwoByte,
    /// 3-byte address for devices ≥128KB
    ThreeByte,
}

/// The address mode of a device of `capacity` bytes.
pub open spec fn mode_for_capacity(capacity: u32) -> AddressMode {
    if capacity <= 512 {
        AddressMode::OneByte
    } else if capacity <= 65536 {
        AddressMode::TwoByte
    } else {
        AddressMode::ThreeByte
    }
}

/// Number of address bytes sent in `mode`.
pub open spec fn mode_address_bytes(mode: AddressMode) -> nat {
    match mode {
        AddressMode::OneByte => 1,
        AddressMode::TwoByte => 2,
        AddressMode::ThreeByte => 3,
    }
}

impl AddressMode {
    /// Determine address mode from chip capacity
    pub fn from_capacity(capacity_bytes: u32) -> (m: Self)
        ensures
            m == mode_for_capacity(capacity_bytes),
    {
        if capacity_bytes <= 512 {
            AddressMode::OneByte
        } else if capacity_bytes <= 65536 {
            AddressMode::TwoByte
        } else {
            AddressMode::ThreeByte
        }
    }

    /// Get number of address bytes
    pub fn address_bytes(&self) -> (n: usize)
        ensures
            n == mode_address_bytes(*self),
    {
        match self {
            AddressMode::OneByte => 1,
            AddressMode::TwoByte => 2,
            AddressMode::ThreeByte => 3,
        }
    }
}

/// The bits merged into the command byte and the address bytes of `addr`.
/// In 1-byte mode, bit 3 of the command carries address bit 8 (for 512-byte
/// devices such as the 25040).
pub open spec fn eeprom_addr(mode: AddressMode, addr: u32) -> (u8, Seq<u8>) {
    match mode {
        AddressMode::OneByte => (if addr >= 256 { 0x08u8 } else { 0x00u8 }, seq![addr as u8]),
        AddressMode::TwoByte => (0x00u8, seq![(addr >> 8u32) as u8, addr as u8]),
        AddressMode::ThreeByte => (
            0x00u8,
            seq![(addr >> 16u32) as u8, (addr >> 8u32) as u8, addr as u8],
        ),
    }
}

/// `opcode` (with the command bits of `addr` merged in) followed by the address bytes.
pub open spec fn eeprom_cmd(opcode: u8, mode: AddressMode, addr: u32) -> Seq<u8> {
    seq![opcode | eeprom_addr(mode, addr).0] + eeprom_addr(mode, addr).1
}

/// The address that a command sent in `mode` names: the address bytes after
/// the opcode, most significant first, and in 1-byte mode bit 3 of the
/// opcode as address bit 8.
pub open spec fn named_address(cmd: Seq<u8>, mode: AddressMode) -> int {
    match mode {
        AddressMode::OneByte => (if cmd[0] & 0x08u8 != 0 { 0x100int } else { 0 }) + cmd[1],
        AddressMode::TwoByte => cmd[1] * 0x100 + cmd[2],
        AddressMode::ThreeByte => cmd[1] * 0x10000 + cmd[2] * 0x100 + cmd[3],
    }
}

/// A command of `opcode` at `addr` on a device of `capacity` bytes sends
/// the opcode, then the address in as many bytes as the capacity needs,
/// most significant first; the address it names is `addr` itself for every
/// address of the device (for READ and WRITE, whose bit 3 is clear, the
/// opcode keeps its other bits).
pub proof fn lemma_eeprom_cmd_names_address(opcode: u8, capacity: u32, addr: u32)
    requires
        addr < capacity <= 0x1000000,
        opcode & 0x08u8 == 0,
    ensures
        eeprom_cmd(opcode, mode_for_capacity(capacity), addr).len() == 1 + mode_address_bytes(
            mode_for_capacity(capacity),
        ),
        named_address(eeprom_cmd(opcode, mode_for_capacity(capacity), addr), mode_for_capacity(capacity))
            == addr,
        eeprom_cmd(opcode, mode_for_capacity(capacity), addr)[0] & 0xF7u8 == opcode,
        mode_for_capacity(capacity) is TwoByte ==> capacity > 512,
        mode_for_capacity(capacity) is ThreeByte ==> capacity > 0x10000,
{
    let b0 = (addr >> 16u32) as u8;
    let b1 = (addr >> 8u32) as u8;
    let b2 = addr as u8;
    let cmd = eeprom_cmd(opcode, mode_for_capacity(capacity), addr);
    if capacity <= 512 {
        let hi: u8 = if addr >= 256 { 0x08u8 } else { 0x00u8 };
        assert((opcode | hi) & 0x08u8 != 0 <==> hi == 0x08u8) by (bit_vector)
            requires
                opcode & 0x08u8 == 0,
                hi == 0x08u8 || hi == 0x00u8,
        ;
        assert((opcode | hi) & 0xF7u8 == opcode) by (bit_vector)
            requires
                opcode & 0x08u8 == 0,
                hi == 0x08u8 || hi == 0x00u8,
        ;
        assert(b2 as u32 + (if addr >= 256u32 { 256u32 } else { 0u32 }) == addr) by (bit_vector)
            requires
                b2 == addr as u8,
                addr < 512u32,
        ;
    } else {
        assert((opcode | 0x00u8) & 0xF7u8 == opcode) by (bit_vector)
            requires
                opcode & 0x08u8 == 0,
        ;
        if capacity <= 0x10000 {
            assert(b1 as u32 * 0x100u32 + b2 as u32 == addr) by (bit_vector)
                requires
                    b1 == (addr >> 8u32) as u8,
                    b2 == addr as u8,
                    addr < 0x10000u32,
            ;
        }
        assert(b0 as u32 * 0x10000u32 + b1 as u32 * 0x100u32 + b2 as u32 == addr) by (bit_vector)
            requires
                b0 == (addr >> 16u32) as u8,
                b1 == (addr >> 8u32) as u8,
                b2 == addr as u8,
                addr < 0x1000000u32,
        ;
    }
}

/// The EEPROM stayed busy through the whole poll budget at the end of `ops`.
pub open spec fn eeprom_timed_out(ops: Seq<BusOp>) -> bool {
    timed_out(ops, eeprom_status_query(), STATUS_EEPROM_WIP, EEPROM_POLL_BUDGET as int)
}

/// The READ STATUS query.
pub open spec fn eeprom_status_query() -> Seq<u8> {
    seq![CMD_EEPROM_RDSR]
}

/// `seg` ends with a transaction that sent `cmd` and received `rx` (what
/// comes before it are attempts that failed).
pub open spec fn ends_with_query(seg: Seq<BusOp>, cmd: Seq<u8>, rx: Seq<u8>) -> bool {
    let m = cmd.len() + rx.len() + 2;
    &&& seg.len() >= m
    &&& query_frame(seg.subrange(seg.len() - m, seg.len() as int), cmd, rx)
}

/// `ops` reads `data` from the `length` bytes at `address`, in pieces of at
/// most one chunk, each read from where the previous one ended.
pub open spec fn eeprom_read_traffic(
    ops: Seq<BusOp>,
    mode: AddressMode,
    address: u32,
    length: int,
    data: Seq<u8>,
    segs: Seq<Seq<BusOp>>,
    chunks: Seq<Seq<u8>>,
) -> bool {
    &&& ops == concat(segs)
    &&& segs.len() == chunks.len()
    &&& data == concat(chunks)
    &&& data.len() == length
    &&& forall|j: int|
        0 <= j < chunks.len() ==> 0 < (#[trigger] chunks[j]).len() <= EEPROM_READ_CHUNK
            && ends_with_query(
            segs[j],
            eeprom_cmd(CMD_EEPROM_READ, mode, (address + concat(chunks.take(j)).len()) as u32),
            chunks[j],
        )
}

/// `ops` reads `data` from the `length` bytes at `address`.
pub open spec fn eeprom_read_result(
    ops: Seq<BusOp>,
    mode: AddressMode,
    address: u32,
    length: int,
    data: Seq<u8>,
) -> bool {
    exists|segs: Seq<Seq<BusOp>>, chunks: Seq<Seq<u8>>|
        #[trigger] eeprom_read_traffic(ops, mode, address, length, data, segs, chunks)
}

/// `seg` writes `bytes` at `addr`: write enable, write, wait.
pub open spec fn eeprom_write_segment(
    seg: Seq<BusOp>,
    mode: AddressMode,
    addr: u32,
    bytes: Seq<u8>,
) -> bool {
    let b = 3 + eeprom_cmd(CMD_EEPROM_WRITE, mode, addr).len() as int + bytes.len() as int + 2;
    &&& seg.len() >= b
    &&& command_frame(seg.subrange(0, 3), seq![CMD_EEPROM_WREN])
    &&& command_frame(seg.subrange(3, b), eeprom_cmd(CMD_EEPROM_WRITE, mode, addr) + bytes)
    &&& polls_until_ready(
        seg.subrange(b, seg.len() as int),
        eeprom_status_query(),
        STATUS_EEPROM_WIP,
    )
}

/// Bytes written in one go at `addr` when `remaining` bytes are left: up to
/// the end of the page.
pub open spec fn eeprom_piece_len(addr: int, remaining: int, page_size: int) -> int {
    vstd::math::min(page_size - addr % page_size, remaining)
}

/// The reports of a write of `total` bytes at `addr` in pages of
/// `page_size`, from `done` bytes on: after each page piece, the bytes
/// written so far.
pub open spec fn eeprom_write_reports(addr: int, page_size: int, done: nat, total: nat) -> Seq<Progress>
    decreases total - done,
{
    if done >= total {
        Seq::empty()
    } else {
        let next = done + eeprom_piece_len(addr + done, total - done, page_size);
        if next <= done {
            Seq::empty()
        } else {
            seq![Progress { current: next as u64, total: total as u64 }] + eeprom_write_reports(
                addr,
                page_size,
                next as nat,
                total,
            )
        }
    }
}

/// One step of `eeprom_write_reports`.
proof fn lemma_eeprom_write_reports_next(addr: int, page_size: int, done: nat, total: nat)
    requires
        done < total,
        page_size > 0,
    ensures
        eeprom_write_reports(addr, page_size, done, total) == seq![
            Progress {
                current: (done + eeprom_piece_len(addr + done, total - done, page_size)) as u64,
                total: total as u64,
            },
        ] + eeprom_write_reports(
            addr,
            page_size,
            (done + eeprom_piece_len(addr + done, total - done, page_size)) as nat,
            total,
        ),
{
    assert(eeprom_piece_len(addr + done, total - done, page_size) > 0);
}

/// The size of the pieces a read is done in, for a programmer that handles
/// `bulk` bytes in one go.
pub open spec fn eeprom_read_step(bulk: nat) -> nat {
    if bulk < EEPROM_READ_CHUNK {
        bulk
    } else {
        EEPROM_READ_CHUNK as nat
    }
}

/// Each segment of `segs` writes the page piece of `data` that starts at the
/// matching offset of `offs`, and the next piece starts where it ends.
pub open spec fn eeprom_write_pieces(
    mode: AddressMode,
    page_size: int,
    address: u32,
    data: Seq<u8>,
    segs: Seq<Seq<BusOp>>,
    offs: Seq<int>,
) -> bool {
    &&& offs.len() == segs.len() + 1
    &&& offs[0] == 0
    &&& forall|j: int|
        #![trigger segs[j]]
        #![trigger offs[j]]
        0 <= j < segs.len() ==> offs[j + 1] == offs[j] + eeprom_piece_len(
            address + offs[j],
            data.len() - offs[j],
            page_size,
        ) && eeprom_write_segment(
            segs[j],
            mode,
            (address + offs[j]) as u32,
            data.subrange(offs[j], offs[j + 1]),
        )
}

/// `ops` writes `data` at `address`, page piece by page piece.
pub open spec fn eeprom_write_data_result(
    ops: Seq<BusOp>,
    mode: AddressMode,
    page_size: int,
    address: u32,
    data: Seq<u8>,
) -> bool {
    exists|segs: Seq<Seq<BusOp>>, offs: Seq<int>|
        #![trigger eeprom_write_pieces(mode, page_size, address, data, segs, offs)]
        ops == concat(segs) && offs.last() == data.len() && eeprom_write_pieces(
            mode,
            page_size,
            address,
            data,
            segs,
            offs,
        )
}

/// `ops` writes `data` at `address` and, when `verify` is set, then reads the
/// same range back and finds `data` there.
pub open spec fn eeprom_write_result(
    ops: Seq<BusOp>,
    mode: AddressMode,
    page_size: int,
    address: u32,
    data: Seq<u8>,
    verify: bool,
) -> bool {
    exists|k: int|
        0 <= k <= ops.len() && #[trigger] eeprom_write_data_result(
            ops.take(k),
            mode,
            page_size,
            address,
            data,
        ) && if verify {
            eeprom_read_result(ops.skip(k), mode, address, data.len() as int, data)
        } else {
            k == ops.len()
        }
}

/// `ops` fills the whole `capacity` with 0xFF, one page at a time from address 0.
pub open spec fn eeprom_fill_result(
    ops: Seq<BusOp>,
    mode: AddressMode,
    page_size: int,
    capacity: int,
) -> bool {
    eeprom_write_data_result(ops, mode, page_size, 0, Seq::new(capacity as nat, |i: int| 0xFFu8))
}

/// One more written piece extends the pieces.
proof fn lemma_write_pieces_push(
    mode: AddressMode,
    page_size: int,
    address: u32,
    data: Seq<u8>,
    segs: Seq<Seq<BusOp>>,
    offs: Seq<int>,
    seg: Seq<BusOp>,
    n: int,
)
    requires
        eeprom_write_pieces(mode, page_size, address, data, segs, offs),
        n == eeprom_piece_len(address + offs.last(), data.len() - offs.last(), page_size),
        eeprom_write_segment(
            seg,
            mode,
            (address + offs.last()) as u32,
            data.subrange(offs.last(), offs.last() + n),
        ),
    ensures
        eeprom_write_pieces(
            mode,
            page_size,
            address,
            data,
            segs.push(seg),
            offs.push(offs.last() + n),
        ),
{
    let s2 = segs.push(seg);
    let o2 = offs.push(offs.last() + n);
    assert forall|j: int|
        #![trigger s2[j]]
        #![trigger o2[j]]
        0 <= j < s2.len() implies o2[j + 1] == o2[j] + eeprom_piece_len(
            address + o2[j],
            data.len() - o2[j],
            page_size,
        ) && eeprom_write_segment(
        s2[j],
        mode,
        (address + o2[j]) as u32,
        data.subrange(o2[j], o2[j + 1]),
    ) by {
        if j < segs.len() {
            assert(s2[j] == segs[j]);
            assert(o2[j] == offs[j]);
            assert(o2[j + 1] == offs[j + 1]);
        } else {
            assert(s2[j] == seg);
            assert(o2[j] == offs.last());
            assert(o2[j + 1] == offs.last() + n);
        }
    }
    assert(o2[0] == offs[0]);
}

/// `ops` writes `value` to the status register: write enable, WRITE STATUS, wait.
pub open spec fn eeprom_status_write_traffic(ops: Seq<BusOp>, value: u8) -> bool {
    &&& ops.len() >= 7
    &&& command_frame(ops.subrange(0, 3), seq![CMD_EEPROM_WREN])
    &&& command_frame(ops.subrange(3, 7), seq![CMD_EEPROM_WRSR, value])
    &&& polls_until_ready(
        ops.subrange(7, ops.len() as int),
        eeprom_status_query(),
        STATUS_EEPROM_WIP,
    )
}

/// SPI EEPROM protocol handler
pub struct SpiEeprom<P: Programmer> {
    programmer: P,
    spec: ChipSpec,
    address_mode: AddressMode,
    calls: Ghost<Seq<FlashCall>>,
    reports: Ghost<Seq<Progress>>,
}

impl<P: Programmer> SpiEeprom<P> {
    /// The programmer the chip is reached through.
    pub closed spec fn device(&self) -> P {
        self.programmer
    }

    /// The chip description.
    pub closed spec fn chip(&self) -> ChipSpec {
        self.spec
    }

    /// The address mode in use.
    /// Everything handed to the progress callbacks of the operations so far,
    /// oldest first.
    pub closed spec fn progress(&self) -> Seq<Progress> {
        self.reports@
    }

    /// Gives back the programmer the chip was reached through.
    pub fn into_device(self) -> (p: P)
        ensures
            p == self.device(),
    {
        self.programmer
    }

    pub closed spec fn mode(&self) -> AddressMode {
        self.address_mode
    }

    pub fn new(programmer: P, spec: ChipSpec) -> (r: Self)
        ensures
            r.device() == programmer,
            r.chip() == spec,
            r.calls() == Seq::<FlashCall>::empty(),
            r.mode() == mode_for_capacity(spec.capacity.0),
            r.progress() == Seq::<Progress>::empty(),
    {
        let address_mode = AddressMode::from_capacity(spec.capacity.as_bytes());
        Self { programmer, spec, address_mode, calls: Ghost(Seq::empty()), reports: Ghost(Seq::empty()) }
    }

    /// Get chip specification
    pub fn spec(&self) -> (s: &ChipSpec)
        ensures
            *s == self.chip(),
    {
        &self.spec
    }

    /// Get address mode
    pub fn address_mode(&self) -> (m: AddressMode)
        ensures
            m == self.mode(),
    {
        self.address_mode
    }

    // =========================================================================
    // Internal Helper Methods
    // =========================================================================

    /// Poll the status register until the write-in-progress bit clears.
    fn wait_ready(&mut self) -> (r: Result<()>)
        requires
            old(self).programmer.wf(),
        ensures
            final(self).programmer.wf(),
            final(self).spec == old(self).spec,
            final(self).address_mode == old(self).address_mode,
            extends(old(self).programmer.log(), final(self).programmer.log()),
            r is Ok ==> polls_until_ready(
                added(old(self).programmer.log(), final(self).programmer.log()),
                eeprom_status_query(),
                STATUS_EEPROM_WIP,
            ),
            r is Err ==> faulted(old(self).programmer.log(), final(self).programmer.log()) || (r matches Err(
                Error::Timeout,
            ) && eeprom_timed_out(added(old(self).programmer.log(), final(self).programmer.log()))),
    {
        let ghost l0 = self.programmer.log();
        let mut polls: u32 = 0;
        loop
            invariant
                self.programmer.wf(),
                self.spec == old(self).spec,
                self.address_mode == old(self).address_mode,
                l0 == old(self).programmer.log(),
                extends(l0, self.programmer.log()),
                busy_polls(
                    added(l0, self.programmer.log()),
                    eeprom_status_query(),
                    STATUS_EEPROM_WIP,
                ),
                added(l0, self.programmer.log()).len() == polls * 4,
                polls < EEPROM_POLL_BUDGET,
            decreases EEPROM_POLL_BUDGET - polls,
        {
            let ghost lb = self.programmer.log();
            let status = self.read_status()?;
            proof {
                lemma_added_trans(l0, lb, self.programmer.log());
                assert(added(lb, self.programmer.log())[2] == added(
                    lb,
                    self.programmer.log(),
                ).subrange(2, 3)[0]);
            }
            if status & STATUS_EEPROM_WIP == 0 {
                proof {
                    lemma_polls_until_ready(
                        added(l0, lb),
                        added(lb, self.programmer.log()),
                        eeprom_status_query(),
                        STATUS_EEPROM_WIP,
                    );
                }
                return Ok(());
            }
            proof {
                lemma_busy_polls_push(
                    added(l0, lb),
                    added(lb, self.programmer.log()),
                    eeprom_status_query(),
                    STATUS_EEPROM_WIP,
                );
            }
            polls = polls + 1;
            if polls >= EEPROM_POLL_BUDGET {
                proof {
                    let a = added(l0, self.programmer.log());
                    assert(eeprom_status_query().len() == 1);
                    assert(a.subrange(0, a.len() as int) =~= a);
                }
                return Err(Error::Timeout);
            }
            self.programmer.delay_us(EEPROM_POLL_INTERVAL_US);
        }
    }

    /// READ STATUS: the status register.
    fn read_status(&mut self) -> (r: Result<u8>)
        requires
            old(self).programmer.wf(),
        ensures
            final(self).programmer.wf(),
            final(self).spec == old(self).spec,
            final(self).address_mode == old(self).address_mode,
            extends(old(self).programmer.log(), final(self).programmer.log()),
            r is Ok ==> query_frame(
                added(old(self).programmer.log(), final(self).programmer.log()),
                eeprom_status_query(),
                seq![r->Ok_0],
            ),
            r is Err ==> faulted(old(self).programmer.log(), final(self).programmer.log()),
    {
        let ghost l0 = self.programmer.log();
        self.programmer.set_cs(true)?;
        let ghost l1 = self.programmer.log();
        let cmd = vec![CMD_EEPROM_RDSR];
        self.programmer.spi_write(cmd.as_slice())?;
        let ghost l2 = self.programmer.log();
        let data = self.programmer.spi_read(1)?;
        let ghost l3 = self.programmer.log();
        self.programmer.set_cs(false)?;
        proof {
            assert(data@ =~= seq![data@[0]]);
            assert(cmd@ =~= eeprom_status_query());
            lemma_query_frame(l0, l1, l2, l3, self.programmer.log(), cmd@, data@);
        }
        Ok(data[0])
    }

    /// WRITE ENABLE.
    fn write_enable(&mut self) -> (r: Result<()>)
        requires
            old(self).programmer.wf(),
        ensures
            final(self).programmer.wf(),
            final(self).spec == old(self).spec,
            final(self).address_mode == old(self).address_mode,
            extends(old(self).programmer.log(), final(self).programmer.log()),
            r is Ok ==> command_frame(
                added(old(self).programmer.log(), final(self).programmer.log()),
                seq![CMD_EEPROM_WREN],
            ),
            r is Err ==> faulted(old(self).programmer.log(), final(self).programmer.log()),
    {
        let ghost l0 = self.programmer.log();
        self.programmer.set_cs(true)?;
        let ghost l1 = self.programmer.log();
        let cmd = vec![CMD_EEPROM_WREN];
        self.programmer.spi_write(cmd.as_slice())?;
        let ghost l2 = self.programmer.log();
        self.programmer.set_cs(false)?;
        proof {
            lemma_command_frame(l0, l1, l2, self.programmer.log(), cmd@);
        }
        Ok(())
    }

    /// Convert address to bytes and return a command mask (for bits embedded in command)
    fn addr_to_bytes(&self, addr: u32) -> (r: (u8, Vec<u8>))
        ensures
            r.0 == eeprom_addr(self.address_mode, addr).0,
            r.1@ == eeprom_addr(self.address_mode, addr).1,
    {
        match self.address_mode {
            AddressMode::OneByte => {
                // For devices with 512 bytes (like 25040), bit 3 of the command byte
                // is sometimes used as the 9th address bit (A8).
                let cmd_mask = if addr >= 256 {
                    0x08
                } else {
                    0x00
                };
                let v = vec![addr as u8];
                assert(v@ =~= eeprom_addr(self.address_mode, addr).1);
                (cmd_mask, v)
            },
            AddressMode::TwoByte => {
                let v = vec![(addr >> 8) as u8, addr as u8];
                assert(v@ =~= eeprom_addr(self.address_mode, addr).1);
                (0x00, v)
            },
            AddressMode::ThreeByte => {
                let v = vec![(addr >> 16) as u8, (addr >> 8) as u8, addr as u8];
                assert(v@ =~= eeprom_addr(self.address_mode, addr).1);
                (0x00, v)
            },
        }
    }

    /// `opcode` with the command bits of `addr`, then the address bytes.
    fn command_for(&self, opcode: u8, addr: u32) -> (r: Vec<u8>)
        ensures
            r@ == eeprom_cmd(opcode, self.address_mode, addr),
    {
        let (cmd_mask, addr_bytes) = self.addr_to_bytes(addr);
        let mut cmd = vec![opcode | cmd_mask];
        extend_prefix(&mut cmd, addr_bytes.as_slice(), addr_bytes.len());
        assert(addr_bytes@.subrange(0, addr_bytes@.len() as int) =~= addr_bytes@);
        cmd
    }

    /// Get page size for this EEPROM
    fn page_size(&self) -> (n: usize)
        ensures
            n == self.spec.layout.page_size,
    {
        self.spec.layout.page_size as usize
    }

    /// One transaction sending `cmd` and receiving `len` bytes, tried again
    /// after a failure up to `retries` times.
    fn transaction_with_retries(&mut self, cmd: &[u8], len: usize, retries: u32) -> (r: Result<
        Vec<u8>,
    >)
        requires
            old(self).programmer.wf(),
        ensures
            final(self).programmer.wf(),
            final(self).spec == old(self).spec,
            final(self).address_mode == old(self).address_mode,
            extends(old(self).programmer.log(), final(self).programmer.log()),
            r is Ok ==> r->Ok_0@.len() == len && ends_with_query(
                added(old(self).programmer.log(), final(self).programmer.log()),
                cmd@,
                r->Ok_0@,
            ),
            r is Err ==> faulted(old(self).programmer.log(), final(self).programmer.log()),
    {
        let ghost l0 = self.programmer.log();
        let mut attempts: u32 = 0;
        loop
            invariant
                self.programmer.wf(),
                self.spec == old(self).spec,
                self.address_mode == old(self).address_mode,
                l0 == old(self).programmer.log(),
                extends(l0, self.programmer.log()),
                attempts <= retries,
            decreases retries - attempts,
        {
            let ghost lb = self.programmer.log();
            match self.programmer.spi_transaction(cmd, len) {
                Ok(data) => {
                    proof {
                        lemma_added_trans(l0, lb, self.programmer.log());
                        let a = added(l0, self.programmer.log());
                        let m = cmd@.len() + data@.len() + 2;
                        assert(a.subrange(a.len() - m, a.len() as int) =~= added(
                            lb,
                            self.programmer.log(),
                        ));
                    }
                    return Ok(data);
                },
                Err(e) => {
                    proof {
                        lemma_added_trans(l0, lb, self.programmer.log());
                    }
                    if attempts < retries {
                        attempts = attempts + 1;
                    } else {
                        return Err(e);
                    }
                },
            }
        }
    }

    /// Write `piece` at `addr`: write enable, write, wait.
    fn write_piece(&mut self, addr: u32, piece: &[u8]) -> (r: Result<()>)
        requires
            old(self).programmer.wf(),
        ensures
            final(self).programmer.wf(),
            final(self).spec == old(self).spec,
            final(self).address_mode == old(self).address_mode,
            extends(old(self).programmer.log(), final(self).programmer.log()),
            r is Ok ==> eeprom_write_segment(
                added(old(self).programmer.log(), final(self).programmer.log()),
                old(self).address_mode,
                addr,
                piece@,
            ),
            r is Err ==> faulted(old(self).programmer.log(), final(self).programmer.log()) || (r matches Err(
                Error::Timeout,
            ) && eeprom_timed_out(added(old(self).programmer.log(), final(self).programmer.log()))),
    {
        let ghost lb = self.programmer.log();
        self.write_enable()?;
        let ghost l1 = self.programmer.log();

        // Build write command: CMD + Address + Data
        let mut cmd = self.command_for(CMD_EEPROM_WRITE, addr);
        let ghost head = cmd@;
        extend_prefix(&mut cmd, piece, piece.len());
        assert(piece@.subrange(0, piece@.len() as int) =~= piece@);

        self.programmer.spi_transaction_write(cmd.as_slice())?;
        let ghost l2 = self.programmer.log();
        let w = self.wait_ready();
        proof {
            if w is Err && !faulted(l2, self.programmer.log()) {
                lemma_added_trans(lb, l1, l2);
                lemma_timed_out_suffix(lb, l2, self.programmer.log(), eeprom_status_query(), STATUS_EEPROM_WIP, EEPROM_POLL_BUDGET as int);
            }
        }
        w?;
        proof {
            let le = self.programmer.log();
            lemma_added_trans(lb, l1, l2);
            lemma_added_trans(lb, l2, le);
            let seg = added(lb, le);
            let b = 3 + head.len() as int + piece@.len() as int + 2;
            assert(seg.subrange(0, 3) =~= added(lb, l1));
            assert(seg.subrange(3, b) =~= added(l1, l2));
            assert(seg.subrange(b, seg.len() as int) =~= added(l2, le));
        }
        Ok(())
    }
}

/// Geometry that the EEPROM protocol can work with: pages are not empty.
pub open spec fn eeprom_layout_ok(spec: ChipSpec) -> bool {
    spec.layout.page_size > 0
}

impl<P: Programmer> SpiEeprom<P> {
    #[verifier::spinoff_prover]
    fn read_op<F: Fn(Progress)>(
        &mut self,
        request: ReadRequest,
        on_progress: &F,
        reports: &mut Ghost<Seq<Progress>>,
    ) -> (r: Result<Vec<u8>>)
        requires
            old(self).inv(),
            read_fits(request),
            forall|p: Progress| #[trigger] on_progress.requires((p,)),
        ensures
            final(self).inv(),
            final(self).chip() == old(self).chip(),
            final(self).mode() == old(self).mode(),
            extends(old(self).device().log(), final(self).device().log()),
            r is Ok ==> r->Ok_0@.len() == request.length && eeprom_read_result(
                added(old(self).device().log(), final(self).device().log()),
                old(self).mode(),
                request.address.0,
                request.length as int,
                r->Ok_0@,
            ),
            r is Ok ==> final(reports)@ == old(reports)@ + step_reports(
                0,
                request.length as nat,
                eeprom_read_step(old(self).device().bulk_limit()),
            ),
            r is Err ==> faulted(old(self).device().log(), final(self).device().log()),
    {
        let ghost mode = self.address_mode;
        let address = request.address.as_u32();
        let length = request.length as usize;
        let ghost r0 = reports@;
        let ghost cs = eeprom_read_step(old(self).programmer.bulk_limit());

        // Split into smaller chunks for progress reporting
        let max = self.programmer.max_bulk_transfer_size();
        let chunk_size = if max < EEPROM_READ_CHUNK {
            max
        } else {
            EEPROM_READ_CHUNK
        };
        let mut result: Vec<u8> = Vec::new();
        let mut remaining = length;
        let mut current_offset: u32 = 0;
        let ghost l0 = self.programmer.log();
        let ghost mut segs: Seq<Seq<BusOp>> = Seq::empty();
        let ghost mut chunks: Seq<Seq<u8>> = Seq::empty();

        while remaining > 0
            invariant
                self.programmer.wf(),
                self.spec == old(self).spec,
                self.address_mode == old(self).address_mode,
                eeprom_layout_ok(self.spec),
                mode == self.address_mode,
                l0 == old(self).programmer.log(),
                extends(l0, self.programmer.log()),
                added(l0, self.programmer.log()) == concat(segs),
                address == request.address.0,
                length == request.length,
                address + length <= u32::MAX,
                0 < chunk_size <= EEPROM_READ_CHUNK,
                chunk_size == cs,
                reports@ + step_reports(result@.len(), length as nat, cs) == r0 + step_reports(
                    0,
                    length as nat,
                    cs,
                ),
                result@ == concat(chunks),
                result@.len() + remaining == length,
                current_offset == result@.len(),
                segs.len() == chunks.len(),
                forall|j: int|
                    0 <= j < chunks.len() ==> 0 < (#[trigger] chunks[j]).len()
                        <= EEPROM_READ_CHUNK && ends_with_query(
                        segs[j],
                        eeprom_cmd(
                            CMD_EEPROM_READ,
                            mode,
                            (address + concat(chunks.take(j)).len()) as u32,
                        ),
                        chunks[j],
                    ),
                forall|p: Progress| #[trigger] on_progress.requires((p,)),
            decreases remaining,
        {
            let read_size = if remaining < chunk_size {
                remaining
            } else {
                chunk_size
            };
            let current_addr = address + current_offset;
            let cmd = self.command_for(CMD_EEPROM_READ, current_addr);

            let ghost lb = self.programmer.log();
            let chunk = self.transaction_with_retries(
                cmd.as_slice(),
                read_size,
                request.retry_count,
            )?;
            proof {
                let old_chunks = chunks;
                lemma_added_trans(l0, lb, self.programmer.log());
                lemma_concat_push(segs, added(lb, self.programmer.log()));
                lemma_concat_push(chunks, chunk@);
                segs = segs.push(added(lb, self.programmer.log()));
                chunks = chunks.push(chunk@);
                assert forall|j: int| 0 <= j < chunks.len() implies 0 < (
                #[trigger] chunks[j]).len() <= EEPROM_READ_CHUNK && ends_with_query(
                    segs[j],
                    eeprom_cmd(
                        CMD_EEPROM_READ,
                        mode,
                        (address + concat(chunks.take(j)).len()) as u32,
                    ),
                    chunks[j],
                ) by {
                    if j < old_chunks.len() {
                        assert(chunks.take(j) =~= old_chunks.take(j));
                    } else {
                        assert(chunks.take(j) =~= old_chunks);
                    }
                }
            }
            extend_prefix(&mut result, chunk.as_slice(), chunk.len());
            assert(chunk@.subrange(0, chunk@.len() as int) =~= chunk@);

            remaining = remaining - read_size;
            current_offset = current_offset + read_size as u32;

            let ghost done = (result@.len() - read_size) as nat;
            let p = Progress::new(result.len() as u64, length as u64);
            proof {
                let rest = step_reports(result@.len(), length as nat, cs);
                assert(step_reports(done, length as nat, cs) == seq![p] + rest);
                assert(reports@.push(p) + rest =~= reports@ + (seq![p] + rest));
            }
            report(on_progress, p, reports);
        }
        assert(step_reports(length as nat, length as nat, cs) =~= Seq::<Progress>::empty());
        assert(reports@ + Seq::<Progress>::empty() =~= reports@);
        proof {
            assert(eeprom_read_traffic(
                added(l0, self.programmer.log()),
                mode,
                address,
                request.length as int,
                result@,
                segs,
                chunks,
            ));
        }
        Ok(result)
    }

    #[verifier::spinoff_prover]
    #[verifier::rlimit(30)]
    fn write_op<F: Fn(Progress)>(
        &mut self,
        request: WriteRequest,
        on_progress: &F,
        reports: &mut Ghost<Seq<Progress>>,
    ) -> (r: Result<()>)
        requires
            old(self).inv(),
            write_fits(request),
            forall|p: Progress| #[trigger] on_progress.requires((p,)),
        ensures
            final(self).inv(),
            final(self).chip() == old(self).chip(),
            final(self).mode() == old(self).mode(),
            extends(old(self).device().log(), final(self).device().log()),
            r is Ok ==> eeprom_write_result(
                added(old(self).device().log(), final(self).device().log()),
                old(self).mode(),
                old(self).chip().layout.page_size as int,
                request.address.0,
                request.data@,
                request.verify,
            ),
            r is Ok ==> final(reports)@ == old(reports)@ + eeprom_write_reports(
                request.address.0 as int,
                old(self).chip().layout.page_size as int,
                0,
                request.data@.len(),
            ),
            r is Err ==> faulted(old(self).device().log(), final(self).device().log()) || (r matches Err(
                Error::Timeout,
            ) && eeprom_timed_out(added(old(self).device().log(), final(self).device().log()))) || (r matches Err(
                Error::VerificationFailed { address, expected, actual },
            ) && request.verify && request.address.0 <= address < request.address.0 + request.data@.len()
                && expected == request.data@[address - request.address.0] && actual != expected),
    {
        let ghost mode = self.address_mode;
        let data = request.data;
        let page_size = self.page_size();
        let address = request.address.as_u32();
        let mut offset: usize = 0;
        let mut current_addr = address;
        let ghost l0 = self.programmer.log();
        let ghost mut segs: Seq<Seq<BusOp>> = Seq::empty();
        let ghost mut offs: Seq<int> = seq![0int];
        let ghost r0 = reports@;

        while offset < data.len()
            invariant
                reports@ + eeprom_write_reports(address as int, page_size as int, offset as nat, data@.len())
                    == r0 + eeprom_write_reports(address as int, page_size as int, 0, data@.len()),
                self.programmer.wf(),
                self.spec == old(self).spec,
                self.address_mode == old(self).address_mode,
                eeprom_layout_ok(self.spec),
                mode == self.address_mode,
                page_size == self.spec.layout.page_size,
                l0 == old(self).programmer.log(),
                extends(l0, self.programmer.log()),
                added(l0, self.programmer.log()) == concat(segs),
                data@ == request.data@,
                address == request.address.0,
                address + data@.len() <= u32::MAX,
                offset <= data@.len(),
                current_addr == address + offset,
                offs.last() == offset,
                eeprom_write_pieces(mode, page_size as int, address, data@, segs, offs),
                forall|p: Progress| #[trigger] on_progress.requires((p,)),
            decreases data@.len() - offset,
        {
            // Bytes left in the current page
            let page_offset = (current_addr as usize) % page_size;
            let bytes_in_page = page_size - page_offset;
            let bytes_to_write = if bytes_in_page < data.len() - offset {
                bytes_in_page
            } else {
                data.len() - offset
            };

            let piece = vstd::slice::slice_subrange(data, offset, offset + bytes_to_write);
            let ghost lb = self.programmer.log();
            let w = self.write_piece(current_addr, piece);
            proof {
                if w is Err && !faulted(lb, self.programmer.log()) {
                    lemma_timed_out_suffix(l0, lb, self.programmer.log(), eeprom_status_query(), STATUS_EEPROM_WIP, EEPROM_POLL_BUDGET as int);
                }
            }
            w?;
            proof {
                let le = self.programmer.log();
                let seg = added(lb, le);
                lemma_added_trans(l0, lb, le);
                lemma_concat_push(segs, seg);
                lemma_write_pieces_push(
                    mode,
                    page_size as int,
                    address,
                    data@,
                    segs,
                    offs,
                    seg,
                    bytes_to_write as int,
                );
                segs = segs.push(seg);
                offs = offs.push(offset + bytes_to_write);
            }

            let ghost done = offset as nat;
            assert(bytes_to_write == eeprom_piece_len(
                address + offset,
                data@.len() - offset,
                page_size as int,
            ));
            offset = offset + bytes_to_write;
            current_addr = current_addr + bytes_to_write as u32;

            let p = Progress::new(offset as u64, data.len() as u64);
            proof {
                lemma_eeprom_write_reports_next(address as int, page_size as int, done, data@.len());
                lemma_report_next(
                    reports@,
                    p,
                    eeprom_write_reports(address as int, page_size as int, done, data@.len()),
                    eeprom_write_reports(address as int, page_size as int, offset as nat, data@.len()),
                );
            }
            report(on_progress, p, reports);
        }
        assert(eeprom_write_reports(address as int, page_size as int, data@.len(), data@.len())
            =~= Seq::<Progress>::empty());
        assert(reports@ + Seq::<Progress>::empty() =~= reports@);

        let ghost lw = self.programmer.log();
        proof {
            assert(eeprom_write_data_result(
                added(l0, lw),
                mode,
                page_size as int,
                address,
                data@,
            ));
        }

        if request.verify {
            let verify_req = ReadRequest {
                address: request.address,
                length: request.data.len() as u32,
                use_ecc: request.use_ecc,
                ignore_ecc_errors: request.ignore_ecc_errors,
                oob_mode: request.oob_mode,
                bad_block_strategy: request.bad_block_strategy,
                bbt: None,
                retry_count: request.retry_count,
            };
            let read_back = self.read(verify_req, &|_p: Progress| {})?;
            let mut i: usize = 0;
            while i < read_back.len()
                invariant
                    self.programmer.wf(),
                    self.spec == old(self).spec,
                    self.address_mode == old(self).address_mode,
                    eeprom_layout_ok(self.spec),
                    l0 == old(self).programmer.log(),
                    extends(l0, self.programmer.log()),
                    read_back@.len() == data@.len(),
                    data@ == request.data@,
                    address == request.address.0,
                    request.verify,
                    address + data@.len() <= u32::MAX,
                    i <= read_back@.len(),
                    forall|j: int| 0 <= j < i ==> read_back@[j] == data@[j],
                decreases read_back@.len() - i,
            {
                let actual = read_back[i];
                let expected = data[i];
                if actual != expected {
                    return Err(
                        Error::VerificationFailed { address: address + i as u32, expected, actual },
                    );
                }
                i = i + 1;
            }
            proof {
                let le = self.programmer.log();
                let ops = added(l0, le);
                let k = added(l0, lw).len() as int;
                lemma_added_trans(l0, lw, le);
                assert(ops.take(k) =~= added(l0, lw));
                assert(ops.skip(k) =~= added(lw, le));
                assert(read_back@ =~= data@);
                assert(eeprom_write_data_result(ops.take(k), mode, page_size as int, address, data@));
            }
        } else {
            proof {
                let ops = added(l0, lw);
                assert(ops.take(ops.len() as int) =~= ops);
                assert(eeprom_write_data_result(
                    ops.take(ops.len() as int),
                    mode,
                    page_size as int,
                    address,
                    data@,
                ));
            }
        }
        Ok(())
    }

    /// SPI EEPROMs need no erase before a write; a "full erase" writes 0xFF
    /// to every byte of the chip, whatever range the request names.
    #[verifier::spinoff_prover]
    #[verifier::rlimit(40)]
    fn erase_op<F: Fn(Progress)>(
        &mut self,
        _request: EraseRequest,
        on_progress: &F,
        reports: &mut Ghost<Seq<Progress>>,
    ) -> (r: Result<()>)
        requires
            old(self).inv(),
            erase_fits(_request),
            forall|p: Progress| #[trigger] on_progress.requires((p,)),
        ensures
            final(self).inv(),
            final(self).chip() == old(self).chip(),
            final(self).mode() == old(self).mode(),
            extends(old(self).device().log(), final(self).device().log()),
            r is Ok ==> eeprom_fill_result(
                added(old(self).device().log(), final(self).device().log()),
                old(self).mode(),
                old(self).chip().layout.page_size as int,
                old(self).chip().capacity.0 as int,
            ),
            r is Ok ==> final(reports)@ == old(reports)@ + step_reports(
                0,
                old(self).chip().capacity.0 as nat,
                old(self).chip().layout.page_size as nat,
            ),
            r is Err ==> faulted(old(self).device().log(), final(self).device().log()) || (r matches Err(
                Error::Timeout,
            ) && eeprom_timed_out(added(old(self).device().log(), final(self).device().log()))),
    {
        let ghost mode = self.address_mode;
        let capacity = self.spec.capacity.as_bytes() as usize;
        let page_size = self.page_size();
        let fill_data: Vec<u8> = vec![0xFFu8; page_size];
        let ghost all = Seq::new(capacity as nat, |i: int| 0xFFu8);
        let ghost r0 = reports@;

        let mut offset: usize = 0;
        let ghost l0 = self.programmer.log();
        let ghost mut segs: Seq<Seq<BusOp>> = Seq::empty();
        let ghost mut offs: Seq<int> = seq![0int];

        while offset < capacity
            invariant
                self.programmer.wf(),
                self.spec == old(self).spec,
                self.address_mode == old(self).address_mode,
                eeprom_layout_ok(self.spec),
                mode == self.address_mode,
                page_size == self.spec.layout.page_size,
                capacity == self.spec.capacity.0,
                capacity <= u32::MAX,
                fill_data@ == Seq::new(page_size as nat, |i: int| 0xFFu8),
                all == Seq::new(capacity as nat, |i: int| 0xFFu8),
                l0 == old(self).programmer.log(),
                extends(l0, self.programmer.log()),
                added(l0, self.programmer.log()) == concat(segs),
                offset <= capacity,
                offset == capacity || offset % page_size == 0,
                reports@ + step_reports(offset as nat, capacity as nat, page_size as nat) == r0
                    + step_reports(0, capacity as nat, page_size as nat),
                offs.last() == offset,
                eeprom_write_pieces(mode, page_size as int, 0, all, segs, offs),
                forall|p: Progress| #[trigger] on_progress.requires((p,)),
            decreases capacity - offset,
        {
            let bytes_to_write = if page_size < capacity - offset {
                page_size
            } else {
                capacity - offset
            };
            let piece = vstd::slice::slice_subrange(fill_data.as_slice(), 0, bytes_to_write);
            assert(piece@ =~= all.subrange(offset as int, offset + bytes_to_write));
            assert((offset as int) % (page_size as int) == 0);
            assert(bytes_to_write == eeprom_piece_len(
                0 + offset,
                all.len() - offset,
                page_size as int,
            ));

            let ghost lb = self.programmer.log();
            let w = self.write_piece(offset as u32, piece);
            proof {
                if w is Err && !faulted(lb, self.programmer.log()) {
                    lemma_timed_out_suffix(l0, lb, self.programmer.log(), eeprom_status_query(), STATUS_EEPROM_WIP, EEPROM_POLL_BUDGET as int);
                }
            }
            w?;
            proof {
                let le = self.programmer.log();
                let seg = added(lb, le);
                lemma_added_trans(l0, lb, le);
                lemma_concat_push(segs, seg);
                lemma_write_pieces_push(
                    mode,
                    page_size as int,
                    0,
                    all,
                    segs,
                    offs,
                    seg,
                    bytes_to_write as int,
                );
                segs = segs.push(seg);
                offs = offs.push(offset + bytes_to_write);
            }

            let ghost done = offset as nat;
            offset = offset + bytes_to_write;
            proof {
                if offset < capacity {
                    assert(bytes_to_write == page_size);
                    assert((offset as int) % (page_size as int) == 0) by (nonlinear_arith)
                        requires
                            (offset - page_size) % (page_size as int) == 0,
                            page_size > 0,
                            offset >= page_size,
                    ;
                }
            }
            let p = Progress::new(offset as u64, capacity as u64);
            proof {
                lemma_step_reports_next(done, capacity as nat, page_size as nat, offset as nat);
                lemma_report_next(
                    reports@,
                    p,
                    step_reports(done, capacity as nat, page_size as nat),
                    step_reports(offset as nat, capacity as nat, page_size as nat),
                );
            }
            report(on_progress, p, reports);
        }
        assert(step_reports(capacity as nat, capacity as nat, page_size as nat) =~= Seq::<Progress>::empty());
        assert(reports@ + Seq::<Progress>::empty() =~= reports@);
        proof {
            assert(eeprom_write_data_result(
                added(l0, self.programmer.log()),
                mode,
                page_size as int,
                0,
                all,
            ));
        }
        Ok(())
    }

    fn get_status_op(&mut self) -> (r: Result<Vec<u8>>)
        requires
            old(self).inv(),
        ensures
            final(self).inv(),
            final(self).chip() == old(self).chip(),
            final(self).mode() == old(self).mode(),
            extends(old(self).device().log(), final(self).device().log()),
            r is Ok ==> query_frame(
                added(old(self).device().log(), final(self).device().log()),
                eeprom_status_query(),
                r->Ok_0@,
            ),
            r is Err ==> faulted(old(self).device().log(), final(self).device().log()),
    {
        let status = self.read_status()?;
        let v = vec![status];
        assert(v@ =~= seq![status]);
        Ok(v)
    }

    fn set_status_op(&mut self, status: &[u8]) -> (r: Result<()>)
        requires
            old(self).inv(),
        ensures
            final(self).inv(),
            final(self).chip() == old(self).chip(),
            final(self).mode() == old(self).mode(),
            extends(old(self).device().log(), final(self).device().log()),
            status@.len() == 0 ==> r is Ok && final(self).device().log() == old(
                self,
            ).device().log(),
            r is Ok && status@.len() > 0 ==> eeprom_status_write_traffic(
                added(old(self).device().log(), final(self).device().log()),
                status@[0],
            ),
    {
        if status.len() == 0 {
            return Ok(());
        }
        let ghost l0 = self.programmer.log();
        self.write_enable()?;
        let ghost l1 = self.programmer.log();
        let cmd = vec![CMD_EEPROM_WRSR, status[0]];
        self.programmer.spi_transaction_write(cmd.as_slice())?;
        let ghost l2 = self.programmer.log();
        let r = self.wait_ready();
        proof {
            let le = self.programmer.log();
            lemma_added_trans(l0, l1, l2);
            lemma_added_trans(l0, l2, le);
            let ops = added(l0, le);
            assert(ops.subrange(0, 3) =~= added(l0, l1));
            assert(ops.subrange(3, 7) =~= added(l1, l2));
            assert(ops.subrange(7, ops.len() as int) =~= added(l2, le));
            assert(cmd@ =~= seq![CMD_EEPROM_WRSR, status@[0]]);
        }
        r
    }
}

impl<P: Programmer> FlashOperation for SpiEeprom<P> {
    open spec fn inv(&self) -> bool {
        self.device().wf() && eeprom_layout_ok(self.chip())
    }

    closed spec fn calls(&self) -> Seq<FlashCall> {
        self.calls@
    }

    fn read<F: Fn(Progress)>(&mut self, request: ReadRequest, on_progress: &F) -> (r: Result<Vec<u8>>)
        ensures
            final(self).chip() == old(self).chip(),
            final(self).mode() == old(self).mode(),
            extends(old(self).device().log(), final(self).device().log()),
            r is Ok ==> r->Ok_0@.len() == request.length && eeprom_read_result(
                added(old(self).device().log(), final(self).device().log()),
                old(self).mode(),
                request.address.0,
                request.length as int,
                r->Ok_0@,
            ),
            r is Ok ==> final(self).progress() == old(self).progress() + step_reports(
                0,
                request.length as nat,
                eeprom_read_step(old(self).device().bulk_limit()),
            ),
            r is Err ==> faulted(old(self).device().log(), final(self).device().log()),
    {
        let ghost h = self.calls@;
        let ghost req = request;
        let mut reports = self.reports;
        let r = self.read_op(request, on_progress, &mut reports);
        self.reports = reports;
        self.calls = Ghost(h.push(read_call(req, r)));
        r
    }

    fn write<F: Fn(Progress)>(&mut self, request: WriteRequest, on_progress: &F) -> (r: Result<()>)
        ensures
            final(self).chip() == old(self).chip(),
            final(self).mode() == old(self).mode(),
            extends(old(self).device().log(), final(self).device().log()),
            r is Ok ==> eeprom_write_result(
                added(old(self).device().log(), final(self).device().log()),
                old(self).mode(),
                old(self).chip().layout.page_size as int,
                request.address.0,
                request.data@,
                request.verify,
            ),
            r is Ok ==> final(self).progress() == old(self).progress() + eeprom_write_reports(
                request.address.0 as int,
                old(self).chip().layout.page_size as int,
                0,
                request.data@.len(),
            ),
            r is Err ==> faulted(old(self).device().log(), final(self).device().log()) || (r matches Err(
                Error::Timeout,
            ) && eeprom_timed_out(added(old(self).device().log(), final(self).device().log()))) || (r matches Err(
                Error::VerificationFailed { address, expected, actual },
            ) && request.verify && request.address.0 <= address < request.address.0 + request.data@.len()
                && expected == request.data@[address - request.address.0] && actual != expected),
    {
        let ghost h = self.calls@;
        let ghost req = request;
        let mut reports = self.reports;
        let r = self.write_op(request, on_progress, &mut reports);
        self.reports = reports;
        self.calls = Ghost(h.push(write_call(req, r)));
        r
    }

    fn erase<F: Fn(Progress)>(&mut self, _request: EraseRequest, on_progress: &F) -> (r: Result<()>)
        ensures
            final(self).chip() == old(self).chip(),
            final(self).mode() == old(self).mode(),
            extends(old(self).device().log(), final(self).device().log()),
            r is Ok ==> eeprom_fill_result(
                added(old(self).device().log(), final(self).device().log()),
                old(self).mode(),
                old(self).chip().layout.page_size as int,
                old(self).chip().capacity.0 as int,
            ),
            r is Ok ==> final(self).progress() == old(self).progress() + step_reports(
                0,
                old(self).chip().capacity.0 as nat,
                old(self).chip().layout.page_size as nat,
            ),
            r is Err ==> faulted(old(self).device().log(), final(self).device().log()) || (r matches Err(
                Error::Timeout,
            ) && eeprom_timed_out(added(old(self).device().log(), final(self).device().log()))),
    {
        let ghost h = self.calls@;
        let ghost req = _request;
        let mut reports = self.reports;
        let r = self.erase_op(_request, on_progress, &mut reports);
        self.reports = reports;
        self.calls = Ghost(h.push(erase_call(req, r)));
        r
    }

    fn get_status(&mut self) -> (r: Result<Vec<u8>>)
        ensures
            final(self).chip() == old(self).chip(),
            final(self).mode() == old(self).mode(),
            extends(old(self).device().log(), final(self).device().log()),
            r is Ok ==> query_frame(
                added(old(self).device().log(), final(self).device().log()),
                eeprom_status_query(),
                r->Ok_0@,
            ),
            r is Err ==> faulted(old(self).device().log(), final(self).device().log()),
    {
        let ghost h = self.calls@;
        let r = self.get_status_op();
        self.calls = Ghost(h.push(get_status_call(r)));
        r
    }

    fn set_status(&mut self, status: &[u8]) -> (r: Result<()>)
        ensures
            final(self).chip() == old(self).chip(),
            final(self).mode() == old(self).mode(),
            extends(old(self).device().log(), final(self).device().log()),
            status@.len() == 0 ==> r is Ok && final(self).device().log() == old(
                self,
            ).device().log(),
            r is Ok && status@.len() > 0 ==> eeprom_status_write_traffic(
                added(old(self).device().log(), final(self).device().log()),
                status@[0],
            ),
    {
        let ghost h = self.calls@;
        let r = self.set_status_op(status);
        self.calls = Ghost(h.push(set_status_call(status@, r)));
        r
    }
}

} // verus!
