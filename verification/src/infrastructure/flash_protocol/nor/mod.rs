//! SPI NOR Flash Protocol Implementation
//!
//! NOR flash is read at any address with FAST READ, programmed in pieces
//! that never cross a 256-byte page, and erased in 64 KiB blocks; every
//! program or erase waits until the chip reports it is no longer busy.

use vstd::prelude::*;

use crate::domain::chip::ChipSpec;
use crate::domain::flash_operation::{
    erase_call, erase_fits, get_status_call, read_call, read_fits, set_status_call, write_call,
    write_fits, FlashCall,
};
use crate::domain::types::{
    count_reports, lemma_page_reports_next, lemma_report_next, page_reports, report, step_reports,
};
use crate::domain::{EraseRequest, FlashOperation, Progress, ReadRequest, WriteRequest};
use crate::error::{Error, Result};
use crate::infrastructure::flash_protocol::commands::{
    CMD_NOR_BLOCK_ERASE_64K, CMD_NOR_BLOCK_ERASE_64K_4B, CMD_NOR_FAST_READ, CMD_NOR_FAST_READ_4B,
    CMD_NOR_PAGE_PROGRAM, CMD_NOR_PAGE_PROGRAM_4B, CMD_NOR_READ, CMD_NOR_READ_4B,
    CMD_READ_STATUS_ALT, CMD_WRITE_ENABLE, NOR_CMD_WRSR, STATUS_NOR_WIP,
};
use crate::infrastructure::programmer::frames::{
    busy_polls, concat, div_ceil, div_ceil_u32, lemma_piece_start, extend_prefix, lemma_added_trans, lemma_busy_polls_push,
    lemma_command_frame, lemma_command_frame2, lemma_concat_push, lemma_polls_until_ready,
    lemma_query_frame, lemma_timed_out_suffix, polls_until_ready, timed_out,
};
use crate::infrastructure::programmer::traits::{
    added, clocked_out, command_frame, extends, faulted, query_frame, BusOp, Programmer,
};

verus! {

/// The NOR chip stayed busy through the whole poll budget at the end of `ops`.
pub open spec fn nor_timed_out(ops: Seq<BusOp>) -> bool {
    timed_out(ops, nor_status_query(), STATUS_NOR_WIP, NOR_POLL_BUDGET as int)
}

/// Microseconds between two status polls.
pub const NOR_POLL_INTERVAL_US: u32 = 100;

/// Status polls before giving up: 30 seconds at the poll interval (a block
/// erase can take long).
pub const NOR_POLL_BUDGET: u32 = 300000;

/// Largest piece read in one transaction.
pub const NOR_READ_CHUNK: usize = 32768;

/// Bytes in a NOR program page; one program never crosses a page boundary.
pub const NOR_PAGE_SIZE: usize = 256;

/// The address bytes of `addr`, most significant first: four bytes in
/// 4-byte mode, else the low three.
pub open spec fn nor_addr_bytes(addr: u32, four: bool) -> Seq<u8> {
    if four {
        seq![(addr >> 24u32) as u8, (addr >> 16u32) as u8, (addr >> 8u32) as u8, addr as u8]
    } else {
        seq![(addr >> 16u32) as u8, (addr >> 8u32) as u8, addr as u8]
    }
}

/// `cmd` carries `addr` after its opcode, most significant byte first: four
/// bytes in 4-byte mode, else the low three bytes of `addr`.
pub open spec fn carries_address(cmd: Seq<u8>, addr: u32, four: bool) -> bool {
    if four {
        &&& cmd.len() >= 5
        &&& cmd[1] * 0x1000000 + cmd[2] * 0x10000 + cmd[3] * 0x100 + cmd[4] == addr
    } else {
        &&& cmd.len() >= 4
        &&& cmd[1] * 0x10000 + cmd[2] * 0x100 + cmd[3] == addr % 0x1000000
    }
}

/// Every NOR command that names an address (FAST READ 0x0B / 0x0C, PAGE
/// PROGRAM 0x02 / 0x12, BLOCK ERASE 0xD8 / 0xDC, the second of each in 4-byte
/// mode) sends that address big-endian right after its opcode: all four
/// bytes in 4-byte mode, so no two addresses of a 4-byte chip share a
/// command, and the low 24 bits otherwise. FAST READ ends with one dummy byte.
pub proof fn lemma_nor_commands_carry_address(addr: u32, four: bool)
    ensures
        carries_address(nor_fast_read_cmd(addr, four), addr, four),
        carries_address(nor_program_cmd(addr, four), addr, four),
        carries_address(nor_erase_cmd(addr, four), addr, four),
        nor_fast_read_cmd(addr, four)[0] == if four {
            0x0Cu8
        } else {
            0x0Bu8
        },
        nor_fast_read_cmd(addr, four).len() == if four {
            6int
        } else {
            5int
        },
        nor_program_cmd(addr, four)[0] == if four {
            0x12u8
        } else {
            0x02u8
        },
        nor_erase_cmd(addr, four)[0] == if four {
            0xDCu8
        } else {
            0xD8u8
        },
{
    let b0 = (addr >> 24u32) as u8;
    let b1 = (addr >> 16u32) as u8;
    let b2 = (addr >> 8u32) as u8;
    let b3 = addr as u8;
    assert(b0 as u32 * 0x1000000u32 + b1 as u32 * 0x10000u32 + b2 as u32 * 0x100u32 + b3 as u32 == addr)
        by (bit_vector)
        requires
            b0 == (addr >> 24u32) as u8,
            b1 == (addr >> 16u32) as u8,
            b2 == (addr >> 8u32) as u8,
            b3 == addr as u8,
    ;
    assert(b1 as u32 * 0x10000u32 + b2 as u32 * 0x100u32 + b3 as u32 == addr % 0x1000000u32)
        by (bit_vector)
        requires
            b1 == (addr >> 16u32) as u8,
            b2 == (addr >> 8u32) as u8,
            b3 == addr as u8,
    ;
}

/// The READ STATUS query.
pub open spec fn nor_status_query() -> Seq<u8> {
    seq![CMD_READ_STATUS_ALT]
}

/// FAST READ at `addr`: command, address, one dummy byte.
pub open spec fn nor_fast_read_cmd(addr: u32, four: bool) -> Seq<u8> {
    seq![if four { CMD_NOR_FAST_READ_4B } else { CMD_NOR_FAST_READ }] + nor_addr_bytes(addr, four)
        + seq![0u8]
}

/// PAGE PROGRAM at `addr`: command and address (the data follows in the same frame).
pub open spec fn nor_program_cmd(addr: u32, four: bool) -> Seq<u8> {
    seq![if four { CMD_NOR_PAGE_PROGRAM_4B } else { CMD_NOR_PAGE_PROGRAM }] + nor_addr_bytes(
        addr,
        four,
    )
}

/// 64 KiB BLOCK ERASE at `addr`.
pub open spec fn nor_erase_cmd(addr: u32, four: bool) -> Seq<u8> {
    seq![if four { CMD_NOR_BLOCK_ERASE_64K_4B } else { CMD_NOR_BLOCK_ERASE_64K }] + nor_addr_bytes(
        addr,
        four,
    )
}

/// `seg` ends with a transaction that sent `cmd` and received `rx` (what
/// comes before it are attempts that failed).
pub open spec fn ends_with_query(seg: Seq<BusOp>, cmd: Seq<u8>, rx: Seq<u8>) -> bool {
    let m = cmd.len() + rx.len() + 2;
    &&& seg.len() >= m
    &&& query_frame(seg.subrange(seg.len() - m, seg.len() as int), cmd, rx)
}

/// `ops` reads `data` from the `length` bytes at `address`, in pieces of at
/// most one chunk, each read from where the previous one ended.
pub open spec fn nor_read_traffic(
    ops: Seq<BusOp>,
    four: bool,
    address: u32,
    length: int,
    data: Seq<u8>,
    segs: Seq<Seq<BusOp>>,
    chunks: Seq<Seq<u8>>,
) -> bool {
    &&& ops == concat(segs)
    &&& segs.len() == chunks.len()
    &&& data == concat(chunks)
    &&& data.len() == length
    &&& forall|j: int|
        0 <= j < chunks.len() ==> 0 < (#[trigger] chunks[j]).len() <= NOR_READ_CHUNK
            && ends_with_query(
            segs[j],
            nor_fast_read_cmd((address + concat(chunks.take(j)).len()) as u32, four),
            chunks[j],
        )
}

/// `ops` reads `data` from the `length` bytes at `address`.
pub open spec fn nor_read_result(
    ops: Seq<BusOp>,
    four: bool,
    address: u32,
    length: int,
    data: Seq<u8>,
) -> bool {
    exists|segs: Seq<Seq<BusOp>>, chunks: Seq<Seq<u8>>|
        #[trigger] nor_read_traffic(ops, four, address, length, data, segs, chunks)
}

/// Bytes programmed in one go at `addr` when `remaining` bytes are left: up
/// to the end of the 256-byte page.
pub open spec fn nor_piece_len(addr: int, remaining: int) -> int {
    vstd::math::min(NOR_PAGE_SIZE - addr % (NOR_PAGE_SIZE as int), remaining)
}

/// `seg` programs `bytes` at `addr`: write enable, page program, wait.
pub open spec fn nor_program_segment(seg: Seq<BusOp>, addr: u32, four: bool, bytes: Seq<u8>) -> bool {
    let b = 3 + nor_program_cmd(addr, four).len() as int + bytes.len() as int + 2;
    &&& seg.len() >= b
    &&& command_frame(seg.subrange(0, 3), seq![CMD_WRITE_ENABLE])
    &&& command_frame(seg.subrange(3, b), nor_program_cmd(addr, four) + bytes)
    &&& polls_until_ready(seg.subrange(b, seg.len() as int), nor_status_query(), STATUS_NOR_WIP)
}

/// `ops` programs `data` at `address`, page piece by page piece; `offs` are
/// the offsets in `data` where the pieces start, then its length.
pub open spec fn nor_program_traffic(
    ops: Seq<BusOp>,
    four: bool,
    address: u32,
    data: Seq<u8>,
    segs: Seq<Seq<BusOp>>,
    offs: Seq<int>,
) -> bool {
    &&& ops == concat(segs)
    &&& offs.last() == data.len()
    &&& nor_program_pieces(four, address, data, segs, offs)
}

/// Each segment of `segs` programs the page piece of `data` that starts at
/// the matching offset of `offs`, and the next piece starts where it ends.
pub open spec fn nor_program_pieces(
    four: bool,
    address: u32,
    data: Seq<u8>,
    segs: Seq<Seq<BusOp>>,
    offs: Seq<int>,
) -> bool {
    &&& offs.len() == segs.len() + 1
    &&& offs[0] == 0
    &&& forall|j: int|
        #![trigger segs[j]]
        #![trigger offs[j]]
        0 <= j < segs.len() ==> offs[j + 1] == offs[j] + nor_piece_len(
            address + offs[j],
            data.len() - offs[j],
        ) && nor_program_segment(
            segs[j],
            (address + offs[j]) as u32,
            four,
            data.subrange(offs[j], offs[j + 1]),
        )
}

/// One more programmed piece extends the pieces.
proof fn lemma_program_pieces_push(
    four: bool,
    address: u32,
    data: Seq<u8>,
    segs: Seq<Seq<BusOp>>,
    offs: Seq<int>,
    seg: Seq<BusOp>,
    n: int,
)
    requires
        nor_program_pieces(four, address, data, segs, offs),
        n == nor_piece_len(address + offs.last(), data.len() - offs.last()),
        nor_program_segment(
            seg,
            (address + offs.last()) as u32,
            four,
            data.subrange(offs.last(), offs.last() + n),
        ),
    ensures
        nor_program_pieces(four, address, data, segs.push(seg), offs.push(offs.last() + n)),
{
    let s2 = segs.push(seg);
    let o2 = offs.push(offs.last() + n);
    assert forall|j: int|
        #![trigger s2[j]]
        #![trigger o2[j]]
        0 <= j < s2.len() implies o2[j + 1] == o2[j] + nor_piece_len(
            address + o2[j],
            data.len() - o2[j],
        ) && nor_program_segment(
        s2[j],
        (address + o2[j]) as u32,
        four,
        data.subrange(o2[j], o2[j + 1]),
    ) by {
        if j < segs.len() {
            assert(s2[j] == segs[j]);
            assert(o2[j] == offs[j]);
            assert(o2[j + 1] == offs[j + 1]);
        } else {
            assert(j == segs.len());
            assert(s2[j] == seg);
            assert(o2[j] == offs.last());
            assert(o2[j + 1] == offs.last() + n);
        }
    }
    assert(o2[0] == offs[0]);
    assert(o2.len() == s2.len() + 1);
}

/// `ops` programs `data` at `address`.
pub open spec fn nor_program_result(ops: Seq<BusOp>, four: bool, address: u32, data: Seq<u8>) -> bool {
    exists|segs: Seq<Seq<BusOp>>, offs: Seq<int>|
        #[trigger] nor_program_traffic(ops, four, address, data, segs, offs)
}

/// `seg` erases the 64 KiB block at `addr`: write enable, block erase, wait.
pub open spec fn nor_erase_segment(seg: Seq<BusOp>, addr: u32, four: bool) -> bool {
    let b = 3 + nor_erase_cmd(addr, four).len() as int + 2;
    &&& seg.len() >= b
    &&& command_frame(seg.subrange(0, 3), seq![CMD_WRITE_ENABLE])
    &&& command_frame(seg.subrange(3, b), nor_erase_cmd(addr, four))
    &&& polls_until_ready(seg.subrange(b, seg.len() as int), nor_status_query(), STATUS_NOR_WIP)
}

/// `ops` erases the blocks of `block_size` that cover the request, in order.
pub open spec fn nor_erase_traffic(
    ops: Seq<BusOp>,
    four: bool,
    block_size: u32,
    request: EraseRequest,
    segs: Seq<Seq<BusOp>>,
) -> bool {
    &&& ops == concat(segs)
    &&& segs.len() == div_ceil(request.length as int, block_size as int)
    &&& forall|j: int|
        0 <= j < segs.len() ==> nor_erase_segment(
            #[trigger] segs[j],
            (request.address.0 + j * block_size) as u32,
            four,
        )
}

/// `ops` erases the blocks that cover the request.
pub open spec fn nor_erase_result(
    ops: Seq<BusOp>,
    four: bool,
    block_size: u32,
    request: EraseRequest,
) -> bool {
    exists|segs: Seq<Seq<BusOp>>| #[trigger] nor_erase_traffic(ops, four, block_size, request, segs)
}

pub struct SpiNor<P: Programmer> {
    programmer: P,
    spec: ChipSpec,
    calls: Ghost<Seq<FlashCall>>,
    reports: Ghost<Seq<Progress>>,
}

impl<P: Programmer> SpiNor<P> {
    /// The programmer the chip is reached through.
    pub closed spec fn device(&self) -> P {
        self.programmer
    }

    /// The chip description.
    pub closed spec fn chip(&self) -> ChipSpec {
        self.spec
    }

    /// Everything handed to the progress callbacks of the operations so far,
    /// oldest first.
    pub closed spec fn progress(&self) -> Seq<Progress> {
        self.reports@
    }

    /// Gives back the programmer the chip was reached through.
    pub fn into_device(self) -> (p: P)
        ensures
            p == self.device(),
    {
        self.programmer
    }

    /// Whether the chip is addressed with four address bytes.
    pub open spec fn four_byte(&self) -> bool {
        self.chip().capabilities.supports_4byte_addr
    }

    pub fn new(programmer: P, spec: ChipSpec) -> (r: Self)
        ensures
            r.device() == programmer,
            r.chip() == spec,
            r.calls() == Seq::<FlashCall>::empty(),
            r.progress() == Seq::<Progress>::empty(),
    {
        Self { programmer, spec, calls: Ghost(Seq::empty()), reports: Ghost(Seq::empty()) }
    }

    /// Get chip specification
    pub fn spec(&self) -> (s: &ChipSpec)
        ensures
            *s == self.chip(),
    {
        &self.spec
    }

    /// Mutable access to the programmer (for tests that drive it directly).
    pub fn programmer_mut(&mut self) -> (p: &mut P)
        ensures
            *p == old(self).device(),
            final(self).device() == *final(p),
            final(self).chip() == old(self).chip(),
    {
        &mut self.programmer
    }

    // =========================================================================
    // Internal Helper Methods
    // =========================================================================

    /// Poll the status register until the write-in-progress bit clears.
    fn wait_ready(&mut self) -> (r: Result<()>)
        requires
            old(self).programmer.wf(),
        ensures
            final(self).programmer.wf(),
            final(self).spec == old(self).spec,
            extends(old(self).programmer.log(), final(self).programmer.log()),
            r is Ok ==> polls_until_ready(
                added(old(self).programmer.log(), final(self).programmer.log()),
                nor_status_query(),
                STATUS_NOR_WIP,
            ),
            r is Err ==> faulted(old(self).programmer.log(), final(self).programmer.log()) || (r matches Err(
                Error::Timeout,
            ) && nor_timed_out(added(old(self).programmer.log(), final(self).programmer.log()))),
    {
        let ghost l0 = self.programmer.log();
        let mut polls: u32 = 0;
        loop
            invariant
                self.programmer.wf(),
                self.spec == old(self).spec,
                l0 == old(self).programmer.log(),
                extends(l0, self.programmer.log()),
                busy_polls(added(l0, self.programmer.log()), nor_status_query(), STATUS_NOR_WIP),
                added(l0, self.programmer.log()).len() == polls * 4,
                polls < NOR_POLL_BUDGET,
            decreases NOR_POLL_BUDGET - polls,
        {
            let ghost lb = self.programmer.log();
            let status = self.read_status()?;
            proof {
                lemma_added_trans(l0, lb, self.programmer.log());
                assert(added(lb, self.programmer.log())[2] == added(
                    lb,
                    self.programmer.log(),
                ).subrange(2, 3)[0]);
            }
            if status & STATUS_NOR_WIP == 0 {
                proof {
                    lemma_polls_until_ready(
                        added(l0, lb),
                        added(lb, self.programmer.log()),
                        nor_status_query(),
                        STATUS_NOR_WIP,
                    );
                }
                return Ok(());
            }
            proof {
                lemma_busy_polls_push(
                    added(l0, lb),
                    added(lb, self.programmer.log()),
                    nor_status_query(),
                    STATUS_NOR_WIP,
                );
            }
            polls = polls + 1;
            if polls >= NOR_POLL_BUDGET {
                proof {
                    let a = added(l0, self.programmer.log());
                    assert(nor_status_query().len() == 1);
                    assert(a.subrange(0, a.len() as int) =~= a);
                }
                return Err(Error::Timeout);
            }
            self.programmer.delay_us(NOR_POLL_INTERVAL_US);
        }
    }

    /// READ STATUS: the status register.
    pub(crate) fn read_status(&mut self) -> (r: Result<u8>)
        requires
            old(self).device().wf(),
        ensures
            final(self).device().wf(),
            final(self).chip() == old(self).chip(),
            extends(old(self).device().log(), final(self).device().log()),
            r is Ok ==> query_frame(
                added(old(self).device().log(), final(self).device().log()),
                nor_status_query(),
                seq![r->Ok_0],
            ),
            r is Err ==> faulted(old(self).device().log(), final(self).device().log()),
    {
        let ghost l0 = self.programmer.log();
        self.programmer.set_cs(true)?;
        let ghost l1 = self.programmer.log();
        let cmd = vec![CMD_READ_STATUS_ALT];
        self.programmer.spi_write(cmd.as_slice())?;
        let ghost l2 = self.programmer.log();
        let data = self.programmer.spi_read(1)?;
        let ghost l3 = self.programmer.log();
        self.programmer.set_cs(false)?;
        proof {
            assert(data@ =~= seq![data@[0]]);
            assert(cmd@ =~= nor_status_query());
            lemma_query_frame(l0, l1, l2, l3, self.programmer.log(), cmd@, data@);
        }
        Ok(data[0])
    }

    /// WRITE ENABLE.
    fn write_enable(&mut self) -> (r: Result<()>)
        requires
            old(self).programmer.wf(),
        ensures
            final(self).programmer.wf(),
            final(self).spec == old(self).spec,
            extends(old(self).programmer.log(), final(self).programmer.log()),
            r is Ok ==> command_frame(
                added(old(self).programmer.log(), final(self).programmer.log()),
                seq![CMD_WRITE_ENABLE],
            ),
            r is Err ==> faulted(old(self).programmer.log(), final(self).programmer.log()),
    {
        let ghost l0 = self.programmer.log();
        self.programmer.set_cs(true)?;
        let ghost l1 = self.programmer.log();
        let cmd = vec![CMD_WRITE_ENABLE];
        self.programmer.spi_write(cmd.as_slice())?;
        let ghost l2 = self.programmer.log();
        self.programmer.set_cs(false)?;
        proof {
            lemma_command_frame(l0, l1, l2, self.programmer.log(), cmd@);
        }
        Ok(())
    }

    /// The address bytes of `addr` for this chip's addressing mode.
    fn addr_to_bytes(&self, addr: u32) -> (r: Vec<u8>)
        ensures
            r@ == nor_addr_bytes(addr, self.spec.capabilities.supports_4byte_addr),
    {
        if self.spec.capabilities.supports_4byte_addr {
            let r = vec![(addr >> 24) as u8, (addr >> 16) as u8, (addr >> 8) as u8, addr as u8];
            assert(r@ =~= nor_addr_bytes(addr, true));
            r
        } else {
            let r = vec![(addr >> 16) as u8, (addr >> 8) as u8, addr as u8];
            assert(r@ =~= nor_addr_bytes(addr, false));
            r
        }
    }

    /// `cmd` followed by the address bytes of `addr`.
    fn command_with_addr(&self, cmd: u8, addr: u32) -> (r: Vec<u8>)
        ensures
            r@ == seq![cmd] + nor_addr_bytes(addr, self.spec.capabilities.supports_4byte_addr),
    {
        let addr_bytes = self.addr_to_bytes(addr);
        let mut tx = vec![cmd];
        let mut k: usize = 0;
        while k < addr_bytes.len()
            invariant
                k <= addr_bytes@.len(),
                tx@ == seq![cmd] + addr_bytes@.subrange(0, k as int),
            decreases addr_bytes@.len() - k,
        {
            tx.push(addr_bytes[k]);
            assert(addr_bytes@.subrange(0, k + 1) =~= addr_bytes@.subrange(0, k as int).push(
                addr_bytes@[k as int],
            ));
            k = k + 1;
        }
        assert(addr_bytes@.subrange(0, addr_bytes@.len() as int) =~= addr_bytes@);
        tx
    }

    /// READ (without dummy byte) of `len` bytes at `address`.
    fn read_internal(&mut self, address: u32, len: usize) -> (r: Result<Vec<u8>>)
        requires
            old(self).programmer.wf(),
        ensures
            final(self).programmer.wf(),
            final(self).spec == old(self).spec,
            extends(old(self).programmer.log(), final(self).programmer.log()),
            r is Ok ==> r->Ok_0@.len() == len && query_frame(
                added(old(self).programmer.log(), final(self).programmer.log()),
                seq![
                    if old(self).spec.capabilities.supports_4byte_addr {
                        CMD_NOR_READ_4B
                    } else {
                        CMD_NOR_READ
                    },
                ] + nor_addr_bytes(address, old(self).spec.capabilities.supports_4byte_addr),
                r->Ok_0@,
            ),
            r is Err ==> faulted(old(self).programmer.log(), final(self).programmer.log()),
    {
        let cmd = if self.spec.capabilities.supports_4byte_addr {
            CMD_NOR_READ_4B
        } else {
            CMD_NOR_READ
        };
        let tx = self.command_with_addr(cmd, address);
        let ghost l0 = self.programmer.log();
        self.programmer.set_cs(true)?;
        let ghost l1 = self.programmer.log();
        self.programmer.spi_write(tx.as_slice())?;
        let ghost l2 = self.programmer.log();
        let data = self.programmer.spi_read(len)?;
        let ghost l3 = self.programmer.log();
        self.programmer.set_cs(false)?;
        proof {
            lemma_query_frame(l0, l1, l2, l3, self.programmer.log(), tx@, data@);
        }
        Ok(data)
    }

    /// Program `piece` at `addr`: write enable, page program, wait.
    fn program_piece(&mut self, addr: u32, piece: &[u8]) -> (r: Result<()>)
        requires
            old(self).programmer.wf(),
        ensures
            final(self).programmer.wf(),
            final(self).spec == old(self).spec,
            extends(old(self).programmer.log(), final(self).programmer.log()),
            r is Ok ==> nor_program_segment(
                added(old(self).programmer.log(), final(self).programmer.log()),
                addr,
                old(self).spec.capabilities.supports_4byte_addr,
                piece@,
            ),
            r is Err ==> faulted(old(self).programmer.log(), final(self).programmer.log()) || (r matches Err(
                Error::Timeout,
            ) && nor_timed_out(added(old(self).programmer.log(), final(self).programmer.log()))),
    {
        let ghost four = self.spec.capabilities.supports_4byte_addr;
        let ghost lb = self.programmer.log();
        self.write_enable()?;
        let ghost l1 = self.programmer.log();

        let cmd_byte = if self.spec.capabilities.supports_4byte_addr {
            CMD_NOR_PAGE_PROGRAM_4B
        } else {
            CMD_NOR_PAGE_PROGRAM
        };
        let cmd = self.command_with_addr(cmd_byte, addr);

        self.programmer.set_cs(true)?;
        let ghost l2 = self.programmer.log();
        self.programmer.spi_write(cmd.as_slice())?;
        let ghost l3 = self.programmer.log();
        self.programmer.spi_write(piece)?;
        let ghost l4 = self.programmer.log();
        self.programmer.set_cs(false)?;
        let ghost l5 = self.programmer.log();
        proof {
            lemma_command_frame2(l1, l2, l3, l4, l5, cmd@, piece@);
        }

        let w = self.wait_ready();
        proof {
            if w is Err && !faulted(l5, self.programmer.log()) {
                lemma_added_trans(lb, l1, l5);
                lemma_timed_out_suffix(lb, l5, self.programmer.log(), nor_status_query(), STATUS_NOR_WIP, NOR_POLL_BUDGET as int);
            }
        }
        w?;
        proof {
            let le = self.programmer.log();
            lemma_added_trans(lb, l1, l5);
            lemma_added_trans(lb, l5, le);
            let seg = added(lb, le);
            let b = 3 + cmd@.len() as int + piece@.len() as int + 2;
            assert(cmd@ =~= nor_program_cmd(addr, four));
            assert(seg.subrange(0, 3) =~= added(lb, l1));
            assert(seg.subrange(3, b) =~= added(l1, l5));
            assert(seg.subrange(b, seg.len() as int) =~= added(l5, le));
        }
        Ok(())
    }

    /// One transaction sending `cmd` and receiving `len` bytes, tried again
    /// after a failure up to `retries` times.
    fn transaction_with_retries(&mut self, cmd: &[u8], len: usize, retries: u32) -> (r: Result<
        Vec<u8>,
    >)
        requires
            old(self).programmer.wf(),
        ensures
            final(self).programmer.wf(),
            final(self).spec == old(self).spec,
            extends(old(self).programmer.log(), final(self).programmer.log()),
            r is Ok ==> r->Ok_0@.len() == len && ends_with_query(
                added(old(self).programmer.log(), final(self).programmer.log()),
                cmd@,
                r->Ok_0@,
            ),
            r is Err ==> faulted(old(self).programmer.log(), final(self).programmer.log()),
    {
        let ghost l0 = self.programmer.log();
        let mut attempts: u32 = 0;
        loop
            invariant
                self.programmer.wf(),
                self.spec == old(self).spec,
                l0 == old(self).programmer.log(),
                extends(l0, self.programmer.log()),
                attempts <= retries,
            decreases retries - attempts,
        {
            let ghost lb = self.programmer.log();
            match self.programmer.spi_transaction(cmd, len) {
                Ok(data) => {
                    proof {
                        lemma_added_trans(l0, lb, self.programmer.log());
                        let a = added(l0, self.programmer.log());
                        let m = cmd@.len() + data@.len() + 2;
                        assert(a.subrange(a.len() - m, a.len() as int) =~= added(
                            lb,
                            self.programmer.log(),
                        ));
                    }
                    return Ok(data);
                },
                Err(e) => {
                    proof {
                        lemma_added_trans(l0, lb, self.programmer.log());
                    }
                    if attempts < retries {
                        attempts = attempts + 1;
                    } else {
                        return Err(e);
                    }
                },
            }
        }
    }
}


/// `data` and `rb` first differ at byte `i`.
pub open spec fn first_mismatch_at(data: Seq<u8>, rb: Seq<u8>, i: int) -> bool {
    &&& 0 <= i < data.len()
    &&& i < rb.len()
    &&& data[i] != rb[i]
    &&& forall|j: int| 0 <= j < i ==> #[trigger] data[j] == rb[j]
}

/// `ops` programs `data` at `address`, then reads the same range back and
/// finds bytes that first differ from `data` at byte `i`, where `actual` was
/// read.
pub open spec fn nor_verify_mismatch(
    ops: Seq<BusOp>,
    four: bool,
    address: u32,
    data: Seq<u8>,
    i: int,
    actual: u8,
) -> bool {
    exists|k: int, rb: Seq<u8>|
        {
            &&& 0 <= k <= ops.len()
            &&& #[trigger] nor_program_result(ops.take(k), four, address, data)
            &&& #[trigger] nor_read_result(ops.skip(k), four, address, data.len() as int, rb)
            &&& rb.len() == data.len()
            &&& first_mismatch_at(data, rb, i)
            &&& actual == rb[i]
        }
}

/// The first byte at which `a` and `b` (of one length) differ, if any.
fn first_mismatch(a: &[u8], b: &[u8]) -> (r: Option<usize>)
    requires
        a@.len() == b@.len(),
    ensures
        r matches Some(i) ==> first_mismatch_at(b@, a@, i as int),
        r is None ==> a@ == b@,
{
    let mut i: usize = 0;
    while i < a.len()
        invariant
            a@.len() == b@.len(),
            i <= a@.len(),
            forall|j: int| 0 <= j < i ==> b@[j] == a@[j],
        decreases a@.len() - i,
    {
        if a[i] != b[i] {
            return Some(i);
        }
        i = i + 1;
    }
    assert(a@ =~= b@);
    None
}

/// `ops` programs `data` at `address` and, when `verify` is set, then reads
/// the same range back and finds `data` there.
pub open spec fn nor_write_result(
    ops: Seq<BusOp>,
    four: bool,
    address: u32,
    data: Seq<u8>,
    verify: bool,
) -> bool {
    exists|k: int|
        0 <= k <= ops.len() && #[trigger] nor_program_result(ops.take(k), four, address, data) && if verify {
            nor_read_result(ops.skip(k), four, address, data.len() as int, data)
        } else {
            k == ops.len()
        }
}

/// `ops` writes `value` to the status register: write enable, WRITE STATUS
/// clocked without a chip-select frame of its own, wait.
pub open spec fn nor_status_write_traffic(ops: Seq<BusOp>, value: u8) -> bool {
    &&& ops.len() >= 5
    &&& command_frame(ops.subrange(0, 3), seq![CMD_WRITE_ENABLE])
    &&& clocked_out(ops.subrange(3, 5), seq![NOR_CMD_WRSR, value])
    &&& polls_until_ready(ops.subrange(5, ops.len() as int), nor_status_query(), STATUS_NOR_WIP)
}

/// The size of the pieces a read is done in, for a programmer that handles
/// `bulk` bytes in one go.
pub open spec fn nor_read_step(bulk: nat) -> nat {
    if bulk < NOR_READ_CHUNK {
        bulk
    } else {
        NOR_READ_CHUNK as nat
    }
}

/// Geometry that the NOR protocol can work with: blocks are not empty.
pub open spec fn nor_layout_ok(spec: ChipSpec) -> bool {
    spec.layout.block_size > 0
}

impl<P: Programmer> SpiNor<P> {
    #[verifier::spinoff_prover]
    fn read_op<F: Fn(Progress)>(
        &mut self,
        request: ReadRequest,
        on_progress: &F,
        reports: &mut Ghost<Seq<Progress>>,
    ) -> (r: Result<Vec<u8>>)
        requires
            old(self).inv(),
            read_fits(request),
            forall|p: Progress| #[trigger] on_progress.requires((p,)),
        ensures
            final(self).inv(),
            final(self).chip() == old(self).chip(),
            extends(old(self).device().log(), final(self).device().log()),
            r is Ok ==> r->Ok_0@.len() == request.length && nor_read_result(
                added(old(self).device().log(), final(self).device().log()),
                old(self).four_byte(),
                request.address.0,
                request.length as int,
                r->Ok_0@,
            ),
            r is Ok ==> final(reports)@ == old(reports)@ + step_reports(
                0,
                request.length as nat,
                nor_read_step(old(self).device().bulk_limit()),
            ),
            r is Err ==> faulted(old(self).device().log(), final(self).device().log()),
    {
        let ghost four = self.spec.capabilities.supports_4byte_addr;
        let address = request.address.as_u32();
        let length = request.length as usize;
        let ghost r0 = reports@;

        // Larger chunks give better throughput, up to what the programmer handles
        let max = self.programmer.max_bulk_transfer_size();
        let chunk_size = if max < NOR_READ_CHUNK {
            max
        } else {
            NOR_READ_CHUNK
        };

        let mut result: Vec<u8> = Vec::new();
        let mut remaining = length;
        let mut current_addr = address;
        let ghost l0 = self.programmer.log();
        let ghost mut segs: Seq<Seq<BusOp>> = Seq::empty();
        let ghost mut chunks: Seq<Seq<u8>> = Seq::empty();
        let ghost cs = nor_read_step(old(self).programmer.bulk_limit());

        while remaining > 0
            invariant
                chunk_size == cs,
                reports@ + step_reports(result@.len(), length as nat, cs) == r0 + step_reports(
                    0,
                    length as nat,
                    cs,
                ),
                self.programmer.wf(),
                self.spec == old(self).spec,
                nor_layout_ok(self.spec),
                four == self.spec.capabilities.supports_4byte_addr,
                l0 == old(self).programmer.log(),
                extends(l0, self.programmer.log()),
                added(l0, self.programmer.log()) == concat(segs),
                address == request.address.0,
                length == request.length,
                address + length <= u32::MAX,
                0 < chunk_size <= NOR_READ_CHUNK,
                result@ == concat(chunks),
                result@.len() + remaining == length,
                current_addr == address + result@.len(),
                segs.len() == chunks.len(),
                forall|j: int|
                    0 <= j < chunks.len() ==> 0 < (#[trigger] chunks[j]).len() <= NOR_READ_CHUNK
                        && ends_with_query(
                        segs[j],
                        nor_fast_read_cmd((address + concat(chunks.take(j)).len()) as u32, four),
                        chunks[j],
                    ),
                forall|p: Progress| #[trigger] on_progress.requires((p,)),
            decreases remaining,
        {
            let read_size = if remaining < chunk_size {
                remaining
            } else {
                chunk_size
            };

            // FAST READ: command, address, one dummy byte
            let cmd_byte = if self.spec.capabilities.supports_4byte_addr {
                CMD_NOR_FAST_READ_4B
            } else {
                CMD_NOR_FAST_READ
            };
            let mut cmd = self.command_with_addr(cmd_byte, current_addr);
            cmd.push(0x00);
            assert(cmd@ =~= nor_fast_read_cmd(current_addr, four));

            let ghost lb = self.programmer.log();
            let chunk = self.transaction_with_retries(
                cmd.as_slice(),
                read_size,
                request.retry_count,
            )?;
            proof {
                let old_chunks = chunks;
                lemma_added_trans(l0, lb, self.programmer.log());
                lemma_concat_push(segs, added(lb, self.programmer.log()));
                lemma_concat_push(chunks, chunk@);
                segs = segs.push(added(lb, self.programmer.log()));
                chunks = chunks.push(chunk@);
                assert forall|j: int| 0 <= j < chunks.len() implies 0 < (
                #[trigger] chunks[j]).len() <= NOR_READ_CHUNK && ends_with_query(
                    segs[j],
                    nor_fast_read_cmd((address + concat(chunks.take(j)).len()) as u32, four),
                    chunks[j],
                ) by {
                    if j < old_chunks.len() {
                        assert(chunks.take(j) =~= old_chunks.take(j));
                    } else {
                        assert(chunks.take(j) =~= old_chunks);
                    }
                }
            }
            extend_prefix(&mut result, chunk.as_slice(), chunk.len());
            assert(chunk@.subrange(0, chunk@.len() as int) =~= chunk@);

            remaining = remaining - read_size;
            current_addr = current_addr + read_size as u32;

            let ghost done = (result@.len() - read_size) as nat;
            let p = Progress::new(result.len() as u64, length as u64);
            proof {
                let rest = step_reports(result@.len(), length as nat, cs);
                assert(step_reports(done, length as nat, cs) == seq![p] + rest);
                assert(reports@.push(p) + rest =~= reports@ + (seq![p] + rest));
            }
            report(on_progress, p, reports);
        }
        assert(step_reports(length as nat, length as nat, cs) =~= Seq::<Progress>::empty());
        assert(reports@ + Seq::<Progress>::empty() =~= reports@);
        proof {
            assert(nor_read_traffic(
                added(l0, self.programmer.log()),
                four,
                address,
                request.length as int,
                result@,
                segs,
                chunks,
            ));
        }
        Ok(result)
    }

    #[verifier::spinoff_prover]
    #[verifier::rlimit(30)]
    fn write_op<F: Fn(Progress)>(
        &mut self,
        request: WriteRequest,
        on_progress: &F,
        reports: &mut Ghost<Seq<Progress>>,
    ) -> (r: Result<()>)
        requires
            old(self).inv(),
            write_fits(request),
            forall|p: Progress| #[trigger] on_progress.requires((p,)),
        ensures
            final(self).inv(),
            final(self).chip() == old(self).chip(),
            extends(old(self).device().log(), final(self).device().log()),
            r is Ok ==> nor_write_result(
                added(old(self).device().log(), final(self).device().log()),
                old(self).four_byte(),
                request.address.0,
                request.data@,
                request.verify,
            ),
            r is Ok ==> final(reports)@ == old(reports)@ + page_reports(
                request.address.0 as int,
                NOR_PAGE_SIZE as int,
                0,
                request.data@.len(),
            ),
            r is Err ==> faulted(old(self).device().log(), final(self).device().log()) || (r matches Err(
                Error::Timeout,
            ) && nor_timed_out(added(old(self).device().log(), final(self).device().log()))) || (r matches Err(
                Error::VerificationFailed { address, expected, actual },
            ) && request.verify && request.address.0 <= address < request.address.0 + request.data@.len()
                && expected == request.data@[address - request.address.0] && nor_verify_mismatch(
                added(old(self).device().log(), final(self).device().log()),
                old(self).four_byte(),
                request.address.0,
                request.data@,
                address - request.address.0,
                actual,
            )),
    {
        let ghost four = self.spec.capabilities.supports_4byte_addr;
        let data = request.data;
        let address = request.address.as_u32();
        let mut offset: usize = 0;
        let mut current_addr = address;
        let ghost l0 = self.programmer.log();
        let ghost mut segs: Seq<Seq<BusOp>> = Seq::empty();
        let ghost mut offs: Seq<int> = seq![0int];
        let ghost r0 = reports@;

        while offset < data.len()
            invariant
                reports@ + page_reports(address as int, NOR_PAGE_SIZE as int, offset as nat, data@.len()) == r0
                    + page_reports(address as int, NOR_PAGE_SIZE as int, 0, data@.len()),
                self.programmer.wf(),
                self.spec == old(self).spec,
                nor_layout_ok(self.spec),
                four == self.spec.capabilities.supports_4byte_addr,
                l0 == old(self).programmer.log(),
                extends(l0, self.programmer.log()),
                added(l0, self.programmer.log()) == concat(segs),
                data@ == request.data@,
                address == request.address.0,
                address + data@.len() <= u32::MAX,
                offset <= data@.len(),
                current_addr == address + offset,
                offs.last() == offset,
                nor_program_pieces(four, address, data@, segs, offs),
                forall|p: Progress| #[trigger] on_progress.requires((p,)),
            decreases data@.len() - offset,
        {
            // Bytes left in the current 256-byte page
            let page_offset = (current_addr as usize) % NOR_PAGE_SIZE;
            let bytes_in_page = NOR_PAGE_SIZE - page_offset;
            let bytes_to_write = if bytes_in_page < data.len() - offset {
                bytes_in_page
            } else {
                data.len() - offset
            };

            assert(bytes_to_write == nor_piece_len(address + offset, data@.len() - offset));
            let piece = vstd::slice::slice_subrange(data, offset, offset + bytes_to_write);
            let ghost lb = self.programmer.log();
            let w = self.program_piece(current_addr, piece);
            proof {
                if w is Err && !faulted(lb, self.programmer.log()) {
                    lemma_timed_out_suffix(l0, lb, self.programmer.log(), nor_status_query(), STATUS_NOR_WIP, NOR_POLL_BUDGET as int);
                }
            }
            w?;
            proof {
                let le = self.programmer.log();
                let seg = added(lb, le);
                lemma_added_trans(l0, lb, le);
                lemma_concat_push(segs, seg);
                lemma_program_pieces_push(four, address, data@, segs, offs, seg, bytes_to_write as int);
                segs = segs.push(seg);
                offs = offs.push(offset + bytes_to_write);
            }

            let ghost done = offset as nat;
            offset = offset + bytes_to_write;
            current_addr = current_addr + bytes_to_write as u32;

            let p = Progress::new(offset as u64, data.len() as u64);
            proof {
                lemma_page_reports_next(address as int, NOR_PAGE_SIZE as int, done, data@.len(), offset as nat);
                lemma_report_next(
                    reports@,
                    p,
                    page_reports(address as int, NOR_PAGE_SIZE as int, done, data@.len()),
                    page_reports(address as int, NOR_PAGE_SIZE as int, offset as nat, data@.len()),
                );
            }
            report(on_progress, p, reports);
        }
        assert(page_reports(address as int, NOR_PAGE_SIZE as int, data@.len(), data@.len()) =~= Seq::<Progress>::empty());
        assert(reports@ + Seq::<Progress>::empty() =~= reports@);

        let ghost lw = self.programmer.log();
        proof {
            assert(nor_program_traffic(added(l0, lw), four, address, data@, segs, offs));
        }

        if request.verify {
            let verify_req = ReadRequest {
                address: request.address,
                length: request.data.len() as u32,
                use_ecc: request.use_ecc,
                ignore_ecc_errors: request.ignore_ecc_errors,
                oob_mode: request.oob_mode,
                bad_block_strategy: request.bad_block_strategy,
                bbt: None,
                retry_count: request.retry_count,
            };
            let read_back = self.read(verify_req, &|_p: Progress| {})?;
            let ghost le = self.programmer.log();
            let ghost ops = added(l0, le);
            let ghost k = added(l0, lw).len() as int;
            proof {
                lemma_added_trans(l0, lw, le);
                assert(ops.take(k) =~= added(l0, lw));
                assert(ops.skip(k) =~= added(lw, le));
                assert(nor_program_result(ops.take(k), four, address, data@));
            }
            match first_mismatch(read_back.as_slice(), data) {
                Some(i) => {
                    proof {
                        assert(nor_program_result(ops.take(k), four, address, data@));
                        assert(nor_read_result(ops.skip(k), four, address, data@.len() as int, read_back@));
                        assert(nor_verify_mismatch(ops, four, address, data@, i as int, read_back@[i as int]));
                    }
                    return Err(
                        Error::VerificationFailed {
                            address: address + i as u32,
                            expected: data[i],
                            actual: read_back[i],
                        },
                    );
                },
                None => {},
            }
        } else {
            proof {
                let ops = added(l0, lw);
                assert(ops.take(ops.len() as int) =~= ops);
                assert(nor_program_result(ops.take(ops.len() as int), four, address, data@));
            }
        }
        Ok(())
    }

    #[verifier::spinoff_prover]
    fn erase_op<F: Fn(Progress)>(
        &mut self,
        request: EraseRequest,
        on_progress: &F,
        reports: &mut Ghost<Seq<Progress>>,
    ) -> (r: Result<()>)
        requires
            old(self).inv(),
            erase_fits(request),
            forall|p: Progress| #[trigger] on_progress.requires((p,)),
        ensures
            final(self).inv(),
            final(self).chip() == old(self).chip(),
            extends(old(self).device().log(), final(self).device().log()),
            request.address.0 % old(self).chip().layout.block_size != 0 ==> (r matches Err(
                Error::InvalidParameter(_),
            )) && final(self).device().log() == old(self).device().log() && final(reports)@ == old(
                reports,
            )@,
            r is Ok ==> request.address.0 % old(self).chip().layout.block_size == 0
                && nor_erase_result(
                added(old(self).device().log(), final(self).device().log()),
                old(self).four_byte(),
                old(self).chip().layout.block_size,
                request,
            ),
            r is Ok ==> final(reports)@ == old(reports)@ + count_reports(
                div_ceil(request.length as int, old(self).chip().layout.block_size as int) as nat,
            ),
    {
        let ghost r0 = reports@;
        let ghost four = self.spec.capabilities.supports_4byte_addr;
        let block_size = self.spec.layout.block_size;
        let address = request.address.as_u32();

        if address % block_size != 0 {
            return Err(Error::InvalidParameter("NOR erase address must be block-aligned".to_string()));
        }

        let total_blocks = div_ceil_u32(request.length, block_size);
        let ghost l0 = self.programmer.log();
        let ghost mut segs: Seq<Seq<BusOp>> = Seq::empty();
        let mut i: u32 = 0;
        while i < total_blocks
            invariant
                self.programmer.wf(),
                self.spec == old(self).spec,
                nor_layout_ok(self.spec),
                four == self.spec.capabilities.supports_4byte_addr,
                block_size == self.spec.layout.block_size,
                l0 == old(self).programmer.log(),
                extends(l0, self.programmer.log()),
                added(l0, self.programmer.log()) == concat(segs),
                address == request.address.0,
                address % block_size == 0,
                address + request.length <= u32::MAX,
                total_blocks == div_ceil(request.length as int, block_size as int),
                i <= total_blocks,
                reports@ == r0 + count_reports(total_blocks as nat).take(i as int),
                segs.len() == i,
                forall|j: int|
                    0 <= j < i ==> nor_erase_segment(
                        #[trigger] segs[j],
                        (address + j * block_size) as u32,
                        four,
                    ),
                forall|p: Progress| #[trigger] on_progress.requires((p,)),
            decreases total_blocks - i,
        {
            proof {
                lemma_piece_start(i as int, request.length as int, block_size as int);
            }
            let block_addr = address + i * block_size;

            let ghost lb = self.programmer.log();
            self.write_enable()?;
            let ghost l1 = self.programmer.log();

            let cmd_byte = if self.spec.capabilities.supports_4byte_addr {
                CMD_NOR_BLOCK_ERASE_64K_4B
            } else {
                CMD_NOR_BLOCK_ERASE_64K
            };
            let cmd = self.command_with_addr(cmd_byte, block_addr);

            self.programmer.set_cs(true)?;
            let ghost l2 = self.programmer.log();
            self.programmer.spi_write(cmd.as_slice())?;
            let ghost l3 = self.programmer.log();
            self.programmer.set_cs(false)?;
            let ghost l4 = self.programmer.log();
            proof {
                lemma_command_frame(l1, l2, l3, l4, cmd@);
            }

            self.wait_ready()?;
            proof {
                let le = self.programmer.log();
                lemma_added_trans(lb, l1, l4);
                lemma_added_trans(lb, l4, le);
                let seg = added(lb, le);
                let b = 3 + cmd@.len() as int + 2;
                assert(cmd@ =~= nor_erase_cmd(block_addr, four));
                assert(seg.subrange(0, 3) =~= added(lb, l1));
                assert(seg.subrange(3, b) =~= added(l1, l4));
                assert(seg.subrange(b, seg.len() as int) =~= added(l4, le));
                lemma_added_trans(l0, lb, le);
                lemma_concat_push(segs, seg);
                segs = segs.push(seg);
            }

            let p = Progress::new((i + 1) as u64, total_blocks as u64);
            assert(count_reports(total_blocks as nat).take(i + 1) =~= count_reports(
                total_blocks as nat,
            ).take(i as int).push(p));
            report(on_progress, p, reports);
            i = i + 1;
        }
        assert(count_reports(total_blocks as nat).take(total_blocks as int) =~= count_reports(
            total_blocks as nat,
        ));
        proof {
            assert(nor_erase_traffic(
                added(l0, self.programmer.log()),
                four,
                block_size,
                request,
                segs,
            ));
        }
        Ok(())
    }

    fn get_status_op(&mut self) -> (r: Result<Vec<u8>>)
        requires
            old(self).inv(),
        ensures
            final(self).inv(),
            final(self).chip() == old(self).chip(),
            extends(old(self).device().log(), final(self).device().log()),
            r is Ok ==> query_frame(
                added(old(self).device().log(), final(self).device().log()),
                nor_status_query(),
                r->Ok_0@,
            ),
            r is Err ==> faulted(old(self).device().log(), final(self).device().log()),
    {
        let status = self.read_status()?;
        let v = vec![status];
        assert(v@ =~= seq![status]);
        Ok(v)
    }

    fn set_status_op(&mut self, status: &[u8]) -> (r: Result<()>)
        requires
            old(self).inv(),
        ensures
            final(self).inv(),
            final(self).chip() == old(self).chip(),
            extends(old(self).device().log(), final(self).device().log()),
            status@.len() == 0 ==> r is Ok && final(self).device().log() == old(
                self,
            ).device().log(),
            r is Ok && status@.len() > 0 ==> nor_status_write_traffic(
                added(old(self).device().log(), final(self).device().log()),
                status@[0],
            ),
            r is Err ==> faulted(old(self).device().log(), final(self).device().log()) || (r matches Err(
                Error::Timeout,
            ) && nor_timed_out(added(old(self).device().log(), final(self).device().log()))),
    {
        if status.len() == 0 {
            return Ok(());
        }
        let ghost l0 = self.programmer.log();
        self.write_enable()?;
        let ghost l1 = self.programmer.log();
        let cmd = vec![NOR_CMD_WRSR, status[0]];
        self.programmer.spi_write(cmd.as_slice())?;
        let ghost l2 = self.programmer.log();
        let r = self.wait_ready();
        proof {
            let le = self.programmer.log();
            lemma_added_trans(l0, l1, l2);
            lemma_added_trans(l0, l2, le);
            if r is Err && !faulted(l2, le) {
                lemma_timed_out_suffix(l0, l2, le, nor_status_query(), STATUS_NOR_WIP, NOR_POLL_BUDGET as int);
            }
            let ops = added(l0, le);
            assert(ops.subrange(0, 3) =~= added(l0, l1));
            assert(ops.subrange(3, 5) =~= added(l1, l2));
            assert(ops.subrange(5, ops.len() as int) =~= added(l2, le));
            assert(cmd@ =~= seq![NOR_CMD_WRSR, status@[0]]);
        }
        r
    }
}

impl<P: Programmer> FlashOperation for SpiNor<P> {
    open spec fn inv(&self) -> bool {
        self.device().wf() && nor_layout_ok(self.chip())
    }

    closed spec fn calls(&self) -> Seq<FlashCall> {
        self.calls@
    }

    fn read<F: Fn(Progress)>(&mut self, request: ReadRequest, on_progress: &F) -> (r: Result<Vec<u8>>)
        ensures
            final(self).chip() == old(self).chip(),
            extends(old(self).device().log(), final(self).device().log()),
            r is Ok ==> r->Ok_0@.len() == request.length && nor_read_result(
                added(old(self).device().log(), final(self).device().log()),
                old(self).four_byte(),
                request.address.0,
                request.length as int,
                r->Ok_0@,
            ),
            r is Ok ==> final(self).progress() == old(self).progress() + step_reports(
                0,
                request.length as nat,
                nor_read_step(old(self).device().bulk_limit()),
            ),
            r is Err ==> faulted(old(self).device().log(), final(self).device().log()),
    {
        let ghost h = self.calls@;
        let ghost req = request;
        let mut reports = self.reports;
        let r = self.read_op(request, on_progress, &mut reports);
        self.reports = reports;
        self.calls = Ghost(h.push(read_call(req, r)));
        r
    }

    fn write<F: Fn(Progress)>(&mut self, request: WriteRequest, on_progress: &F) -> (r: Result<()>)
        ensures
            final(self).chip() == old(self).chip(),
            extends(old(self).device().log(), final(self).device().log()),
            r is Ok ==> nor_write_result(
                added(old(self).device().log(), final(self).device().log()),
                old(self).four_byte(),
                request.address.0,
                request.data@,
                request.verify,
            ),
            r is Ok ==> final(self).progress() == old(self).progress() + page_reports(
                request.address.0 as int,
                NOR_PAGE_SIZE as int,
                0,
                request.data@.len(),
            ),
            r is Err ==> faulted(old(self).device().log(), final(self).device().log()) || (r matches Err(
                Error::Timeout,
            ) && nor_timed_out(added(old(self).device().log(), final(self).device().log()))) || (r matches Err(
                Error::VerificationFailed { address, expected, actual },
            ) && request.verify && request.address.0 <= address < request.address.0 + request.data@.len()
                && expected == request.data@[address - request.address.0] && nor_verify_mismatch(
                added(old(self).device().log(), final(self).device().log()),
                old(self).four_byte(),
                request.address.0,
                request.data@,
                address - request.address.0,
                actual,
            )),
    {
        let ghost h = self.calls@;
        let ghost req = request;
        let mut reports = self.reports;
        let r = self.write_op(request, on_progress, &mut reports);
        self.reports = reports;
        self.calls = Ghost(h.push(write_call(req, r)));
        r
    }

    fn erase<F: Fn(Progress)>(&mut self, request: EraseRequest, on_progress: &F) -> (r: Result<()>)
        ensures
            final(self).chip() == old(self).chip(),
            extends(old(self).device().log(), final(self).device().log()),
            request.address.0 % old(self).chip().layout.block_size != 0 ==> (r matches Err(
                Error::InvalidParameter(_),
            )) && final(self).device().log() == old(self).device().log(),
            request.address.0 % old(self).chip().layout.block_size != 0 ==> final(self).progress()
                == old(self).progress(),
            r is Ok ==> request.address.0 % old(self).chip().layout.block_size == 0
                && nor_erase_result(
                added(old(self).device().log(), final(self).device().log()),
                old(self).four_byte(),
                old(self).chip().layout.block_size,
                request,
            ),
            r is Ok ==> final(self).progress() == old(self).progress() + count_reports(
                div_ceil(request.length as int, old(self).chip().layout.block_size as int) as nat,
            ),
    {
        let ghost h = self.calls@;
        let ghost req = request;
        let mut reports = self.reports;
        let r = self.erase_op(request, on_progress, &mut reports);
        self.reports = reports;
        self.calls = Ghost(h.push(erase_call(req, r)));
        r
    }

    fn get_status(&mut self) -> (r: Result<Vec<u8>>)
        ensures
            final(self).chip() == old(self).chip(),
            extends(old(self).device().log(), final(self).device().log()),
            r is Ok ==> query_frame(
                added(old(self).device().log(), final(self).device().log()),
                nor_status_query(),
                r->Ok_0@,
            ),
            r is Err ==> faulted(old(self).device().log(), final(self).device().log()),
    {
        let ghost h = self.calls@;
        let r = self.get_status_op();
        self.calls = Ghost(h.push(get_status_call(r)));
        r
    }

    fn set_status(&mut self, status: &[u8]) -> (r: Result<()>)
        ensures
            final(self).chip() == old(self).chip(),
            extends(old(self).device().log(), final(self).device().log()),
            status@.len() == 0 ==> r is Ok && final(self).device().log() == old(
                self,
            ).device().log(),
            r is Ok && status@.len() > 0 ==> nor_status_write_traffic(
                added(old(self).device().log(), final(self).device().log()),
                status@[0],
            ),
            r is Err ==> faulted(old(self).device().log(), final(self).device().log()) || (r matches Err(
                Error::Timeout,
            ) && nor_timed_out(added(old(self).device().log(), final(self).device().log()))),
    {
        let ghost h = self.calls@;
        let r = self.set_status_op(status);
        self.calls = Ghost(h.push(set_status_call(status@, r)));
        r
    }
}

} // verus!
