//! SPI Flash Simulator
//!
//! A high-level simulator for SPI Flash chips (NAND/NOR) to enable
//! end-to-end integration testing without hardware.
//!
//! The simulated chip is a byte-driven state machine: [`nand_step`] says what
//! the chip does with each byte it receives and what it answers, and
//! releasing chip select ends the current command.

use vstd::prelude::*;

use crate::error::{Error, Result};
use crate::infrastructure::programmer::traits::{added, clocks, BusOp, Programmer};

verus! {

/// Largest page size the simulator accepts (its column pointer is 16 bits wide).
pub const SIM_MAX_PAGE_SIZE: u32 = 65535;

/// Abstract state of the simulated SPI NAND chip.
pub struct NandModel {
    /// Main storage array (flat byte vector)
    pub memory: Seq<u8>,
    /// Page data buffer (cache) used by page read and program
    pub page_buffer: Seq<u8>,
    /// Status register (feature C0h)
    pub status: u8,
    /// Write enable latch
    pub write_enabled: bool,
    /// Row address of the last page read
    pub row: u32,
    /// Column pointer into the page buffer
    pub column: u16,
    pub page_size: u32,
    pub block_size: u32,
    /// Opcode of the command being received, if any
    pub command: Option<u8>,
    /// Bytes received after the opcode
    pub args: Seq<u8>,
}

/// Row (page) address carried big-endian by three bytes.
pub open spec fn row_of(args: Seq<u8>) -> u32 {
    (args[0] as int * 65536 + args[1] as int * 256 + args[2] as int) as u32
}

/// Column address carried big-endian by two bytes.
pub open spec fn column_of(args: Seq<u8>) -> u16 {
    (args[0] as int * 256 + args[1] as int) as u16
}

/// `mem` with the bytes of `data` written from `start` on.
pub open spec fn overwrite(mem: Seq<u8>, start: int, data: Seq<u8>) -> Seq<u8> {
    Seq::new(
        mem.len(),
        |j: int|
            if start <= j < start + data.len() {
                data[j - start]
            } else {
                mem[j]
            },
    )
}

/// `n` erased bytes.
pub open spec fn erased(n: nat) -> Seq<u8> {
    Seq::new(n, |i: int| 0xFFu8)
}

/// The simulated chip after receiving `byte`, and the byte it answers.
pub open spec fn nand_step(s: NandModel, byte: u8) -> (NandModel, u8) {
    match s.command {
        Option::None => {
            let wel = if byte == 0x06 {
                true
            } else if byte == 0x04 {
                false
            } else {
                s.write_enabled
            };
            (NandModel { command: Some(byte), args: Seq::empty(), write_enabled: wel, ..s }, 0xFF)
        },
        Option::Some(op) => {
            let args = s.args.push(byte);
            let n = args.len();
            let s1 = NandModel { args, ..s };
            let ps = s.page_size as int;
            if op == 0x9F {
                (s1, if n == 1 { 0xEF } else if n == 2 { 0xAA } else if n == 3 { 0x21 } else { 0xFF })
            } else if op == 0x0F {
                (s1, if n == 2 { if args[0] == 0xC0 { s.status } else { 0x00 } } else { 0xFF })
            } else if op == 0x1F {
                (if n == 2 && args[0] == 0xC0 { NandModel { status: args[1], ..s1 } } else { s1 }, 0xFF)
            } else if op == 0x13 {
                if n == 3 {
                    let row = row_of(args);
                    let start = row * ps;
                    if start + ps <= s.memory.len() {
                        (NandModel { row, page_buffer: s.memory.subrange(start, start + ps), ..s1 }, 0xFF)
                    } else {
                        (NandModel { row, ..s1 }, 0xFF)
                    }
                } else {
                    (s1, 0xFF)
                }
            } else if op == 0x03 {
                if n == 3 {
                    (NandModel { column: column_of(args), ..s1 }, 0xFF)
                } else if n > 3 {
                    if (s.column as int) < s.page_buffer.len() {
                        (NandModel { column: (s.column + 1) as u16, ..s1 }, s.page_buffer[s.column as int])
                    } else {
                        (s1, 0xFF)
                    }
                } else {
                    (s1, 0xFF)
                }
            } else if op == 0x02 {
                if n == 2 {
                    (NandModel { column: column_of(args), ..s1 }, 0xFF)
                } else if n > 2 && (s.column as int) < s.page_buffer.len() {
                    (NandModel {
                        page_buffer: s.page_buffer.update(s.column as int, byte),
                        column: (s.column + 1) as u16,
                        ..s1
                    }, 0xFF)
                } else {
                    (s1, 0xFF)
                }
            } else if op == 0x10 {
                if n == 3 && s.write_enabled {
                    let start = row_of(args) * ps;
                    let mem = if start + ps <= s.memory.len() {
                        overwrite(s.memory, start, s.page_buffer)
                    } else {
                        s.memory
                    };
                    (NandModel { memory: mem, write_enabled: false, ..s1 }, 0xFF)
                } else {
                    (s1, 0xFF)
                }
            } else if op == 0xD8 {
                if n == 3 && s.write_enabled {
                    let ppb = s.block_size as int / ps;
                    let first_page = (row_of(args) as int / ppb) * ppb;
                    let start = first_page * ps;
                    let bs = s.block_size as int;
                    let mem = if start + bs <= s.memory.len() {
                        overwrite(s.memory, start, erased(s.block_size as nat))
                    } else {
                        s.memory
                    };
                    (NandModel { memory: mem, write_enabled: false, ..s1 }, 0xFF)
                } else {
                    (s1, 0xFF)
                }
            } else {
                (s1, 0xFF)
            }
        },
    }
}

/// The simulated chip after chip select is released: the current command ends.
pub open spec fn nand_deselect(s: NandModel) -> NandModel {
    NandModel { command: None, args: Seq::empty(), ..s }
}

/// The simulated chip after receiving the bytes `tx` in order, and its answers.
/// `buf` with its start overwritten by `outs`, as far as it reaches.
pub open spec fn filled(buf: Seq<u8>, outs: Seq<u8>) -> Seq<u8> {
    Seq::new(buf.len(), |i: int| if i < outs.len() { outs[i] } else { buf[i] })
}

pub open spec fn nand_run(s: NandModel, tx: Seq<u8>) -> (NandModel, Seq<u8>)
    decreases tx.len(),
{
    if tx.len() == 0 {
        (s, Seq::empty())
    } else {
        let (s1, out) = nand_run(s, tx.drop_last());
        let (s2, b) = nand_step(s1, tx.last());
        (s2, out.push(b))
    }
}

/// The write enable latch: only WRITE ENABLE (0x06), received as an opcode,
/// sets it; WRITE DISABLE (0x04) clears it, and so does the last address
/// byte of a PROGRAM EXECUTE (0x10) or BLOCK ERASE (0xD8).
pub proof fn lemma_step_latch(s: NandModel, b: u8)
    ensures
        nand_step(s, b).0.write_enabled ==> s.write_enabled || (s.command is None && b == 0x06),
        s.command is None && b == 0x06 ==> nand_step(s, b).0.write_enabled,
        s.command is None && b == 0x04 ==> !nand_step(s, b).0.write_enabled,
        (s.command == Some(0x10u8) || s.command == Some(0xD8u8)) && s.args.len() == 2
            ==> !nand_step(s, b).0.write_enabled,
{
}

/// The memory keeps its size, and changes only on the last address byte of
/// a PROGRAM EXECUTE (0x10) or BLOCK ERASE (0xD8) received with the write
/// enable latch set.
pub proof fn lemma_step_memory(s: NandModel, b: u8)
    ensures
        nand_step(s, b).0.memory.len() == s.memory.len(),
        nand_step(s, b).0.memory != s.memory ==> s.write_enabled && s.args.len() == 2 && (s.command
            == Some(0x10u8) || s.command == Some(0xD8u8)),
{
}

/// Whatever bytes the chip receives, its memory keeps its size.
pub proof fn lemma_run_memory_len(s: NandModel, tx: Seq<u8>)
    ensures
        nand_run(s, tx).0.memory.len() == s.memory.len(),
    decreases tx.len(),
{
    if tx.len() > 0 {
        lemma_run_memory_len(s, tx.drop_last());
        lemma_step_memory(nand_run(s, tx.drop_last()).0, tx.last());
    }
}

/// A command frame whose opcode is not WRITE ENABLE, begun with the latch
/// clear (or whose opcode is WRITE DISABLE), leaves the memory as it was and
/// the latch clear, whatever bytes follow the opcode. In particular a
/// PROGRAM EXECUTE or BLOCK ERASE without a WRITE ENABLE before it changes
/// nothing in the memory.
pub proof fn lemma_frame_without_enable(s: NandModel, tx: Seq<u8>)
    requires
        s.command is None,
        tx.len() > 0,
        tx[0] != 0x06,
        !s.write_enabled || tx[0] == 0x04,
    ensures
        nand_run(s, tx).0.memory == s.memory,
        !nand_run(s, tx).0.write_enabled,
        nand_run(s, tx).0.command == Some(tx[0]),
        nand_deselect(nand_run(s, tx).0).memory == s.memory,
        !nand_deselect(nand_run(s, tx).0).write_enabled,
    decreases tx.len(),
{
    if tx.len() == 1 {
        assert(tx.drop_last() =~= Seq::<u8>::empty());
        lemma_step_latch(s, tx[0]);
        lemma_step_memory(s, tx[0]);
    } else {
        lemma_frame_without_enable(s, tx.drop_last());
        let s1 = nand_run(s, tx.drop_last()).0;
        lemma_step_latch(s1, tx.last());
        lemma_step_memory(s1, tx.last());
    }
}

/// The simulated chip after bus event `op`, or `None` when `op` records an
/// answer the chip would not have given. Events of other buses leave it alone.
pub open spec fn chip_after(s: NandModel, op: BusOp) -> Option<NandModel> {
    match op {
        BusOp::Select(active) => Some(
            if active {
                s
            } else {
                nand_deselect(s)
            },
        ),
        BusOp::Clock { mosi, miso } => {
            let (s2, out) = nand_step(s, mosi);
            if out == miso {
                Some(s2)
            } else {
                None
            }
        },
        _ => Some(s),
    }
}

/// The simulated chip after the bus events `ops`, or `None` when they record
/// an answer it would not have given.
pub open spec fn chip_replay(s: NandModel, ops: Seq<BusOp>) -> Option<NandModel>
    decreases ops.len(),
{
    if ops.len() == 0 {
        Some(s)
    } else {
        match chip_replay(s, ops.drop_last()) {
            Some(t) => chip_after(t, ops.last()),
            None => None,
        }
    }
}

/// Replaying two runs of events is replaying the first, then the second.
pub proof fn lemma_chip_replay_append(s: NandModel, a: Seq<BusOp>, b: Seq<BusOp>)
    ensures
        chip_replay(s, a + b) == match chip_replay(s, a) {
            Some(t) => chip_replay(t, b),
            None => None,
        },
    decreases b.len(),
{
    if b.len() == 0 {
        assert(a + b =~= a);
    } else {
        assert((a + b).drop_last() =~= a + b.drop_last());
        lemma_chip_replay_append(s, a, b.drop_last());
    }
}

/// Running two byte strings is running the first, then the second.
pub proof fn lemma_nand_run_append(s: NandModel, a: Seq<u8>, b: Seq<u8>)
    ensures
        nand_run(s, a + b) == ({
            let (s1, o1) = nand_run(s, a);
            let (s2, o2) = nand_run(s1, b);
            (s2, o1 + o2)
        }),
    decreases b.len(),
{
    if b.len() == 0 {
        assert(a + b =~= a);
        assert(nand_run(s, a).1 + Seq::<u8>::empty() =~= nand_run(s, a).1);
    } else {
        assert((a + b).drop_last() =~= a + b.drop_last());
        lemma_nand_run_append(s, a, b.drop_last());
        let (s1, o1) = nand_run(s, a);
        let (t, ot) = nand_run(s1, b.drop_last());
        assert(o1 + ot.push(nand_step(t, b.last()).1) =~= (o1 + ot).push(nand_step(t, b.last()).1));
    }
}

/// Replaying the clock events of a transfer of `tx` answered by `rx` is
/// running `tx` through the chip, when the chip answers `rx`.
pub proof fn lemma_chip_replay_clocks(s: NandModel, tx: Seq<u8>, rx: Seq<u8>)
    requires
        tx.len() == rx.len(),
    ensures
        chip_replay(s, clocks(tx, rx)) == if nand_run(s, tx).1 == rx {
            Some(nand_run(s, tx).0)
        } else {
            None
        },
    decreases tx.len(),
{
    if tx.len() > 0 {
        let c = clocks(tx, rx);
        assert(c.drop_last() =~= clocks(tx.drop_last(), rx.drop_last()));
        lemma_chip_replay_clocks(s, tx.drop_last(), rx.drop_last());
        let (t, o) = nand_run(s, tx.drop_last());
        if o == rx.drop_last() {
            if nand_run(s, tx).1 == rx {
                assert(nand_step(t, tx.last()).1 == rx.last()) by {
                    assert(nand_run(s, tx).1.last() == rx.last());
                }
            } else {
                assert(nand_run(s, tx).1 =~= o.push(nand_step(t, tx.last()).1));
                if nand_step(t, tx.last()).1 == rx.last() {
                    assert(o.push(nand_step(t, tx.last()).1) =~= rx);
                }
            }
        } else {
            assert(nand_run(s, tx).1.drop_last() =~= o);
        }
    } else {
        assert(nand_run(s, tx).1 =~= rx);
    }
}

/// Represents the internal state of a simulated SPI NAND chip
#[derive(Debug, Clone)]
struct SpiNandState {
    /// Main storage array (flat byte vector)
    memory: Vec<u8>,
    /// Page Data Buffer (for Read/Program)
    page_buffer: Vec<u8>,
    /// Status Register (Register C0h)
    status_register: u8,
    /// Configuration Register
    config_register: u8,
    /// Write Enable Latch
    write_enabled: bool,
    /// Current internal operation address (Row Address)
    current_row_addr: u32,
    /// Current column address pointer
    column_ptr: u16,
    /// Page Size
    page_size: u32,
    /// Block Size
    block_size: u32,
}

impl SpiNandState {
    fn new(capacity: usize, page_size: u32, block_size: u32) -> (s: Self)
        ensures
            s.memory@ == erased(capacity as nat),
            s.page_buffer@ == erased(page_size as nat),
            s.status_register == 0,
            !s.write_enabled,
            s.current_row_addr == 0,
            s.column_ptr == 0,
            s.page_size == page_size,
            s.block_size == block_size,
    {
        let memory = vec![0xFFu8; capacity];
        let page_buffer = vec![0xFFu8; page_size as usize];
        assert(memory@ =~= erased(capacity as nat));
        assert(page_buffer@ =~= erased(page_size as nat));
        Self {
            memory,
            page_buffer,
            status_register: 0,
            config_register: 0,
            write_enabled: false,
            current_row_addr: 0,
            column_ptr: 0,
            page_size,
            block_size,
        }
    }
}

/// A programmer implementation that simulates a connected SPI Flash chip
pub struct SimulatedProgrammer {
    /// Chip State
    state: SpiNandState,
    /// Currently receiving command?
    current_command: Option<u8>,
    /// Buffer for collecting address/dummy bytes after a command
    cmd_buffer: Vec<u8>,
    /// Bus traffic so far
    bus_log: Ghost<Seq<BusOp>>,
}

/// Row address from three bytes, big-endian.
fn row_address(b0: u8, b1: u8, b2: u8) -> (r: u32)
    ensures
        r == b0 as int * 65536 + b1 as int * 256 + b2 as int,
{
    let r = ((b0 as u32) << 16) | ((b1 as u32) << 8) | (b2 as u32);
    assert(((b0 as u32) << 16) | ((b1 as u32) << 8) | (b2 as u32) == b0 as u32 * 65536 + b1 as u32
        * 256 + b2 as u32) by (bit_vector);
    r
}

/// Column address from two bytes, big-endian.
fn column_address(b0: u8, b1: u8) -> (r: u16)
    ensures
        r == b0 as int * 256 + b1 as int,
{
    let r = ((b0 as u16) << 8) | (b1 as u16);
    assert(((b0 as u16) << 8) | (b1 as u16) == b0 as u16 * 256 + b1 as u16) by (bit_vector);
    r
}

/// `dst` with the `len` bytes from `src_off` of `src` copied in from `dst_off`
/// (or `len` bytes 0xFF when `src` is `None`).
fn copy_bytes(dst: &mut Vec<u8>, dst_off: usize, src: Option<&[u8]>, src_off: usize, len: usize)
    requires
        dst_off + len <= old(dst)@.len(),
        src is Some ==> src_off + len <= src->0@.len(),
    ensures
        final(dst)@ == overwrite(
            old(dst)@,
            dst_off as int,
            match src {
                Some(v) => v@.subrange(src_off as int, src_off + len),
                None => erased(len as nat),
            },
        ),
{
    let ghost old_dst = dst@;
    let dst_len = dst.len();
    let src_len = match src {
        Some(v) => v.len(),
        None => 0,
    };
    let ghost data = match src {
        Some(v) => v@.subrange(src_off as int, src_off + len),
        None => erased(len as nat),
    };
    let mut i: usize = 0;
    while i < len
        invariant
            dst_off + len <= old_dst.len(),
            src is Some ==> src_off + len <= src->0@.len(),
            data.len() == len,
            data == match src {
                Some(v) => v@.subrange(src_off as int, src_off + len),
                None => erased(len as nat),
            },
            dst@.len() == old_dst.len(),
            dst_len == old_dst.len(),
            src is Some ==> src_len == src->0@.len(),
            i <= len,
            forall|j: int| 0 <= j < dst_off ==> dst@[j] == old_dst[j],
            forall|j: int| dst_off <= j < dst_off + i ==> dst@[j] == data[j - dst_off],
            forall|j: int| dst_off + i <= j < old_dst.len() ==> dst@[j] == old_dst[j],
        decreases len - i,
    {
        let b = match src {
            Some(v) => v[src_off + i],
            None => 0xFFu8,
        };
        dst.set(dst_off + i, b);
        i = i + 1;
    }
    assert(dst@ =~= overwrite(old_dst, dst_off as int, data));
}

impl SimulatedProgrammer {
    /// The simulator's geometry is usable: pages fit the column pointer and
    /// blocks hold at least one page.
    closed spec fn ok(&self) -> bool {
        &&& 0 < self.state.page_size <= SIM_MAX_PAGE_SIZE
        &&& self.state.page_size <= self.state.block_size
        &&& self.state.page_buffer@.len() == self.state.page_size
    }

    /// The simulated chip as a [`NandModel`].
    pub closed spec fn model(&self) -> NandModel {
        NandModel {
            memory: self.state.memory@,
            page_buffer: self.state.page_buffer@,
            status: self.state.status_register,
            write_enabled: self.state.write_enabled,
            row: self.state.current_row_addr,
            column: self.state.column_ptr,
            page_size: self.state.page_size,
            block_size: self.state.block_size,
            command: self.current_command,
            args: self.cmd_buffer@,
        }
    }

    pub fn new(capacity: usize, page_size: u32, block_size: u32) -> (p: Self)
        requires
            0 < page_size <= SIM_MAX_PAGE_SIZE,
            page_size <= block_size,
        ensures
            p.wf(),
            p.model() == (NandModel {
                memory: erased(capacity as nat),
                page_buffer: erased(page_size as nat),
                status: 0,
                write_enabled: false,
                row: 0,
                column: 0,
                page_size,
                block_size,
                command: None,
                args: Seq::empty(),
            }),
            p.log() == Seq::<BusOp>::empty(),
    {
        let p = Self {
            state: SpiNandState::new(capacity, page_size, block_size),
            current_command: None,
            cmd_buffer: Vec::new(),
            bus_log: Ghost(Seq::empty()),
        };
        assert(p.model().args =~= Seq::<u8>::empty());
        p
    }

    /// Get a copy of the internal memory for verification
    pub fn get_memory(&self) -> (m: Vec<u8>)
        ensures
            m@ == self.model().memory,
    {
        self.state.memory.clone()
    }

    /// Initialize memory with data: the first `min(capacity, data.len())` bytes are replaced.
    pub fn set_memory(&mut self, data: &[u8])
        requires
            old(self).wf(),
        ensures
            final(self).wf(),
            final(self).log() == old(self).log(),
            final(self).model() == (NandModel {
                memory: overwrite(
                    old(self).model().memory,
                    0,
                    data@.subrange(0, vstd::math::min(old(self).model().memory.len() as int, data@.len() as int)),
                ),
                ..old(self).model()
            }),
    {
        let len = if self.state.memory.len() < data.len() {
            self.state.memory.len()
        } else {
            data.len()
        };
        copy_bytes(&mut self.state.memory, 0, Some(data), 0, len);
    }

    /// Page read: copy page `row` into the page buffer, if it lies inside the memory.
    fn load_page(&mut self, row: u32)
        requires
            old(self).ok(),
        ensures
            final(self).ok(),
            final(self).bus_log == old(self).bus_log,
            final(self).model() == (NandModel {
                page_buffer: if row as int * old(self).state.page_size + old(self).state.page_size
                    <= old(self).state.memory@.len() {
                    old(self).state.memory@.subrange(
                        row as int * old(self).state.page_size,
                        row as int * old(self).state.page_size + old(self).state.page_size,
                    )
                } else {
                    old(self).state.page_buffer@
                },
                ..old(self).model()
            }),
    {
        let ps = self.state.page_size as u64;
        assert(row as u64 * ps <= 0xFFFF_FFFFu64 * 65535) by (nonlinear_arith)
            requires
                ps <= 65535,
        ;
        let start = row as u64 * ps;
        if start + ps <= self.state.memory.len() as u64 {
            copy_bytes(
                &mut self.state.page_buffer,
                0,
                Some(self.state.memory.as_slice()),
                start as usize,
                ps as usize,
            );
            assert(self.state.page_buffer@ =~= self.state.memory@.subrange(
                start as int,
                start + ps,
            ));
        }
    }

    /// Program execute: copy the page buffer into page `row`, if it lies inside the memory.
    fn program_page(&mut self, row: u32)
        requires
            old(self).ok(),
        ensures
            final(self).ok(),
            final(self).bus_log == old(self).bus_log,
            final(self).model() == (NandModel {
                memory: if row as int * old(self).state.page_size + old(self).state.page_size
                    <= old(self).state.memory@.len() {
                    overwrite(
                        old(self).state.memory@,
                        row as int * old(self).state.page_size,
                        old(self).state.page_buffer@,
                    )
                } else {
                    old(self).state.memory@
                },
                ..old(self).model()
            }),
    {
        let ps = self.state.page_size as u64;
        assert(row as u64 * ps <= 0xFFFF_FFFFu64 * 65535) by (nonlinear_arith)
            requires
                ps <= 65535,
        ;
        let start = row as u64 * ps;
        if start + ps <= self.state.memory.len() as u64 {
            copy_bytes(
                &mut self.state.memory,
                start as usize,
                Some(self.state.page_buffer.as_slice()),
                0,
                ps as usize,
            );
            assert(self.state.page_buffer@.subrange(0, ps as int) =~= self.state.page_buffer@);
        }
    }

    /// Block erase: fill the block holding page `row` with 0xFF, if it lies inside the memory.
    fn erase_block(&mut self, row: u32)
        requires
            old(self).ok(),
        ensures
            final(self).ok(),
            final(self).bus_log == old(self).bus_log,
            ({
                let ps = old(self).state.page_size as int;
                let bs = old(self).state.block_size as int;
                let ppb = bs / ps;
                let start = (row as int / ppb) * ppb * ps;
                final(self).model() == (NandModel {
                    memory: if start + bs <= old(self).state.memory@.len() {
                        overwrite(old(self).state.memory@, start, erased(bs as nat))
                    } else {
                        old(self).state.memory@
                    },
                    ..old(self).model()
                })
            }),
    {
        assert(self.state.block_size / self.state.page_size >= 1) by (nonlinear_arith)
            requires
                self.state.block_size >= self.state.page_size,
                self.state.page_size > 0,
        ;
        let pages_per_block = self.state.block_size / self.state.page_size;
        assert((row / pages_per_block) * pages_per_block <= row) by (nonlinear_arith)
            requires
                pages_per_block > 0,
        ;
        let block_start_page = (row / pages_per_block) * pages_per_block;
        assert(block_start_page as u64 * self.state.page_size as u64 <= 0xFFFF_FFFFu64 * 65535)
            by (nonlinear_arith)
            requires
                self.state.page_size <= 65535,
        ;
        let start = block_start_page as u64 * self.state.page_size as u64;
        let end = start + self.state.block_size as u64;
        if end <= self.state.memory.len() as u64 {
            copy_bytes(
                &mut self.state.memory,
                start as usize,
                None,
                0,
                self.state.block_size as usize,
            );
        }
    }

    /// Feed one byte to the simulated chip and return its answer.
    fn handle_spi_byte(&mut self, byte: u8) -> (out: u8)
        requires
            old(self).ok(),
        ensures
            final(self).ok(),
            final(self).bus_log == old(self).bus_log,
            (final(self).model(), out) == nand_step(old(self).model(), byte),
    {
        let ghost s = self.model();
        match self.current_command {
            None => {
                // New command start
                self.current_command = Some(byte);
                self.cmd_buffer.clear();
                // Handle single-byte commands immediately
                if byte == 0x06 {
                    self.state.write_enabled = true;
                } else if byte == 0x04 {
                    self.state.write_enabled = false;
                }
                assert(self.model().args =~= Seq::<u8>::empty());
                0xFF  // Hi-Z / Dummy return
            },
            Some(opcode) => {
                self.cmd_buffer.push(byte);
                let n = self.cmd_buffer.len();
                match opcode {
                    // READ ID (0x9F)
                    0x9F => {
                        if n == 1 {
                            0xEF
                        } else if n == 2 {
                            0xAA
                        } else if n == 3 {
                            0x21
                        } else {
                            0xFF
                        }
                    },
                    // GET FEATURE (0x0F)
                    0x0F => {
                        if n == 2 {
                            let addr = self.cmd_buffer[0];
                            if addr == 0xC0 {
                                self.state.status_register
                            } else {
                                0x00
                            }
                        } else {
                            0xFF
                        }
                    },
                    // SET FEATURE (0x1F)
                    0x1F => {
                        if n == 2 {
                            let addr = self.cmd_buffer[0];
                            let val = self.cmd_buffer[1];
                            if addr == 0xC0 {
                                self.state.status_register = val;
                            }
                        }
                        0xFF
                    },
                    // PAGE READ (0x13)
                    0x13 => {
                        if n == 3 {
                            let row = row_address(
                                self.cmd_buffer[0],
                                self.cmd_buffer[1],
                                self.cmd_buffer[2],
                            );
                            self.state.current_row_addr = row;
                            self.load_page(row);
                        }
                        0xFF
                    },
                    // READ CACHE (0x03)
                    0x03 => {
                        if n == 3 {
                            self.state.column_ptr = column_address(
                                self.cmd_buffer[0],
                                self.cmd_buffer[1],
                            );
                            0xFF
                        } else if n > 3 {
                            let ptr = self.state.column_ptr as usize;
                            if ptr < self.state.page_buffer.len() {
                                let data = self.state.page_buffer[ptr];
                                self.state.column_ptr = self.state.column_ptr + 1;
                                data
                            } else {
                                0xFF
                            }
                        } else {
                            0xFF
                        }
                    },
                    // PROGRAM LOAD (0x02)
                    0x02 => {
                        if n == 2 {
                            self.state.column_ptr = column_address(
                                self.cmd_buffer[0],
                                self.cmd_buffer[1],
                            );
                        } else if n > 2 {
                            let ptr = self.state.column_ptr as usize;
                            if ptr < self.state.page_buffer.len() {
                                self.state.page_buffer.set(ptr, byte);
                                self.state.column_ptr = self.state.column_ptr + 1;
                            }
                        }
                        0xFF
                    },
                    // PROGRAM EXECUTE (0x10)
                    0x10 => {
                        if n == 3 && self.state.write_enabled {
                            let row = row_address(
                                self.cmd_buffer[0],
                                self.cmd_buffer[1],
                                self.cmd_buffer[2],
                            );
                            self.program_page(row);
                            self.state.write_enabled = false;
                        }
                        0xFF
                    },
                    // BLOCK ERASE (0xD8)
                    0xD8 => {
                        if n == 3 && self.state.write_enabled {
                            let row = row_address(
                                self.cmd_buffer[0],
                                self.cmd_buffer[1],
                                self.cmd_buffer[2],
                            );
                            self.erase_block(row);
                            self.state.write_enabled = false;
                        }
                        0xFF
                    },
                    _ => 0xFF,
                }
            },
        }
    }
}

impl Programmer for SimulatedProgrammer {
    closed spec fn log(&self) -> Seq<BusOp> {
        self.bus_log@
    }

    closed spec fn wf(&self) -> bool {
        self.ok()
    }

    /// Transfers take a receive buffer of any length: every byte of `tx` is
    /// clocked, and the answers fill the buffer as far as it reaches.
    open spec fn accepts_rx(&self, tx_len: nat, rx_len: nat) -> bool {
        true
    }

    proof fn lemma_accepts_equal(&self, n: nat) {
        assert(self.accepts_rx(n, n) == (n == n));
    }

    open spec fn bulk_limit(&self) -> nat {
        1048576
    }

    open spec fn has_i2c() -> bool {
        false
    }

    open spec fn has_gpio() -> bool {
        false
    }

    /// No I2C on this programmer.
    fn i2c_write(&mut self, addr: u8, data: &[u8]) -> (r: Result<()>) {
        Err(Error::NotSupported("I2C is not supported by this programmer".to_string()))
    }

    /// No I2C on this programmer.
    fn i2c_read(&mut self, addr: u8, len: usize) -> (r: Result<Vec<u8>>) {
        Err(Error::NotSupported("I2C is not supported by this programmer".to_string()))
    }

    /// No GPIO on this programmer.
    fn gpio_set(&mut self, pin: u8, level: bool) -> (r: Result<()>) {
        Err(Error::NotSupported("GPIO is not supported by this programmer".to_string()))
    }

    /// No GPIO on this programmer.
    fn gpio_get(&mut self, pin: u8) -> (r: Result<bool>) {
        Err(Error::NotSupported("GPIO is not supported by this programmer".to_string()))
    }

    fn name(&self) -> (n: &str)
        ensures
            n@ == "SimulatedProgrammer"@,
    {
        "SimulatedProgrammer"
    }

    fn spi_transfer(&mut self, tx: &[u8], rx: &mut [u8]) -> (r: Result<()>)
        ensures
            r is Ok,
            final(self).model() == nand_run(old(self).model(), tx@).0,
            final(rx)@ == filled(old(rx)@, nand_run(old(self).model(), tx@).1),
            old(rx)@.len() == tx@.len() ==> nand_run(old(self).model(), tx@) == (
                final(self).model(),
                final(rx)@,
            ),
            final(self).log() == old(self).log() + clocks(tx@, nand_run(old(self).model(), tx@).1),
            chip_replay(old(self).model(), added(old(self).log(), final(self).log())) == Some(
                final(self).model(),
            ),
    {
        let ghost old_log = self.bus_log@;
        let ghost m0 = self.model();
        let ghost rx0 = rx@;
        let ghost mut outs: Seq<u8> = Seq::empty();
        let mut i: usize = 0;
        while i < tx.len()
            invariant
                self.ok(),
                i <= tx@.len(),
                rx@.len() == rx0.len(),
                outs.len() == i,
                self.bus_log@ == old_log + clocks(tx@.subrange(0, i as int), outs),
                nand_run(m0, tx@.subrange(0, i as int)) == (self.model(), outs),
                forall|j: int|
                    0 <= j < rx0.len() ==> #[trigger] rx@[j] == if j < i {
                        outs[j]
                    } else {
                        rx0[j]
                    },
            decreases tx@.len() - i,
        {
            let ret = self.handle_spi_byte(tx[i]);
            if i < rx.len() {
                rx[i] = ret;
            }
            proof {
                self.bus_log@ = self.bus_log@.push(BusOp::Clock { mosi: tx@[i as int], miso: ret });
                assert(tx@.subrange(0, i + 1).drop_last() =~= tx@.subrange(0, i as int));
                assert(clocks(tx@.subrange(0, i + 1), outs.push(ret)) =~= clocks(
                    tx@.subrange(0, i as int),
                    outs,
                ).push(BusOp::Clock { mosi: tx@[i as int], miso: ret }));
                outs = outs.push(ret);
            }
            i = i + 1;
        }
        assert(tx@.subrange(0, tx@.len() as int) =~= tx@);
        assert(rx@ =~= filled(rx0, outs));
        proof {
            if rx0.len() == tx@.len() {
                assert(rx@ =~= outs);
            }
            assert(added(old_log, self.bus_log@) =~= clocks(tx@, outs));
            lemma_chip_replay_clocks(m0, tx@, outs);
        }
        Ok(())
    }

    fn set_cs(&mut self, active: bool) -> (r: Result<()>)
        ensures
            r is Ok,
            final(self).model() == if active {
                old(self).model()
            } else {
                nand_deselect(old(self).model())
            },
            chip_replay(old(self).model(), added(old(self).log(), final(self).log())) == Some(
                final(self).model(),
            ),
    {
        let ghost m0 = self.model();
        let ghost l0 = self.bus_log@;
        if !active {
            // CS rising edge: Reset command state
            self.current_command = None;
            self.cmd_buffer.clear();
            assert(self.model().args =~= Seq::<u8>::empty());
        }
        proof {
            self.bus_log@ = self.bus_log@.push(BusOp::Select(active));
            let one = seq![BusOp::Select(active)];
            assert(added(l0, self.bus_log@) =~= one);
            assert(one.drop_last() =~= Seq::<BusOp>::empty());
            assert(chip_replay(m0, one.drop_last()) == Some(m0));
        }
        Ok(())
    }

    /// Clocks out `len` zero bytes and returns what the chip answered.
    fn spi_read_bulk(&mut self, len: usize) -> (r: Result<Vec<u8>>)
        ensures
            r is Ok,
            nand_run(old(self).model(), Seq::new(len as nat, |i: int| 0u8)) == (
                final(self).model(),
                r->Ok_0@,
            ),
            final(self).log() == old(self).log() + clocks(Seq::new(len as nat, |i: int| 0u8), r->Ok_0@),
    {
        let mut rx: Vec<u8> = vec![0u8; len];
        // In bulk read, we just send dummy bytes (0x00) and read responses
        let tx: Vec<u8> = vec![0u8; len];
        let ghost l0 = self.log();
        self.spi_transfer(tx.as_slice(), rx.as_mut_slice())?;
        assert(tx@ =~= Seq::new(len as nat, |i: int| 0u8));
        assert(added(l0, self.log()) =~= clocks(tx@, rx@));
        Ok(rx)
    }

    fn max_bulk_transfer_size(&self) -> (n: usize)
        ensures
            n == 1048576,
    {
        1048576  // Unlimited for sim
    }
}

} // verus!
