//! SPI NAND Flash Protocol Implementation
//!
//! Pages are moved between the array and the chip's cache by PAGE READ and
//! PROGRAM EXECUTE, and between the cache and the host by READ CACHE and
//! PROGRAM LOAD; every operation waits until the chip reports it is no longer
//! busy.

pub mod roundtrip;

use vstd::prelude::*;

use crate::domain::chip::{ChipLayout, ChipSpec};
use crate::domain::flash_operation::{
    erase_call, erase_fits, get_status_call, read_call, read_fits, set_status_call, write_call,
    write_fits, FlashCall,
};
use crate::domain::types::{count_reports, lemma_report_next, lemma_step_reports_next, report, step_reports};
use crate::domain::{
    EraseRequest, FlashOperation, OobMode, Progress, ReadRequest, WriteRequest,
};
use crate::error::{Error, Result};
use crate::infrastructure::flash_protocol::commands::{
    CMD_NAND_BLOCK_ERASE, CMD_NAND_GET_FEATURE, CMD_NAND_PAGE_READ, CMD_NAND_PROGRAM_EXECUTE,
    CMD_NAND_PROGRAM_LOAD, CMD_NAND_READ_CACHE, CMD_NAND_SET_FEATURE, CMD_WRITE_ENABLE,
    CONFIG_ECC_ENABLE, FEATURE_CONFIG, FEATURE_STATUS, STATUS_NAND_E_FAIL, STATUS_NAND_OIP,
    STATUS_NAND_P_FAIL,
};
use crate::infrastructure::programmer::frames::{
    lemma_pieces_cover,
    busy_polls, concat, div_ceil, div_ceil_u32, div_ceil_usize, extend_prefix, lemma_added_trans,
    lemma_busy_polls_push, lemma_command_frame, lemma_command_frame2, lemma_concat_push,
    lemma_piece_start, lemma_polls_until_ready, lemma_query_frame, lemma_timed_out_suffix,
    busy_frame, polled_status, polls_until_ready, timed_out,
};
use crate::infrastructure::programmer::traits::{
    added, command_frame, extends, faulted, query_frame, BusOp, Programmer,
};

verus! {

/// The NAND chip stayed busy through the whole poll budget at the end of `ops`.
pub open spec fn nand_timed_out(ops: Seq<BusOp>) -> bool {
    timed_out(ops, status_query(), STATUS_NAND_OIP, NAND_POLL_BUDGET as int)
}

/// The last status query of `ops` found a bit of `mask` set: the chip
/// reported that the operation failed.
pub open spec fn reported_failure(ops: Seq<BusOp>, mask: u8) -> bool {
    ops.len() >= 5 && busy_frame(ops.subrange(ops.len() - 5, ops.len() as int), status_query(), mask)
}

/// Microseconds between two status polls.
pub const NAND_POLL_INTERVAL_US: u32 = 100;

/// Status polls before giving up: 5 seconds at the poll interval.
pub const NAND_POLL_BUDGET: u32 = 50000;

/// The three bytes of a row (page) address, most significant first.
pub open spec fn row_bytes(page: u32) -> Seq<u8> {
    seq![(page >> 16u32) as u8, (page >> 8u32) as u8, page as u8]
}

/// The two bytes of a column address, most significant first.
pub open spec fn column_bytes(column: u16) -> Seq<u8> {
    seq![(column >> 8u16) as u8, column as u8]
}

/// Page and column addresses go out most significant byte first: the three
/// row bytes give the page (below 2^24) and the two column bytes the column.
pub proof fn lemma_nand_address_bytes(page: u32, column: u16)
    ensures
        row_bytes(page).len() == 3,
        row_bytes(page)[0] * 0x10000 + row_bytes(page)[1] * 0x100 + row_bytes(page)[2] == page
            % 0x1000000,
        column_bytes(column).len() == 2,
        column_bytes(column)[0] * 0x100 + column_bytes(column)[1] == column,
{
    let r0 = (page >> 16u32) as u8;
    let r1 = (page >> 8u32) as u8;
    let r2 = page as u8;
    assert(r0 as u32 * 0x10000u32 + r1 as u32 * 0x100u32 + r2 as u32 == page % 0x1000000u32)
        by (bit_vector)
        requires
            r0 == (page >> 16u32) as u8,
            r1 == (page >> 8u32) as u8,
            r2 == page as u8,
    ;
    let c0 = (column >> 8u16) as u8;
    let c1 = column as u8;
    assert(c0 as u16 * 0x100u16 + c1 as u16 == column) by (bit_vector)
        requires
            c0 == (column >> 8u16) as u8,
            c1 == column as u8,
    ;
}

/// The GET FEATURE query of the status register.
pub open spec fn status_query() -> Seq<u8> {
    seq![CMD_NAND_GET_FEATURE, FEATURE_STATUS]
}

/// The GET FEATURE query of the configuration register.
pub open spec fn config_query() -> Seq<u8> {
    seq![CMD_NAND_GET_FEATURE, FEATURE_CONFIG]
}

/// Configuration register value with the ECC enable bit set or cleared.
pub open spec fn ecc_config(config: u8, enabled: bool) -> u8 {
    if enabled {
        config | CONFIG_ECC_ENABLE
    } else {
        config & !CONFIG_ECC_ENABLE
    }
}

/// `ops` reads the configuration register and writes it back with the ECC bit as requested.
pub open spec fn ecc_traffic(ops: Seq<BusOp>, enabled: bool) -> bool {
    let q = ops.subrange(0, 5);
    &&& ops.len() == 10
    &&& query_frame(q, config_query(), seq![polled_status(q, config_query())])
    &&& command_frame(
        ops.subrange(5, 10),
        seq![
            CMD_NAND_SET_FEATURE,
            FEATURE_CONFIG,
            ecc_config(polled_status(q, config_query()), enabled),
        ],
    )
}

/// Switching the on-chip ECC reads the configuration register (GET FEATURE
/// 0xB0) and writes it back (SET FEATURE 0xB0) with the ECC enable bit
/// (0x10) set exactly when ECC is asked for, and every other bit as read.
pub proof fn lemma_ecc_traffic_sets_enable_bit(ops: Seq<BusOp>, enabled: bool)
    requires
        ecc_traffic(ops, enabled),
    ensures
        ops.len() == 10,
        ops[1] is Clock && ops[1]->mosi == 0x0Fu8 && ops[2] is Clock && ops[2]->mosi == 0xB0u8,
        ops[3] is Clock,
        ops[6] is Clock && ops[6]->mosi == 0x1Fu8 && ops[7] is Clock && ops[7]->mosi == 0xB0u8,
        ops[8] is Clock,
        (ops[8]->mosi & 0x10u8 != 0) == enabled,
        ops[8]->mosi & 0xEFu8 == ops[3]->miso & 0xEFu8,
{
    let q = ops.subrange(0, 5);
    let w = ops.subrange(5, 10);
    assert(q.subrange(1, 3)[0] == ops[1] && q.subrange(1, 3)[1] == ops[2]);
    assert(q.subrange(3, 4)[0] == ops[3]);
    assert(w.subrange(1, 4)[0] == ops[6] && w.subrange(1, 4)[1] == ops[7] && w.subrange(1, 4)[2]
        == ops[8]);
    let c = ops[3]->miso;
    assert(polled_status(q, config_query()) == c);
    let v = ops[8]->mosi;
    assert(v == ecc_config(c, enabled));
    if enabled {
        assert((c | 0x10u8) & 0x10u8 != 0 && (c | 0x10u8) & 0xEFu8 == c & 0xEFu8) by (bit_vector);
    } else {
        assert((c & !0x10u8) & 0x10u8 == 0 && (c & !0x10u8) & 0xEFu8 == c & 0xEFu8) by (bit_vector);
    }
}

/// `ops` loads `page` into the cache, waits, and reads `data` from column `column`.
pub open spec fn page_read_traffic(ops: Seq<BusOp>, page: u32, column: u16, data: Seq<u8>) -> bool {
    let m = data.len() as int + 6;
    &&& ops.len() >= 6 + m
    &&& command_frame(ops.subrange(0, 6), seq![CMD_NAND_PAGE_READ] + row_bytes(page))
    &&& polls_until_ready(ops.subrange(6, ops.len() - m), status_query(), STATUS_NAND_OIP)
    &&& query_frame(
        ops.subrange(ops.len() - m, ops.len() as int),
        seq![CMD_NAND_READ_CACHE] + column_bytes(column) + seq![0u8],
        data,
    )
}

/// The page image programmed for page `i` of `data`: its bytes, padded with 0xFF.
pub open spec fn page_image(data: Seq<u8>, i: int, page_size: int) -> Seq<u8> {
    Seq::new(
        page_size as nat,
        |j: int|
            if i * page_size + j < data.len() {
                data[i * page_size + j]
            } else {
                0xFFu8
            },
    )
}

/// `ops` programs `image` into `page`: write enable, program load, program
/// execute, wait, and a status check that found no program failure.
pub open spec fn page_program_traffic(ops: Seq<BusOp>, page: u32, image: Seq<u8>) -> bool {
    let a = image.len() as int + 8;
    let b = a + 6;
    let s = ops.subrange(ops.len() - 5, ops.len() as int);
    &&& ops.len() >= b + 5
    &&& command_frame(ops.subrange(0, 3), seq![CMD_WRITE_ENABLE])
    &&& command_frame(ops.subrange(3, a), seq![CMD_NAND_PROGRAM_LOAD, 0u8, 0u8] + image)
    &&& command_frame(ops.subrange(a, b), seq![CMD_NAND_PROGRAM_EXECUTE] + row_bytes(page))
    &&& polls_until_ready(ops.subrange(b, ops.len() - 5), status_query(), STATUS_NAND_OIP)
    &&& query_frame(s, status_query(), seq![polled_status(s, status_query())])
    &&& polled_status(s, status_query()) & STATUS_NAND_P_FAIL == 0
}

/// `ops` erases the block whose first page is `page`: write enable, block
/// erase, wait, and a status check that found no erase failure.
pub open spec fn block_erase_traffic(ops: Seq<BusOp>, page: u32) -> bool {
    let s = ops.subrange(ops.len() - 5, ops.len() as int);
    &&& ops.len() >= 9 + 5
    &&& command_frame(ops.subrange(0, 3), seq![CMD_WRITE_ENABLE])
    &&& command_frame(ops.subrange(3, 9), seq![CMD_NAND_BLOCK_ERASE] + row_bytes(page))
    &&& polls_until_ready(ops.subrange(9, ops.len() - 5), status_query(), STATUS_NAND_OIP)
    &&& query_frame(s, status_query(), seq![polled_status(s, status_query())])
    &&& polled_status(s, status_query()) & STATUS_NAND_E_FAIL == 0
}

/// Column and number of bytes read from each page for an OOB mode.
pub open spec fn read_geometry(layout: ChipLayout, mode: OobMode) -> (u16, int) {
    let oob = match layout.oob_size {
        Some(n) => n as int,
        None => 0,
    };
    match mode {
        OobMode::Excluded => (0, layout.page_size as int),
        OobMode::Included => (0, layout.page_size + oob),
        OobMode::Only => (layout.page_size as u16, oob),
    }
}

/// Bytes of the first page that come before the requested address: its
/// offset in the page when only the main area is read. Reads that include
/// the spare area start at the beginning of the page holding the address.
pub open spec fn read_skip(layout: ChipLayout, request: ReadRequest) -> int {
    if request.oob_mode is Excluded {
        (request.address.0 % layout.page_size) as int
    } else {
        0
    }
}

/// The part of `length` bytes wanted that `got` bytes read cover, after
/// `skip` bytes that are not wanted.
pub open spec fn wanted_part(got: nat, skip: nat, length: nat) -> nat {
    if got >= skip + length {
        length
    } else if got > skip {
        (got - skip) as nat
    } else {
        0
    }
}

/// The reports of a read that has read `done` bytes and may read `left`
/// more pieces of `per` bytes, wanting `length` bytes after `skip`: after
/// each piece, the wanted bytes it has; it stops once they are all there.
pub open spec fn nand_read_reports(done: nat, left: nat, per: nat, skip: nat, length: nat) -> Seq<
    Progress,
>
    decreases left,
{
    if left == 0 {
        Seq::empty()
    } else {
        let next = done + per;
        let p = Progress { current: wanted_part(next, skip, length) as u64, total: length as u64 };
        if next >= skip + length {
            seq![p]
        } else {
            seq![p] + nand_read_reports(next, (left - 1) as nat, per, skip, length)
        }
    }
}

/// One piece of `nand_read_reports`: handing on its report leaves the
/// reports after it.
proof fn lemma_nand_read_reports_next(
    reports: Seq<Progress>,
    done: nat,
    left: nat,
    per: nat,
    skip: nat,
    length: nat,
)
    requires
        left > 0,
    ensures
        ({
            let next = done + per;
            let p = Progress { current: wanted_part(next, skip, length) as u64, total: length as u64 };
            let rest = if next >= skip + length {
                Seq::<Progress>::empty()
            } else {
                nand_read_reports(next, (left - 1) as nat, per, skip, length)
            };
            reports.push(p) + rest == reports + nand_read_reports(done, left, per, skip, length)
        }),
{
    let next = done + per;
    let p = Progress { current: wanted_part(next, skip, length) as u64, total: length as u64 };
    let rest = if next >= skip + length {
        Seq::<Progress>::empty()
    } else {
        nand_read_reports(next, (left - 1) as nat, per, skip, length)
    };
    assert(nand_read_reports(done, left, per, skip, length) =~= seq![p] + rest);
    lemma_report_next(reports, p, seq![p] + rest, rest);
}

/// The part of the gathered bytes `got` that a read returns: from the
/// address's offset `skip`, at most `length` bytes.
pub open spec fn read_window(got: Seq<u8>, skip: int, length: int) -> Seq<u8> {
    let e = vstd::math::min(skip + length, got.len() as int);
    got.subrange(vstd::math::min(skip, e), e)
}

/// `ops` is a complete read of `data` for `request`: ECC setting, then one
/// page-read segment per page from the page holding the address, stopping
/// at the end of the range or as soon as enough bytes were gathered; the
/// data starts at the address.
pub open spec fn nand_read_traffic(
    ops: Seq<BusOp>,
    layout: ChipLayout,
    request: ReadRequest,
    data: Seq<u8>,
    segs: Seq<Seq<BusOp>>,
    chunks: Seq<Seq<u8>>,
) -> bool {
    let (column, per_page) = read_geometry(layout, request.oob_mode);
    let first = request.address.0 / layout.page_size;
    let skip = read_skip(layout, request);
    let need = skip + request.length;
    let total = div_ceil(need, layout.page_size as int);
    let k = chunks.len() as int;
    &&& ops.len() >= 10
    &&& ecc_traffic(ops.subrange(0, 10), request.use_ecc)
    &&& ops.subrange(10, ops.len() as int) == concat(segs)
    &&& segs.len() == chunks.len()
    &&& forall|i: int|
        0 <= i < k ==> (#[trigger] chunks[i]).len() == per_page && page_read_traffic(
            segs[i],
            (first + i) as u32,
            column,
            chunks[i],
        )
    &&& k <= total
    &&& (k == total || concat(chunks).len() >= need)
    &&& (k == 0 || concat(chunks.drop_last()).len() < need)
    &&& data == read_window(concat(chunks), skip, request.length as int)
}

/// `ops` is a complete read of `request` that returned `data`, for some
/// split of the traffic into page segments.
pub open spec fn nand_read_result(
    ops: Seq<BusOp>,
    layout: ChipLayout,
    request: ReadRequest,
    data: Seq<u8>,
) -> bool {
    exists|segs: Seq<Seq<BusOp>>, chunks: Seq<Seq<u8>>|
        #[trigger] nand_read_traffic(ops, layout, request, data, segs, chunks)
}

/// `ops` is a complete write of `request`: ECC setting, then one program
/// segment per page of the data.
pub open spec fn nand_write_traffic(
    ops: Seq<BusOp>,
    layout: ChipLayout,
    request: WriteRequest,
    segs: Seq<Seq<BusOp>>,
) -> bool {
    let ps = layout.page_size as int;
    let first = request.address.0 / layout.page_size;
    &&& ops.len() >= 10
    &&& ecc_traffic(ops.subrange(0, 10), request.use_ecc)
    &&& ops.subrange(10, ops.len() as int) == concat(segs)
    &&& segs.len() == div_ceil(request.data@.len() as int, ps)
    &&& forall|i: int|
        0 <= i < segs.len() ==> page_program_traffic(
            #[trigger] segs[i],
            (first + i) as u32,
            page_image(request.data@, i, ps),
        )
}

/// `ops` is a complete erase of `request`: one erase segment per block.
pub open spec fn nand_erase_traffic(
    ops: Seq<BusOp>,
    layout: ChipLayout,
    request: EraseRequest,
    segs: Seq<Seq<BusOp>>,
) -> bool {
    let bs = layout.block_size as int;
    let first = request.address.0 / layout.block_size;
    &&& ops == concat(segs)
    &&& segs.len() == div_ceil(request.length as int, bs)
    &&& forall|i: int|
        0 <= i < segs.len() ==> block_erase_traffic(
            #[trigger] segs[i],
            ((first + i) * (bs / layout.page_size as int)) as u32,
        )
}

/// Geometry that the NAND protocol can work with: pages and blocks are not
/// empty, and a page together with its spare area fits in 32 bits.
pub open spec fn nand_layout_ok(layout: ChipLayout) -> bool {
    &&& layout.page_size > 0
    &&& layout.block_size > 0
    &&& layout.page_size + match layout.oob_size {
        Some(n) => n as int,
        None => 0,
    } <= u32::MAX
}

/// The ECC setting followed by the page-read segments is a complete read.
proof fn lemma_nand_read_done(
    l0: Seq<BusOp>,
    l1: Seq<BusOp>,
    l2: Seq<BusOp>,
    layout: ChipLayout,
    request: ReadRequest,
    data: Seq<u8>,
    segs: Seq<Seq<BusOp>>,
    chunks: Seq<Seq<u8>>,
)
    requires
        extends(l0, l1),
        ecc_traffic(added(l0, l1), request.use_ecc),
        extends(l1, l2),
        added(l1, l2) == concat(segs),
        segs.len() == chunks.len(),
        forall|j: int|
            0 <= j < chunks.len() ==> (#[trigger] chunks[j]).len() == read_geometry(
                layout,
                request.oob_mode,
            ).1 && page_read_traffic(
                segs[j],
                (request.address.0 / layout.page_size + j) as u32,
                read_geometry(layout, request.oob_mode).0,
                chunks[j],
            ),
        chunks.len() <= div_ceil(
            read_skip(layout, request) + request.length,
            layout.page_size as int,
        ),
        chunks.len() == div_ceil(read_skip(layout, request) + request.length, layout.page_size as int)
            || concat(chunks).len() >= read_skip(layout, request) + request.length,
        chunks.len() == 0 || concat(chunks.drop_last()).len() < read_skip(layout, request)
            + request.length,
        data == read_window(concat(chunks), read_skip(layout, request), request.length as int),
    ensures
        extends(l0, l2),
        nand_read_result(added(l0, l2), layout, request, data),
{
    let ops = added(l0, l2);
    lemma_added_trans(l0, l1, l2);
    assert(ops.subrange(0, 10) =~= added(l0, l1));
    assert(ops.subrange(10, ops.len() as int) =~= added(l1, l2));
    assert(nand_read_traffic(ops, layout, request, data, segs, chunks));
}

/// `ops` is a complete write of `request`, for some split of the traffic into
/// page segments.
pub open spec fn nand_write_result(ops: Seq<BusOp>, layout: ChipLayout, request: WriteRequest) -> bool {
    exists|segs: Seq<Seq<BusOp>>| #[trigger] nand_write_traffic(ops, layout, request, segs)
}

/// `ops` is a complete erase of `request`, for some split of the traffic into
/// block segments.
pub open spec fn nand_erase_result(ops: Seq<BusOp>, layout: ChipLayout, request: EraseRequest) -> bool {
    exists|segs: Seq<Seq<BusOp>>| #[trigger] nand_erase_traffic(ops, layout, request, segs)
}

/// A multiple of `p`, divided by `p` and multiplied back, is itself.
proof fn lemma_aligned(a: int, p: int)
    requires
        p > 0,
        a >= 0,
        a % p == 0,
    ensures
        (a / p) * p == a,
{
    assert((a / p) * p == a) by (nonlinear_arith)
        requires
            p > 0,
            a % p == 0,
    ;
}

/// The page buffer programmed for the bytes of `data` from `offset`: the
/// bytes that exist, then 0xFF up to `page_size`.
fn page_buffer(data: &[u8], offset: usize, page_size: usize) -> (r: Vec<u8>)
    requires
        offset <= data@.len(),
    ensures
        r@ == Seq::new(
            page_size as nat,
            |j: int|
                if offset + j < data@.len() {
                    data@[offset + j]
                } else {
                    0xFFu8
                },
        ),
{
    let mut buf: Vec<u8> = Vec::new();
    let mut k: usize = 0;
    while k < page_size
        invariant
            offset <= data@.len(),
            k <= page_size,
            buf@.len() == k,
            forall|j: int|
                0 <= j < k ==> #[trigger] buf@[j] == if offset + j < data@.len() {
                    data@[offset + j]
                } else {
                    0xFFu8
                },
        decreases page_size - k,
    {
        if k < data.len() - offset {
            buf.push(data[offset + k]);
        } else {
            buf.push(0xFFu8);
        }
        k = k + 1;
    }
    assert(buf@ =~= Seq::new(
        page_size as nat,
        |j: int|
            if offset + j < data@.len() {
                data@[offset + j]
            } else {
                0xFFu8
            },
    ));
    buf
}

pub struct SpiNand<P: Programmer> {
    programmer: P,
    spec: ChipSpec,
    calls: Ghost<Seq<FlashCall>>,
    reports: Ghost<Seq<Progress>>,
}

impl<P: Programmer> SpiNand<P> {
    /// The programmer the chip is reached through.
    pub closed spec fn device(&self) -> P {
        self.programmer
    }

    /// The chip description.
    pub closed spec fn chip(&self) -> ChipSpec {
        self.spec
    }

    pub fn new(programmer: P, spec: ChipSpec) -> (r: Self)
        ensures
            r.device() == programmer,
            r.chip() == spec,
            r.calls() == Seq::<FlashCall>::empty(),
            r.progress() == Seq::<Progress>::empty(),
    {
        Self { programmer, spec, calls: Ghost(Seq::empty()), reports: Ghost(Seq::empty()) }
    }

    /// Everything handed to the progress callbacks of the operations so far,
    /// oldest first.
    pub closed spec fn progress(&self) -> Seq<Progress> {
        self.reports@
    }

    /// Gives back the programmer the chip was reached through.
    pub fn into_device(self) -> (p: P)
        ensures
            p == self.device(),
    {
        self.programmer
    }

    /// Get chip specification
    pub fn spec(&self) -> (s: &ChipSpec)
        ensures
            *s == self.chip(),
    {
        &self.spec
    }

    // =========================================================================
    // Internal Helper Methods
    // =========================================================================

    /// Poll the status register until the chip is no longer busy.
    fn wait_ready(&mut self) -> (r: Result<()>)
        requires
            old(self).programmer.wf(),
        ensures
            final(self).programmer.wf(),
            final(self).spec == old(self).spec,
            extends(old(self).programmer.log(), final(self).programmer.log()),
            r is Ok ==> polls_until_ready(
                added(old(self).programmer.log(), final(self).programmer.log()),
                status_query(),
                STATUS_NAND_OIP,
            ),
            r is Err ==> faulted(old(self).programmer.log(), final(self).programmer.log()) || (r matches Err(
                Error::Timeout,
            ) && nand_timed_out(added(old(self).programmer.log(), final(self).programmer.log()))),
    {
        let ghost l0 = self.programmer.log();
        let mut polls: u32 = 0;
        loop
            invariant
                self.programmer.wf(),
                self.spec == old(self).spec,
                l0 == old(self).programmer.log(),
                extends(l0, self.programmer.log()),
                busy_polls(added(l0, self.programmer.log()), status_query(), STATUS_NAND_OIP),
                added(l0, self.programmer.log()).len() == polls * 5,
                polls < NAND_POLL_BUDGET,
            decreases NAND_POLL_BUDGET - polls,
        {
            let ghost lb = self.programmer.log();
            let status = self.get_feature(FEATURE_STATUS)?;
            proof {
                lemma_added_trans(l0, lb, self.programmer.log());
                assert(added(lb, self.programmer.log())[3] == added(
                    lb,
                    self.programmer.log(),
                ).subrange(3, 4)[0]);
            }
            if status & STATUS_NAND_OIP == 0 {
                proof {
                    lemma_polls_until_ready(
                        added(l0, lb),
                        added(lb, self.programmer.log()),
                        status_query(),
                        STATUS_NAND_OIP,
                    );
                }
                return Ok(());
            }
            proof {
                lemma_busy_polls_push(
                    added(l0, lb),
                    added(lb, self.programmer.log()),
                    status_query(),
                    STATUS_NAND_OIP,
                );
            }
            polls = polls + 1;
            if polls >= NAND_POLL_BUDGET {
                proof {
                    let a = added(l0, self.programmer.log());
                    assert(status_query().len() == 2);
                    assert(a.subrange(0, a.len() as int) =~= a);
                }
                return Err(Error::Timeout);
            }
            self.programmer.delay_us(NAND_POLL_INTERVAL_US);
        }
    }

    /// GET FEATURE: read the feature register at `addr`.
    fn get_feature(&mut self, addr: u8) -> (r: Result<u8>)
        requires
            old(self).programmer.wf(),
        ensures
            final(self).programmer.wf(),
            final(self).spec == old(self).spec,
            extends(old(self).programmer.log(), final(self).programmer.log()),
            r is Ok ==> query_frame(
                added(old(self).programmer.log(), final(self).programmer.log()),
                seq![CMD_NAND_GET_FEATURE, addr],
                seq![r->Ok_0],
            ),
            r is Err ==> faulted(old(self).programmer.log(), final(self).programmer.log()),
    {
        let ghost l0 = self.programmer.log();
        self.programmer.set_cs(true)?;
        let ghost l1 = self.programmer.log();
        let cmd = vec![CMD_NAND_GET_FEATURE, addr];
        self.programmer.spi_write(cmd.as_slice())?;
        let ghost l2 = self.programmer.log();
        let data = self.programmer.spi_read(1)?;
        let ghost l3 = self.programmer.log();
        self.programmer.set_cs(false)?;
        proof {
            assert(data@ =~= seq![data@[0]]);
            lemma_query_frame(l0, l1, l2, l3, self.programmer.log(), cmd@, data@);
        }
        Ok(data[0])
    }

    /// SET FEATURE: write `value` to the feature register at `addr`.
    fn set_feature(&mut self, addr: u8, value: u8) -> (r: Result<()>)
        requires
            old(self).programmer.wf(),
        ensures
            final(self).programmer.wf(),
            final(self).spec == old(self).spec,
            extends(old(self).programmer.log(), final(self).programmer.log()),
            r is Ok ==> command_frame(
                added(old(self).programmer.log(), final(self).programmer.log()),
                seq![CMD_NAND_SET_FEATURE, addr, value],
            ),
            r is Err ==> faulted(old(self).programmer.log(), final(self).programmer.log()),
    {
        let ghost l0 = self.programmer.log();
        self.programmer.set_cs(true)?;
        let ghost l1 = self.programmer.log();
        let cmd = vec![CMD_NAND_SET_FEATURE, addr, value];
        self.programmer.spi_write(cmd.as_slice())?;
        let ghost l2 = self.programmer.log();
        self.programmer.set_cs(false)?;
        proof {
            lemma_command_frame(l0, l1, l2, self.programmer.log(), cmd@);
        }
        Ok(())
    }

    /// WRITE ENABLE.
    fn write_enable(&mut self) -> (r: Result<()>)
        requires
            old(self).programmer.wf(),
        ensures
            final(self).programmer.wf(),
            final(self).spec == old(self).spec,
            extends(old(self).programmer.log(), final(self).programmer.log()),
            r is Ok ==> command_frame(
                added(old(self).programmer.log(), final(self).programmer.log()),
                seq![CMD_WRITE_ENABLE],
            ),
            r is Err ==> faulted(old(self).programmer.log(), final(self).programmer.log()),
    {
        let ghost l0 = self.programmer.log();
        self.programmer.set_cs(true)?;
        let ghost l1 = self.programmer.log();
        let cmd = vec![CMD_WRITE_ENABLE];
        self.programmer.spi_write(cmd.as_slice())?;
        let ghost l2 = self.programmer.log();
        self.programmer.set_cs(false)?;
        proof {
            lemma_command_frame(l0, l1, l2, self.programmer.log(), cmd@);
        }
        Ok(())
    }

    /// The row address bytes of `page` (the low 24 bits, most significant first).
    fn page_to_row_addr(&self, page: u32) -> (r: [u8; 3])
        ensures
            r@ == row_bytes(page),
    {
        let r = [(page >> 16) as u8, (page >> 8) as u8, page as u8];
        assert(r@ =~= row_bytes(page));
        r
    }

    /// The column address bytes of `column`, most significant first.
    fn column_to_addr(&self, column: u16) -> (r: [u8; 2])
        ensures
            r@ == column_bytes(column),
    {
        let r = [(column >> 8) as u8, column as u8];
        assert(r@ =~= column_bytes(column));
        r
    }

    /// Switch the chip's internal ECC on or off (read-modify-write of the configuration register).
    fn set_ecc(&mut self, enabled: bool) -> (r: Result<()>)
        requires
            old(self).programmer.wf(),
        ensures
            final(self).programmer.wf(),
            final(self).spec == old(self).spec,
            extends(old(self).programmer.log(), final(self).programmer.log()),
            r is Ok ==> ecc_traffic(
                added(old(self).programmer.log(), final(self).programmer.log()),
                enabled,
            ),
            r is Err ==> faulted(old(self).programmer.log(), final(self).programmer.log()),
    {
        let ghost l0 = self.programmer.log();
        let config = self.get_feature(FEATURE_CONFIG)?;
        let ghost l1 = self.programmer.log();
        let r = if enabled {
            self.set_feature(FEATURE_CONFIG, config | CONFIG_ECC_ENABLE)
        } else {
            self.set_feature(FEATURE_CONFIG, config & !CONFIG_ECC_ENABLE)
        };
        proof {
            lemma_added_trans(l0, l1, self.programmer.log());
            if r is Ok {
                let a = added(l0, self.programmer.log());
                assert(a.subrange(0, 5) =~= added(l0, l1));
                assert(a.subrange(5, 10) =~= added(l1, self.programmer.log()));
                assert(added(l0, l1)[3] == added(l0, l1).subrange(3, 4)[0]);
            }
        }
        r
    }

    /// Load `page` into the cache and read `len` bytes from column `column`.
    fn read_page_internal(&mut self, page: u32, column: u16, len: usize) -> (r: Result<Vec<u8>>)
        requires
            old(self).programmer.wf(),
        ensures
            final(self).programmer.wf(),
            final(self).spec == old(self).spec,
            extends(old(self).programmer.log(), final(self).programmer.log()),
            r is Ok ==> r->Ok_0@.len() == len && page_read_traffic(
                added(old(self).programmer.log(), final(self).programmer.log()),
                page,
                column,
                r->Ok_0@,
            ),
            r is Err ==> faulted(old(self).programmer.log(), final(self).programmer.log()) || (r matches Err(
                Error::Timeout,
            ) && nand_timed_out(added(old(self).programmer.log(), final(self).programmer.log()))),
    {
        let ghost l0 = self.programmer.log();
        // Step 1: Page Read to Cache (13h + row address)
        let row_addr = self.page_to_row_addr(page);
        self.programmer.set_cs(true)?;
        let ghost l1 = self.programmer.log();
        let cmd = vec![CMD_NAND_PAGE_READ, row_addr[0], row_addr[1], row_addr[2]];
        self.programmer.spi_write(cmd.as_slice())?;
        let ghost l2 = self.programmer.log();
        self.programmer.set_cs(false)?;
        let ghost l3 = self.programmer.log();
        proof {
            lemma_command_frame(l0, l1, l2, l3, cmd@);
        }

        // Wait for page to be loaded into cache
        let w = self.wait_ready();
        proof {
            if w is Err && !faulted(l3, self.programmer.log()) {
                lemma_timed_out_suffix(l0, l3, self.programmer.log(), status_query(), STATUS_NAND_OIP, NAND_POLL_BUDGET as int);
            }
        }
        w?;
        let ghost l4 = self.programmer.log();

        // Step 2: Read from Cache (03h + column address + dummy)
        let col_addr = self.column_to_addr(column);
        self.programmer.set_cs(true)?;
        let ghost l5 = self.programmer.log();
        let cmd2 = vec![CMD_NAND_READ_CACHE, col_addr[0], col_addr[1], 0x00];
        self.programmer.spi_write(cmd2.as_slice())?;
        let ghost l6 = self.programmer.log();
        let data = self.programmer.spi_read(len)?;
        let ghost l7 = self.programmer.log();
        self.programmer.set_cs(false)?;
        proof {
            let l8 = self.programmer.log();
            lemma_query_frame(l4, l5, l6, l7, l8, cmd2@, data@);
            lemma_added_trans(l0, l3, l4);
            lemma_added_trans(l0, l4, l8);
            let a = added(l0, l8);
            let m = data@.len() + 6;
            assert(cmd@ =~= seq![CMD_NAND_PAGE_READ] + row_bytes(page));
            assert(cmd2@ =~= seq![CMD_NAND_READ_CACHE] + column_bytes(column) + seq![0u8]);
            assert(a.subrange(0, 6) =~= added(l0, l3));
            assert(a.subrange(6, a.len() - m) =~= added(l3, l4));
            assert(a.subrange(a.len() - m, a.len() as int) =~= added(l4, l8));
        }
        Ok(data)
    }

    /// Program `image` into `page`: write enable, program load, program
    /// execute, wait, status check. `Ok(false)` when the chip reports a
    /// program failure.
    #[verifier::spinoff_prover]
    #[verifier::rlimit(40)]
    fn program_page(&mut self, page: u32, image: &[u8]) -> (r: Result<bool>)
        requires
            old(self).programmer.wf(),
        ensures
            final(self).programmer.wf(),
            final(self).spec == old(self).spec,
            extends(old(self).programmer.log(), final(self).programmer.log()),
            r == Ok::<bool, Error>(true) ==> page_program_traffic(
                added(old(self).programmer.log(), final(self).programmer.log()),
                page,
                image@,
            ),
            r is Err ==> faulted(old(self).programmer.log(), final(self).programmer.log()) || (r matches Err(
                Error::Timeout,
            ) && nand_timed_out(added(old(self).programmer.log(), final(self).programmer.log()))),
            r == Ok::<bool, Error>(false) ==> reported_failure(
                added(old(self).programmer.log(), final(self).programmer.log()),
                STATUS_NAND_P_FAIL,
            ),
    {
        let ghost l0 = self.programmer.log();
        self.write_enable()?;
        let ghost l1 = self.programmer.log();

        // Program Load
        let col_addr = self.column_to_addr(0);
        self.programmer.set_cs(true)?;
        let ghost l2 = self.programmer.log();
        let cmd = vec![CMD_NAND_PROGRAM_LOAD, col_addr[0], col_addr[1]];
        self.programmer.spi_write(cmd.as_slice())?;
        let ghost l3 = self.programmer.log();
        self.programmer.spi_write(image)?;
        let ghost l4 = self.programmer.log();
        self.programmer.set_cs(false)?;
        let ghost l5 = self.programmer.log();
        proof {
            lemma_command_frame2(l1, l2, l3, l4, l5, cmd@, image@);
        }

        // Program Execute
        let row_addr = self.page_to_row_addr(page);
        self.programmer.set_cs(true)?;
        let ghost l6 = self.programmer.log();
        let cmd2 = vec![CMD_NAND_PROGRAM_EXECUTE, row_addr[0], row_addr[1], row_addr[2]];
        self.programmer.spi_write(cmd2.as_slice())?;
        let ghost l7 = self.programmer.log();
        self.programmer.set_cs(false)?;
        let ghost l8 = self.programmer.log();
        proof {
            lemma_command_frame(l5, l6, l7, l8, cmd2@);
            lemma_added_trans(l0, l1, l5);
            lemma_added_trans(l0, l5, l8);
        }

        let w = self.wait_ready();
        proof {
            if w is Err && !faulted(l8, self.programmer.log()) {
                lemma_timed_out_suffix(l0, l8, self.programmer.log(), status_query(), STATUS_NAND_OIP, NAND_POLL_BUDGET as int);
            }
        }
        w?;
        let ghost l9 = self.programmer.log();
        let status = self.get_feature(FEATURE_STATUS)?;
        let ghost l10 = self.programmer.log();
        if status & STATUS_NAND_P_FAIL != 0 {
            proof {
                lemma_added_trans(l0, l8, l9);
                lemma_added_trans(l0, l9, l10);
                let a = added(l0, l10);
                let st = a.subrange(a.len() - 5, a.len() as int);
                assert(st =~= added(l9, l10));
                assert(st[3] == st.subrange(3, 4)[0]);
            }
            return Ok(false);
        }
        proof {
            lemma_added_trans(l0, l1, l5);
            lemma_added_trans(l0, l5, l8);
            lemma_added_trans(l0, l8, l9);
            lemma_added_trans(l0, l9, l10);
            let a = added(l0, l10);
            let n = image@.len() as int;
            assert((0u16 >> 8u16) as u8 == 0u8 && 0u16 as u8 == 0u8) by (bit_vector);
            assert(cmd@ + image@ =~= seq![CMD_NAND_PROGRAM_LOAD, 0u8, 0u8] + image@);
            assert(cmd2@ =~= seq![CMD_NAND_PROGRAM_EXECUTE] + row_bytes(page));
            assert(a.subrange(0, 3) =~= added(l0, l1));
            assert(a.subrange(3, n + 8) =~= added(l1, l5));
            assert(a.subrange(n + 8, n + 14) =~= added(l5, l8));
            assert(a.subrange(n + 14, a.len() - 5) =~= added(l8, l9));
            let st = a.subrange(a.len() - 5, a.len() as int);
            assert(st =~= added(l9, l10));
            assert(st[3] == st.subrange(3, 4)[0]);
        }
        Ok(true)
    }

    /// Erase the block starting at `page`: write enable, block erase, wait,
    /// status check. `Ok(false)` when the chip reports an erase failure.
    fn erase_block_at(&mut self, page: u32) -> (r: Result<bool>)
        requires
            old(self).programmer.wf(),
        ensures
            final(self).programmer.wf(),
            final(self).spec == old(self).spec,
            extends(old(self).programmer.log(), final(self).programmer.log()),
            r == Ok::<bool, Error>(true) ==> block_erase_traffic(
                added(old(self).programmer.log(), final(self).programmer.log()),
                page,
            ),
            r is Err ==> faulted(old(self).programmer.log(), final(self).programmer.log()) || (r matches Err(
                Error::Timeout,
            ) && nand_timed_out(added(old(self).programmer.log(), final(self).programmer.log()))),
            r == Ok::<bool, Error>(false) ==> reported_failure(
                added(old(self).programmer.log(), final(self).programmer.log()),
                STATUS_NAND_E_FAIL,
            ),
    {
        let ghost l0 = self.programmer.log();
        self.write_enable()?;
        let ghost l1 = self.programmer.log();
        let row_addr = self.page_to_row_addr(page);
        self.programmer.set_cs(true)?;
        let ghost l2 = self.programmer.log();
        let cmd = vec![CMD_NAND_BLOCK_ERASE, row_addr[0], row_addr[1], row_addr[2]];
        self.programmer.spi_write(cmd.as_slice())?;
        let ghost l3 = self.programmer.log();
        self.programmer.set_cs(false)?;
        let ghost l4 = self.programmer.log();
        proof {
            lemma_command_frame(l1, l2, l3, l4, cmd@);
            lemma_added_trans(l0, l1, l4);
        }
        let w = self.wait_ready();
        proof {
            if w is Err && !faulted(l4, self.programmer.log()) {
                lemma_timed_out_suffix(l0, l4, self.programmer.log(), status_query(), STATUS_NAND_OIP, NAND_POLL_BUDGET as int);
            }
        }
        w?;
        let ghost l5 = self.programmer.log();
        let status = self.get_feature(FEATURE_STATUS)?;
        let ghost l6 = self.programmer.log();
        if status & STATUS_NAND_E_FAIL != 0 {
            proof {
                lemma_added_trans(l0, l4, l5);
                lemma_added_trans(l0, l5, l6);
                let a = added(l0, l6);
                let st = a.subrange(a.len() - 5, a.len() as int);
                assert(st =~= added(l5, l6));
                assert(st[3] == st.subrange(3, 4)[0]);
            }
            return Ok(false);
        }
        proof {
            lemma_added_trans(l0, l1, l4);
            lemma_added_trans(l0, l4, l5);
            lemma_added_trans(l0, l5, l6);
            let a = added(l0, l6);
            assert(cmd@ =~= seq![CMD_NAND_BLOCK_ERASE] + row_bytes(page));
            assert(a.subrange(0, 3) =~= added(l0, l1));
            assert(a.subrange(3, 9) =~= added(l1, l4));
            assert(a.subrange(9, a.len() - 5) =~= added(l4, l5));
            let st = a.subrange(a.len() - 5, a.len() as int);
            assert(st =~= added(l5, l6));
            assert(st[3] == st.subrange(3, 4)[0]);
        }
        Ok(true)
    }
}


/// The bytes of `got` from `skip` on, at most `length` of them.
fn window(got: &[u8], skip: usize, length: usize) -> (r: Vec<u8>)
    ensures
        r@ == read_window(got@, skip as int, length as int),
{
    let e = if length <= got.len() && skip <= got.len() - length {
        skip + length
    } else {
        got.len()
    };
    let b = if skip < e {
        skip
    } else {
        e
    };
    vstd::slice::slice_to_vec(vstd::slice::slice_subrange(got, b, e))
}

impl<P: Programmer> SpiNand<P> {
    #[verifier::spinoff_prover]
    #[verifier::rlimit(30)]
    fn read_op<F: Fn(Progress)>(
        &mut self,
        request: ReadRequest,
        on_progress: &F,
        reports: &mut Ghost<Seq<Progress>>,
    ) -> (r: Result<Vec<u8>>)
        requires
            old(self).inv(),
            read_fits(request),
            forall|p: Progress| #[trigger] on_progress.requires((p,)),
        ensures
            final(self).inv(),
            final(self).chip() == old(self).chip(),
            extends(old(self).device().log(), final(self).device().log()),
            r is Ok ==> nand_read_result(
                added(old(self).device().log(), final(self).device().log()),
                old(self).chip().layout,
                request,
                r->Ok_0@,
            ),
            r is Ok ==> final(reports)@ == old(reports)@ + nand_read_reports(
                0,
                div_ceil(
                    read_skip(old(self).chip().layout, request) + request.length,
                    old(self).chip().layout.page_size as int,
                ) as nat,
                read_geometry(old(self).chip().layout, request.oob_mode).1 as nat,
                read_skip(old(self).chip().layout, request) as nat,
                request.length as nat,
            ),
            r is Err ==> faulted(old(self).device().log(), final(self).device().log()) || (r matches Err(
                Error::Timeout,
            ) && nand_timed_out(added(old(self).device().log(), final(self).device().log()))),
    {
        let page_size = self.spec.layout.page_size;
        let oob_size = match self.spec.layout.oob_size {
            Some(n) => n,
            None => 0,
        };
        let ghost l0 = self.programmer.log();
        let ghost r0 = reports@;
        self.set_ecc(request.use_ecc)?;
        let ghost l1 = self.programmer.log();

        let start_addr = request.address.as_u32();
        let start_page = start_addr / page_size;
        proof {
            assert(start_page <= start_addr) by (nonlinear_arith)
                requires
                    start_page == start_addr / page_size,
                    page_size > 0,
            ;
        }

        // Column and length read from each page, by OOB mode
        let (col_offset, read_len_per_page) = match request.oob_mode {
            OobMode::Excluded => (0u16, page_size as usize),
            OobMode::Included => (0u16, (page_size + oob_size) as usize),
            OobMode::Only => (page_size as u16, oob_size as usize),
        };
        let ghost geometry = read_geometry(self.spec.layout, request.oob_mode);
        assert(geometry == (col_offset, read_len_per_page as int));

        // Main-area reads start at the address's offset in its page
        let skip: u32 = match request.oob_mode {
            OobMode::Excluded => start_addr % page_size,
            _ => 0,
        };
        proof {
            assert(start_page * page_size + start_addr % page_size == start_addr) by (nonlinear_arith)
                requires
                    start_page == start_addr / page_size,
                    page_size > 0,
            ;
            assert(start_page <= start_page * page_size) by (nonlinear_arith)
                requires
                    page_size > 0,
            ;
        }
        assert(skip == read_skip(self.spec.layout, request));
        let need: u32 = skip + request.length;
        let total_pages = div_ceil_u32(need, page_size);
        let mut all: Vec<u8> = Vec::new();
        let ghost mut segs: Seq<Seq<BusOp>> = Seq::empty();
        let ghost mut chunks: Seq<Seq<u8>> = Seq::empty();
        let mut i: u32 = 0;
        while i < total_pages
            invariant
                self.programmer.wf(),
                self.spec == old(self).spec,
                page_size == self.spec.layout.page_size,
                page_size > 0,
                l0 == old(self).programmer.log(),
                extends(l0, l1),
                ecc_traffic(added(l0, l1), request.use_ecc),
                extends(l1, self.programmer.log()),
                added(l1, self.programmer.log()) == concat(segs),
                start_addr == request.address.0,
                start_page == start_addr / page_size,
                start_page + need <= u32::MAX,
                skip == read_skip(self.spec.layout, request),
                need == skip + request.length,
                total_pages == div_ceil(need as int, page_size as int),
                total_pages <= need,
                geometry == (col_offset, read_len_per_page as int),
                geometry == read_geometry(self.spec.layout, request.oob_mode),
                i <= total_pages,
                segs.len() == i,
                chunks.len() == i,
                forall|j: int|
                    0 <= j < i ==> (#[trigger] chunks[j]).len() == read_len_per_page
                        && page_read_traffic(segs[j], (start_page + j) as u32, col_offset, chunks[j]),
                total_pages == 0 || concat(chunks).len() < need,
                all@ == concat(chunks),
                r0 == old(reports)@,
                reports@ + nand_read_reports(
                    all@.len(),
                    (total_pages - i) as nat,
                    read_len_per_page as nat,
                    skip as nat,
                    request.length as nat,
                ) == r0 + nand_read_reports(
                    0,
                    total_pages as nat,
                    read_len_per_page as nat,
                    skip as nat,
                    request.length as nat,
                ),
                nand_layout_ok(self.spec.layout),
                forall|p: Progress| #[trigger] on_progress.requires((p,)),
            decreases total_pages - i,
        {
            let page = start_page + i;
            let ghost lb = self.programmer.log();
            let w = self.read_page_internal(page, col_offset, read_len_per_page);
            proof {
                if w is Err && !faulted(lb, self.programmer.log()) {
                    lemma_timed_out_suffix(l0, lb, self.programmer.log(), status_query(), STATUS_NAND_OIP, NAND_POLL_BUDGET as int);
                }
            }
            let chunk = w?;
            let ghost old_chunks = chunks;
            proof {
                lemma_added_trans(l1, lb, self.programmer.log());
                lemma_concat_push(segs, added(lb, self.programmer.log()));
                lemma_concat_push(chunks, chunk@);
                segs = segs.push(added(lb, self.programmer.log()));
                chunks = chunks.push(chunk@);
            }
            let ghost done = all@.len();
            let ghost left = (total_pages - i) as nat;
            extend_prefix(&mut all, chunk.as_slice(), chunk.len());
            assert(chunk@.subrange(0, chunk@.len() as int) =~= chunk@);
            i = i + 1;

            let delivered: u64 = if all.len() >= need as usize {
                request.length as u64
            } else if all.len() > skip as usize {
                (all.len() - skip as usize) as u64
            } else {
                0
            };
            let p = Progress::new(delivered, request.length as u64);
            assert(all@.len() == done + read_len_per_page);
            assert(delivered == wanted_part(all@.len() as nat, skip as nat, request.length as nat));
            proof {
                lemma_nand_read_reports_next(
                    reports@,
                    done,
                    left,
                    read_len_per_page as nat,
                    skip as nat,
                    request.length as nat,
                );
            }
            report(on_progress, p, reports);

            if all.len() >= need as usize {
                let data = window(all.as_slice(), skip as usize, request.length as usize);
                proof {
                    assert(chunks.drop_last() =~= old_chunks);
                    lemma_nand_read_done(
                        l0,
                        l1,
                        self.programmer.log(),
                        self.spec.layout,
                        request,
                        data@,
                        segs,
                        chunks,
                    );
                }
                assert(reports@ + Seq::<Progress>::empty() =~= reports@);
                return Ok(data);
            }
        }
        assert(reports@ + Seq::<Progress>::empty() =~= reports@);
        let data = window(all.as_slice(), skip as usize, request.length as usize);
        proof {
            if chunks.len() > 0 {
                lemma_concat_push(chunks.drop_last(), chunks.last());
                assert(chunks.drop_last().push(chunks.last()) =~= chunks);
            }
            lemma_nand_read_done(
                l0,
                l1,
                self.programmer.log(),
                self.spec.layout,
                request,
                data@,
                segs,
                chunks,
            );
        }
        Ok(data)
    }

    #[verifier::spinoff_prover]
    fn write_op<F: Fn(Progress)>(
        &mut self,
        request: WriteRequest,
        on_progress: &F,
        reports: &mut Ghost<Seq<Progress>>,
    ) -> (r: Result<()>)
        requires
            old(self).inv(),
            write_fits(request),
            forall|p: Progress| #[trigger] on_progress.requires((p,)),
        ensures
            final(self).inv(),
            final(self).chip() == old(self).chip(),
            extends(old(self).device().log(), final(self).device().log()),
            request.address.0 % old(self).chip().layout.page_size != 0 ==> r is Err,
            r is Ok ==> request.address.0 % old(self).chip().layout.page_size == 0
                && nand_write_result(
                added(old(self).device().log(), final(self).device().log()),
                old(self).chip().layout,
                request,
            ),
            r is Ok ==> final(reports)@ == old(reports)@ + step_reports(
                0,
                request.data@.len(),
                old(self).chip().layout.page_size as nat,
            ),
            r is Err ==> faulted(old(self).device().log(), final(self).device().log()) || (r matches Err(
                Error::Timeout,
            ) && nand_timed_out(added(old(self).device().log(), final(self).device().log()))) || (r matches Err(
                Error::InvalidParameter(_),
            ) && request.address.0 % old(self).chip().layout.page_size != 0) || (r matches Err(
                Error::WriteFailed { address },
            ) && reported_failure(added(old(self).device().log(), final(self).device().log()), STATUS_NAND_P_FAIL)
                && request.address.0 <= address < request.address.0 + request.data@.len() && (address
                - request.address.0) % old(self).chip().layout.page_size as int == 0),
            request.address.0 % old(self).chip().layout.page_size != 0 ==> faulted(
                old(self).device().log(),
                final(self).device().log(),
            ) || (r matches Err(Error::InvalidParameter(_)) && ecc_traffic(
                added(old(self).device().log(), final(self).device().log()),
                request.use_ecc,
            )),
    {
        let page_size = self.spec.layout.page_size;
        let ghost l0 = self.programmer.log();
        self.set_ecc(request.use_ecc)?;
        let ghost l1 = self.programmer.log();

        let start_addr = request.address.as_u32();
        if start_addr % page_size != 0 {
            return Err(Error::InvalidParameter("NAND write address must be page-aligned".to_string()));
        }

        let start_page = start_addr / page_size;
        let data_len = request.data.len();
        let ps = page_size as usize;
        let total_pages = div_ceil_usize(data_len, ps);
        proof {
            lemma_aligned(start_addr as int, page_size as int);
        }
        let ghost mut segs: Seq<Seq<BusOp>> = Seq::empty();
        let ghost r0 = reports@;
        let mut i: usize = 0;
        while i < total_pages
            invariant
                reports@ + step_reports(
                    if i * ps < data_len {
                        (i * ps) as nat
                    } else {
                        data_len as nat
                    },
                    data_len as nat,
                    ps as nat,
                ) == r0 + step_reports(0, data_len as nat, ps as nat),
                self.programmer.wf(),
                self.spec == old(self).spec,
                nand_layout_ok(self.spec.layout),
                page_size == self.spec.layout.page_size,
                ps == page_size as usize,
                l0 == old(self).programmer.log(),
                extends(l0, l1),
                ecc_traffic(added(l0, l1), request.use_ecc),
                extends(l1, self.programmer.log()),
                added(l1, self.programmer.log()) == concat(segs),
                start_addr == request.address.0,
                start_addr % page_size == 0,
                start_page == start_addr / page_size,
                start_page * page_size == start_addr,
                data_len == request.data@.len(),
                start_addr + data_len <= u32::MAX,
                total_pages == div_ceil(data_len as int, ps as int),
                total_pages <= data_len,
                i <= total_pages,
                segs.len() == i,
                forall|j: int|
                    0 <= j < i ==> page_program_traffic(
                        #[trigger] segs[j],
                        (start_page + j) as u32,
                        page_image(request.data@, j, ps as int),
                    ),
                forall|p: Progress| #[trigger] on_progress.requires((p,)),
            decreases total_pages - i,
        {
            proof {
                lemma_piece_start(i as int, data_len as int, ps as int);
                assert((start_page + i) * page_size == start_page * page_size + i * page_size)
                    by (nonlinear_arith);
            }
            let page = start_page + i as u32;
            let offset = i * ps;
            let chunk_end = if data_len - offset < ps {
                data_len
            } else {
                offset + ps
            };
            let page_buf = page_buffer(request.data, offset, ps);
            assert(page_buf@ =~= page_image(request.data@, i as int, ps as int));

            let ghost lb = self.programmer.log();
            let w = self.program_page(page, page_buf.as_slice());
            proof {
                lemma_added_trans(l0, l1, lb);
                if w is Err && !faulted(lb, self.programmer.log()) {
                    lemma_timed_out_suffix(l0, lb, self.programmer.log(), status_query(), STATUS_NAND_OIP, NAND_POLL_BUDGET as int);
                }
            }
            let ok = w?;
            if !ok {
                proof {
                    lemma_added_trans(l0, lb, self.programmer.log());
                    let a = added(l0, self.programmer.log());
                    let b = added(lb, self.programmer.log());
                    assert(a.subrange(a.len() - 5, a.len() as int) =~= b.subrange(b.len() - 5, b.len() as int));
                    vstd::arithmetic::div_mod::lemma_mod_multiples_basic(i as int, page_size as int);
                    assert(page * page_size == start_addr + i * page_size);
                    assert(i * ps < data_len);
                }
                return Err(Error::WriteFailed { address: page * page_size });
            }
            proof {
                lemma_added_trans(l1, lb, self.programmer.log());
                lemma_concat_push(segs, added(lb, self.programmer.log()));
                segs = segs.push(added(lb, self.programmer.log()));
            }

            let p = Progress::new(chunk_end as u64, data_len as u64);
            proof {
                assert((i + 1) * ps == i * ps + ps) by (nonlinear_arith);
                if i + 1 == total_pages {
                    lemma_pieces_cover(data_len as int, ps as int);
                }
                lemma_step_reports_next((i * ps) as nat, data_len as nat, ps as nat, chunk_end as nat);
                lemma_report_next(
                    reports@,
                    p,
                    step_reports((i * ps) as nat, data_len as nat, ps as nat),
                    step_reports(chunk_end as nat, data_len as nat, ps as nat),
                );
            }
            report(on_progress, p, reports);
            i = i + 1;
        }
        proof {
            lemma_pieces_cover(data_len as int, ps as int);
        }
        assert(step_reports(data_len as nat, data_len as nat, ps as nat) =~= Seq::<Progress>::empty());
        assert(reports@ + Seq::<Progress>::empty() =~= reports@);

        proof {
            let ops = added(l0, self.programmer.log());
            lemma_added_trans(l0, l1, self.programmer.log());
            assert(ops.subrange(0, 10) =~= added(l0, l1));
            assert(ops.subrange(10, ops.len() as int) =~= added(l1, self.programmer.log()));
            assert(nand_write_traffic(ops, self.spec.layout, request, segs));
        }
        Ok(())
    }

    #[verifier::spinoff_prover]
    fn erase_op<F: Fn(Progress)>(
        &mut self,
        request: EraseRequest,
        on_progress: &F,
        reports: &mut Ghost<Seq<Progress>>,
    ) -> (r: Result<()>)
        requires
            old(self).inv(),
            erase_fits(request),
            forall|p: Progress| #[trigger] on_progress.requires((p,)),
        ensures
            final(self).inv(),
            final(self).chip() == old(self).chip(),
            extends(old(self).device().log(), final(self).device().log()),
            request.address.0 % old(self).chip().layout.block_size != 0 ==> (r matches Err(
                Error::InvalidParameter(_),
            )) && final(self).device().log() == old(self).device().log(),
            r is Ok ==> final(reports)@ == old(reports)@ + count_reports(
                div_ceil(request.length as int, old(self).chip().layout.block_size as int) as nat,
            ),
            r is Ok ==> request.address.0 % old(self).chip().layout.block_size == 0
                && nand_erase_result(
                added(old(self).device().log(), final(self).device().log()),
                old(self).chip().layout,
                request,
            ),
    {
        let block_size = self.spec.layout.block_size;
        let page_size = self.spec.layout.page_size;
        let ghost l0 = self.programmer.log();

        let start_addr = request.address.as_u32();
        if start_addr % block_size != 0 {
            return Err(Error::InvalidParameter("NAND erase address must be block-aligned".to_string()));
        }

        let total_blocks = div_ceil_u32(request.length, block_size);
        let start_block = start_addr / block_size;
        let pages_per_block = block_size / page_size;
        proof {
            lemma_aligned(start_addr as int, block_size as int);
            assert(start_block <= start_addr) by (nonlinear_arith)
                requires
                    start_block == start_addr / block_size,
                    block_size > 0,
            ;
            assert(pages_per_block <= block_size) by (nonlinear_arith)
                requires
                    pages_per_block == block_size / page_size,
                    page_size > 0,
            ;
        }
        let ghost mut segs: Seq<Seq<BusOp>> = Seq::empty();
        let ghost r0 = reports@;
        let mut i: u32 = 0;
        while i < total_blocks
            invariant
                reports@ == r0 + count_reports(total_blocks as nat).take(i as int),
                self.programmer.wf(),
                self.spec == old(self).spec,
                nand_layout_ok(self.spec.layout),
                block_size == self.spec.layout.block_size,
                page_size == self.spec.layout.page_size,
                pages_per_block == block_size / page_size,
                pages_per_block <= block_size,
                l0 == old(self).programmer.log(),
                extends(l0, self.programmer.log()),
                added(l0, self.programmer.log()) == concat(segs),
                start_addr == request.address.0,
                start_block == start_addr / block_size,
                start_block * block_size == start_addr,
                start_block <= start_addr,
                start_addr % block_size == 0,
                total_blocks <= request.length,
                start_addr + request.length <= u32::MAX,
                total_blocks == div_ceil(request.length as int, block_size as int),
                i <= total_blocks,
                segs.len() == i,
                forall|j: int|
                    0 <= j < i ==> block_erase_traffic(
                        #[trigger] segs[j],
                        ((start_block + j) * pages_per_block) as u32,
                    ),
                forall|p: Progress| #[trigger] on_progress.requires((p,)),
            decreases total_blocks - i,
        {
            proof {
                lemma_piece_start(i as int, request.length as int, block_size as int);
                assert((start_block + i) * block_size == start_block * block_size + i * block_size)
                    by (nonlinear_arith);
                assert((start_block + i) * pages_per_block <= (start_block + i) * block_size)
                    by (nonlinear_arith)
                    requires
                        pages_per_block <= block_size,
                        start_block + i >= 0,
                ;
            }
            let block = start_block + i;
            let page = block * pages_per_block;

            let ghost lb = self.programmer.log();
            let ok = self.erase_block_at(page)?;
            if !ok {
                return Err(Error::EraseFailed { block });
            }
            proof {
                lemma_added_trans(l0, lb, self.programmer.log());
                lemma_concat_push(segs, added(lb, self.programmer.log()));
                segs = segs.push(added(lb, self.programmer.log()));
            }

            let p = Progress::new((i + 1) as u64, total_blocks as u64);
            assert(count_reports(total_blocks as nat).take(i + 1) =~= count_reports(
                total_blocks as nat,
            ).take(i as int).push(p));
            report(on_progress, p, reports);
            i = i + 1;
        }
        assert(count_reports(total_blocks as nat).take(total_blocks as int) =~= count_reports(
            total_blocks as nat,
        ));

        proof {
            assert(nand_erase_traffic(added(l0, self.programmer.log()), self.spec.layout, request, segs));
        }
        Ok(())
    }
}

impl<P: Programmer> FlashOperation for SpiNand<P> {
    open spec fn inv(&self) -> bool {
        self.device().wf() && nand_layout_ok(self.chip().layout)
    }

    closed spec fn calls(&self) -> Seq<FlashCall> {
        self.calls@
    }

    /// This chip kind has no status register to read: `NotSupported`.
    fn get_status(&mut self) -> (r: Result<Vec<u8>>)
        ensures
            r matches Err(Error::NotSupported(_)),
            final(self).device() == old(self).device(),
            final(self).chip() == old(self).chip(),
    {
        let r = Err(Error::NotSupported("status registers are not available for this chip".to_string()));
        self.calls = Ghost(self.calls@.push(get_status_call(r)));
        r
    }

    /// This chip kind has no status register to write: `NotSupported`.
    fn set_status(&mut self, status: &[u8]) -> (r: Result<()>)
        ensures
            r matches Err(Error::NotSupported(_)),
            final(self).device() == old(self).device(),
            final(self).chip() == old(self).chip(),
    {
        let r = Err(Error::NotSupported("status registers are not available for this chip".to_string()));
        self.calls = Ghost(self.calls@.push(set_status_call(status@, r)));
        r
    }

    fn read<F: Fn(Progress)>(&mut self, request: ReadRequest, on_progress: &F) -> (r: Result<Vec<u8>>)
        ensures
            final(self).chip() == old(self).chip(),
            extends(old(self).device().log(), final(self).device().log()),
            r is Ok ==> nand_read_result(
                added(old(self).device().log(), final(self).device().log()),
                old(self).chip().layout,
                request,
                r->Ok_0@,
            ),
            r is Ok ==> final(self).progress() == old(self).progress() + nand_read_reports(
                0,
                div_ceil(
                    read_skip(old(self).chip().layout, request) + request.length,
                    old(self).chip().layout.page_size as int,
                ) as nat,
                read_geometry(old(self).chip().layout, request.oob_mode).1 as nat,
                read_skip(old(self).chip().layout, request) as nat,
                request.length as nat,
            ),
            r is Err ==> faulted(old(self).device().log(), final(self).device().log()) || (r matches Err(
                Error::Timeout,
            ) && nand_timed_out(added(old(self).device().log(), final(self).device().log()))),
    {
        let ghost h = self.calls@;
        let ghost req = request;
        let mut reports = self.reports;
        let r = self.read_op(request, on_progress, &mut reports);
        self.reports = reports;
        self.calls = Ghost(h.push(read_call(req, r)));
        r
    }

    fn write<F: Fn(Progress)>(&mut self, request: WriteRequest, on_progress: &F) -> (r: Result<()>)
        ensures
            final(self).chip() == old(self).chip(),
            extends(old(self).device().log(), final(self).device().log()),
            request.address.0 % old(self).chip().layout.page_size != 0 ==> r is Err,
            r is Ok ==> request.address.0 % old(self).chip().layout.page_size == 0
                && nand_write_result(
                added(old(self).device().log(), final(self).device().log()),
                old(self).chip().layout,
                request,
            ),
            r is Ok ==> final(self).progress() == old(self).progress() + step_reports(
                0,
                request.data@.len(),
                old(self).chip().layout.page_size as nat,
            ),
            r is Err ==> faulted(old(self).device().log(), final(self).device().log()) || (r matches Err(
                Error::Timeout,
            ) && nand_timed_out(added(old(self).device().log(), final(self).device().log()))) || (r matches Err(
                Error::InvalidParameter(_),
            ) && request.address.0 % old(self).chip().layout.page_size != 0) || (r matches Err(
                Error::WriteFailed { address },
            ) && reported_failure(added(old(self).device().log(), final(self).device().log()), STATUS_NAND_P_FAIL)
                && request.address.0 <= address < request.address.0 + request.data@.len() && (address
                - request.address.0) % old(self).chip().layout.page_size as int == 0),
            request.address.0 % old(self).chip().layout.page_size != 0 ==> faulted(
                old(self).device().log(),
                final(self).device().log(),
            ) || (r matches Err(Error::InvalidParameter(_)) && ecc_traffic(
                added(old(self).device().log(), final(self).device().log()),
                request.use_ecc,
            )),
    {
        let ghost h = self.calls@;
        let ghost req = request;
        let mut reports = self.reports;
        let r = self.write_op(request, on_progress, &mut reports);
        self.reports = reports;
        self.calls = Ghost(h.push(write_call(req, r)));
        r
    }

    fn erase<F: Fn(Progress)>(&mut self, request: EraseRequest, on_progress: &F) -> (r: Result<()>)
        ensures
            final(self).chip() == old(self).chip(),
            extends(old(self).device().log(), final(self).device().log()),
            request.address.0 % old(self).chip().layout.block_size != 0 ==> (r matches Err(
                Error::InvalidParameter(_),
            )) && final(self).device().log() == old(self).device().log(),
            r is Ok ==> final(self).progress() == old(self).progress() + count_reports(
                div_ceil(request.length as int, old(self).chip().layout.block_size as int) as nat,
            ),
            r is Ok ==> request.address.0 % old(self).chip().layout.block_size == 0
                && nand_erase_result(
                added(old(self).device().log(), final(self).device().log()),
                old(self).chip().layout,
                request,
            ),
    {
        let ghost h = self.calls@;
        let ghost req = request;
        let mut reports = self.reports;
        let r = self.erase_op(request, on_progress, &mut reports);
        self.reports = reports;
        self.calls = Ghost(h.push(erase_call(req, r)));
        r
    }
}

} // verus!
