//! What the SPI NAND protocol's bus traffic does to the simulated chip.
//!
//! The simulated chip ([`nand_step`]) is replayed over the traffic that the
//! protocol's operations are specified to produce; the main result is that
//! reading back what was written gives the written data.

use vstd::prelude::*;

use crate::infrastructure::flash_protocol::commands::{
    CMD_NAND_BLOCK_ERASE, CMD_NAND_PAGE_READ, CMD_NAND_PROGRAM_EXECUTE, CMD_NAND_PROGRAM_LOAD,
    CMD_NAND_READ_CACHE, CMD_NAND_SET_FEATURE, CMD_WRITE_ENABLE, FEATURE_CONFIG, FEATURE_STATUS,
    STATUS_NAND_OIP,
};
use crate::infrastructure::flash_protocol::nand::{
    block_erase_traffic, column_bytes, config_query, ecc_config, ecc_traffic, nand_erase_result,
    nand_erase_traffic, nand_read_result, nand_read_traffic, nand_write_result,
    nand_write_traffic, page_image, page_program_traffic, page_read_traffic, read_geometry,
    row_bytes, status_query,
};
use crate::domain::chip::ChipLayout;
use crate::domain::flash_operation::{EraseRequest, ReadRequest, WriteRequest};
use crate::infrastructure::programmer::frames::{
    busy_polls, concat, div_ceil, polled_status, polls_until_ready,
};
use crate::infrastructure::programmer::simulator::{
    chip_replay, erased, lemma_chip_replay_append, lemma_chip_replay_clocks, lemma_nand_run_append,
    nand_deselect, nand_run, nand_step, overwrite, row_of, NandModel,
};
use crate::infrastructure::programmer::traits::{clocks, command_frame, query_frame, BusOp};

verus! {

/// The chip is between commands.
pub open spec fn ready(s: NandModel) -> bool {
    s.command is None && s.args.len() == 0
}

/// The chip once the opcode `op` was received between commands.
pub open spec fn after_opcode(s: NandModel, op: u8) -> NandModel {
    NandModel {
        command: Some(op),
        args: Seq::empty(),
        write_enabled: if op == 0x06 {
            true
        } else if op == 0x04 {
            false
        } else {
            s.write_enabled
        },
        ..s
    }
}

/// Running no bytes changes nothing.
proof fn lemma_run0(s: NandModel)
    ensures
        nand_run(s, Seq::empty()) == (s, Seq::<u8>::empty()),
{
}

/// Running one more byte.
pub proof fn lemma_run_push(s: NandModel, tx: Seq<u8>, b: u8)
    ensures
        nand_run(s, tx.push(b)) == ({
            let (t, o) = nand_run(s, tx);
            let (t2, x) = nand_step(t, b);
            (t2, o.push(x))
        }),
{
    assert(tx.push(b).drop_last() =~= tx);
}

/// Running one byte.
proof fn lemma_run1(s: NandModel, a: u8)
    ensures
        nand_run(s, seq![a]) == ({
            let (t, x) = nand_step(s, a);
            (t, seq![x])
        }),
{
    lemma_run_push(s, Seq::empty(), a);
    assert(Seq::<u8>::empty().push(a) =~= seq![a]);
    assert(Seq::<u8>::empty().push(nand_step(s, a).1) =~= seq![nand_step(s, a).1]);
}

/// Running two bytes.
proof fn lemma_run2(s: NandModel, a: u8, b: u8)
    ensures
        nand_run(s, seq![a, b]) == ({
            let (t1, x1) = nand_step(s, a);
            let (t2, x2) = nand_step(t1, b);
            (t2, seq![x1, x2])
        }),
{
    lemma_run1(s, a);
    lemma_run_push(s, seq![a], b);
    assert(seq![a].push(b) =~= seq![a, b]);
    let x1 = nand_step(s, a).1;
    let x2 = nand_step(nand_step(s, a).0, b).1;
    assert(seq![x1].push(x2) =~= seq![x1, x2]);
}

/// Running three bytes.
proof fn lemma_run3(s: NandModel, a: u8, b: u8, c: u8)
    ensures
        nand_run(s, seq![a, b, c]) == ({
            let (t1, x1) = nand_step(s, a);
            let (t2, x2) = nand_step(t1, b);
            let (t3, x3) = nand_step(t2, c);
            (t3, seq![x1, x2, x3])
        }),
{
    lemma_run2(s, a, b);
    lemma_run_push(s, seq![a, b], c);
    assert(seq![a, b].push(c) =~= seq![a, b, c]);
    let (t1, x1) = nand_step(s, a);
    let (t2, x2) = nand_step(t1, b);
    let x3 = nand_step(t2, c).1;
    assert(seq![x1, x2].push(x3) =~= seq![x1, x2, x3]);
}

/// Running four bytes.
proof fn lemma_run4(s: NandModel, a: u8, b: u8, c: u8, d: u8)
    ensures
        nand_run(s, seq![a, b, c, d]) == ({
            let (t1, x1) = nand_step(s, a);
            let (t2, x2) = nand_step(t1, b);
            let (t3, x3) = nand_step(t2, c);
            let (t4, x4) = nand_step(t3, d);
            (t4, seq![x1, x2, x3, x4])
        }),
{
    lemma_run3(s, a, b, c);
    lemma_run_push(s, seq![a, b, c], d);
    assert(seq![a, b, c].push(d) =~= seq![a, b, c, d]);
    let (t1, x1) = nand_step(s, a);
    let (t2, x2) = nand_step(t1, b);
    let (t3, x3) = nand_step(t2, c);
    let x4 = nand_step(t3, d).1;
    assert(seq![x1, x2, x3].push(x4) =~= seq![x1, x2, x3, x4]);
}

/// WRITE ENABLE sets the write enable latch.
pub proof fn lemma_run_write_enable(s: NandModel)
    requires
        ready(s),
    ensures
        nand_deselect(nand_run(s, seq![0x06u8]).0) == (NandModel { write_enabled: true, ..s }),
{
    lemma_run1(s, 0x06);
    assert(s.args =~= Seq::<u8>::empty());
    assert(nand_deselect(nand_run(s, seq![0x06u8]).0) =~= (NandModel { write_enabled: true, ..s }));
}

/// GET FEATURE of register `a` answers the status register for C0h (0 for
/// the others) and changes nothing.
pub proof fn lemma_run_get_feature(s: NandModel, a: u8, d: u8)
    requires
        ready(s),
    ensures
        nand_deselect(nand_run(s, seq![0x0Fu8, a, d]).0) == s,
        nand_run(s, seq![0x0Fu8, a, d]).1[2] == if a == 0xC0 {
            s.status
        } else {
            0
        },
{
    lemma_run3(s, 0x0F, a, d);
    assert(s.args =~= Seq::<u8>::empty());
    assert(nand_deselect(nand_run(s, seq![0x0Fu8, a, d]).0) =~= s);
}

/// SET FEATURE of register `a` to `v` changes the status register for C0h
/// and nothing else.
pub proof fn lemma_run_set_feature(s: NandModel, a: u8, v: u8)
    requires
        ready(s),
    ensures
        nand_deselect(nand_run(s, seq![0x1Fu8, a, v]).0) == (NandModel {
            status: if a == 0xC0 {
                v
            } else {
                s.status
            },
            ..s
        }),
{
    lemma_run3(s, 0x1F, a, v);
    assert(s.args =~= Seq::<u8>::empty());
    assert(nand_deselect(nand_run(s, seq![0x1Fu8, a, v]).0) =~= (NandModel {
        status: if a == 0xC0 {
            v
        } else {
            s.status
        },
        ..s
    }));
}


/// The row address bytes of a page below 2^24 give the page back.
pub proof fn lemma_row_roundtrip(p: u32)
    requires
        p < 0x100_0000,
    ensures
        row_of(row_bytes(p)) == p,
{
    let b0 = (p >> 16u32) as u8;
    let b1 = (p >> 8u32) as u8;
    let b2 = p as u8;
    assert(b0 as u32 * 65536 + b1 as u32 * 256 + b2 as u32 == p) by (bit_vector)
        requires
            p < 0x100_0000,
            b0 == (p >> 16u32) as u8,
            b1 == (p >> 8u32) as u8,
            b2 == p as u8,
    ;
}

/// PAGE READ of page `p` loads the page into the cache, when it lies inside
/// the memory.
pub proof fn lemma_run_page_read(s: NandModel, p: u32)
    requires
        ready(s),
        p < 0x100_0000,
    ensures
        nand_deselect(nand_run(s, seq![0x13u8] + row_bytes(p)).0) == (NandModel {
            row: p,
            page_buffer: if p * s.page_size + s.page_size <= s.memory.len() {
                s.memory.subrange(p * s.page_size, p * s.page_size + s.page_size)
            } else {
                s.page_buffer
            },
            ..s
        }),
{
    let b = row_bytes(p);
    assert(seq![0x13u8] + b =~= seq![0x13u8, b[0], b[1], b[2]]);
    lemma_run4(s, 0x13, b[0], b[1], b[2]);
    lemma_row_roundtrip(p);
    assert(seq![b[0], b[1], b[2]] =~= b);
    assert(s.args =~= Seq::<u8>::empty());
    assert(Seq::<u8>::empty().push(b[0]).push(b[1]).push(b[2]) =~= b);
}

/// PROGRAM EXECUTE of page `p` (write enabled) stores the cache into the
/// page, when it lies inside the memory, and clears the write enable latch.
pub proof fn lemma_run_program_execute(s: NandModel, p: u32)
    requires
        ready(s),
        s.write_enabled,
        p < 0x100_0000,
    ensures
        nand_deselect(nand_run(s, seq![0x10u8] + row_bytes(p)).0) == (NandModel {
            memory: if p * s.page_size + s.page_size <= s.memory.len() {
                overwrite(s.memory, p * s.page_size, s.page_buffer)
            } else {
                s.memory
            },
            write_enabled: false,
            ..s
        }),
{
    let b = row_bytes(p);
    assert(seq![0x10u8] + b =~= seq![0x10u8, b[0], b[1], b[2]]);
    lemma_run4(s, 0x10, b[0], b[1], b[2]);
    lemma_row_roundtrip(p);
    assert(s.args =~= Seq::<u8>::empty());
    assert(Seq::<u8>::empty().push(b[0]).push(b[1]).push(b[2]) =~= b);
}

/// Reading `k` more bytes from the cache during READ CACHE answers the
/// cache bytes from the column on, and moves the column.
proof fn lemma_run_cache_out(t: NandModel, m: Seq<u8>)
    requires
        t.command == Some(0x03u8),
        t.args.len() >= 3,
        t.column + m.len() <= t.page_buffer.len(),
        t.page_buffer.len() <= 65535,
    ensures
        nand_run(t, m) == (
            NandModel { column: (t.column + m.len()) as u16, args: t.args + m, ..t },
            t.page_buffer.subrange(t.column as int, t.column + m.len()),
        ),
    decreases m.len(),
{
    if m.len() == 0 {
        assert(t.args + m =~= t.args);
        assert(t.page_buffer.subrange(t.column as int, t.column as int) =~= Seq::<u8>::empty());
    } else {
        lemma_run_cache_out(t, m.drop_last());
        lemma_run_push(t, m.drop_last(), m.last());
        assert(m.drop_last().push(m.last()) =~= m);
        assert((t.args + m.drop_last()).push(m.last()) =~= t.args + m);
        assert(t.page_buffer.subrange(t.column as int, t.column + m.len() - 1).push(
            t.page_buffer[t.column + m.len() - 1],
        ) =~= t.page_buffer.subrange(t.column as int, t.column + m.len()));
    }
}

/// READ CACHE from column 0, receiving `k` bytes (whatever is sent after the
/// dummy byte), answers the first `k` bytes of the cache.
pub proof fn lemma_run_read_cache(s: NandModel, m: Seq<u8>)
    requires
        ready(s),
        m.len() <= s.page_buffer.len(),
        s.page_buffer.len() <= 65535,
    ensures
        nand_deselect(nand_run(s, seq![0x03u8, 0u8, 0u8, 0u8] + m).0) == (NandModel {
            column: m.len() as u16,
            ..s
        }),
        nand_run(s, seq![0x03u8, 0u8, 0u8, 0u8] + m).1 == seq![0xFFu8, 0xFFu8, 0xFFu8, 0xFFu8]
            + s.page_buffer.subrange(0, m.len() as int),
{
    lemma_run4(s, 0x03, 0, 0, 0);
    lemma_nand_run_append(s, seq![0x03u8, 0u8, 0u8, 0u8], m);
    let t = nand_run(s, seq![0x03u8, 0u8, 0u8, 0u8]).0;
    assert(t.args =~= seq![0u8, 0u8, 0u8]) by {
        assert(s.args =~= Seq::<u8>::empty());
    }
    assert(t.column == 0);
    lemma_run_cache_out(t, m);
    assert(s.args =~= Seq::<u8>::empty());
}

/// Loading `img` into the cache during PROGRAM LOAD writes it from the
/// column on.
proof fn lemma_run_cache_in(t: NandModel, img: Seq<u8>)
    requires
        t.command == Some(0x02u8),
        t.args.len() >= 2,
        t.column + img.len() <= t.page_buffer.len(),
        t.page_buffer.len() <= 65535,
    ensures
        nand_run(t, img).0 == (NandModel {
            page_buffer: overwrite(t.page_buffer, t.column as int, img),
            column: (t.column + img.len()) as u16,
            args: t.args + img,
            ..t
        }),
    decreases img.len(),
{
    if img.len() == 0 {
        assert(t.args + img =~= t.args);
        assert(overwrite(t.page_buffer, t.column as int, img) =~= t.page_buffer);
    } else {
        lemma_run_cache_in(t, img.drop_last());
        lemma_run_push(t, img.drop_last(), img.last());
        assert(img.drop_last().push(img.last()) =~= img);
        assert((t.args + img.drop_last()).push(img.last()) =~= t.args + img);
        let pb = overwrite(t.page_buffer, t.column as int, img.drop_last());
        assert(pb.update(t.column + img.len() - 1, img.last()) =~= overwrite(
            t.page_buffer,
            t.column as int,
            img,
        ));
    }
}

/// PROGRAM LOAD at column 0 of a whole page image fills the cache with it.
pub proof fn lemma_run_program_load(s: NandModel, img: Seq<u8>)
    requires
        ready(s),
        img.len() == s.page_buffer.len(),
        s.page_buffer.len() <= 65535,
    ensures
        nand_deselect(nand_run(s, seq![0x02u8, 0u8, 0u8] + img).0) == (NandModel {
            page_buffer: img,
            column: img.len() as u16,
            ..s
        }),
{
    lemma_run3(s, 0x02, 0, 0);
    lemma_nand_run_append(s, seq![0x02u8, 0u8, 0u8], img);
    let t = nand_run(s, seq![0x02u8, 0u8, 0u8]).0;
    assert(t.args =~= seq![0u8, 0u8]) by {
        assert(s.args =~= Seq::<u8>::empty());
    }
    lemma_run_cache_in(t, img);
    assert(overwrite(t.page_buffer, 0, img) =~= img);
    assert(s.args =~= Seq::<u8>::empty());
}

/// The bytes sent by clock events.
pub open spec fn mosis(ops: Seq<BusOp>) -> Seq<u8> {
    Seq::new(ops.len(), |i: int| ops[i]->mosi)
}

/// The bytes received by clock events.
pub open spec fn misos(ops: Seq<BusOp>) -> Seq<u8> {
    Seq::new(ops.len(), |i: int| ops[i]->miso)
}

/// Clock events are the clocks of what they sent and received.
proof fn lemma_clocks_of(ops: Seq<BusOp>)
    requires
        forall|i: int| 0 <= i < ops.len() ==> (#[trigger] ops[i]) is Clock,
    ensures
        ops == clocks(mosis(ops), misos(ops)),
{
    assert(ops =~= clocks(mosis(ops), misos(ops)));
}

/// A replay that went through went through each of its parts.
proof fn lemma_replay_prefix(s: NandModel, a: Seq<BusOp>, b: Seq<BusOp>)
    requires
        chip_replay(s, a + b) is Some,
    ensures
        chip_replay(s, a) is Some,
        chip_replay(chip_replay(s, a)->0, b) == chip_replay(s, a + b),
{
    lemma_chip_replay_append(s, a, b);
}

/// Selecting the chip changes nothing.
proof fn lemma_replay_select(s: NandModel)
    ensures
        chip_replay(s, seq![BusOp::Select(true)]) == Some(s),
        chip_replay(s, seq![BusOp::Select(false)]) == Some(nand_deselect(s)),
{
    assert(chip_replay(s, Seq::<BusOp>::empty()) == Some(s));
    assert(seq![BusOp::Select(true)].drop_last() =~= Seq::<BusOp>::empty());
    assert(seq![BusOp::Select(false)].drop_last() =~= Seq::<BusOp>::empty());
    assert(seq![BusOp::Select(true)].last() == BusOp::Select(true));
    assert(seq![BusOp::Select(false)].last() == BusOp::Select(false));
}

/// A command frame takes the chip through the bytes sent, then ends the command.
pub proof fn lemma_replay_command_frame(s: NandModel, ops: Seq<BusOp>, tx: Seq<u8>)
    requires
        command_frame(ops, tx),
        chip_replay(s, ops) is Some,
    ensures
        chip_replay(s, ops) == Some(nand_deselect(nand_run(s, tx).0)),
{
    let n = tx.len() as int;
    let mid = ops.subrange(1, n + 1);
    assert(ops =~= seq![BusOp::Select(true)] + mid + seq![BusOp::Select(false)]);
    lemma_clocks_of(mid);
    assert(mosis(mid) =~= tx);
    lemma_replay_prefix(s, seq![BusOp::Select(true)] + mid, seq![BusOp::Select(false)]);
    lemma_replay_prefix(s, seq![BusOp::Select(true)], mid);
    lemma_replay_select(s);
    lemma_chip_replay_clocks(s, tx, misos(mid));
    lemma_replay_select(nand_run(s, tx).0);
}

/// A query frame takes the chip through the bytes sent and then those
/// clocked while receiving (`d`), answering what was received; then the
/// command ends.
pub proof fn lemma_replay_query_frame(s: NandModel, ops: Seq<BusOp>, tx: Seq<u8>, rx: Seq<u8>)
    requires
        query_frame(ops, tx, rx),
        chip_replay(s, ops) is Some,
    ensures
        ({
            let d = mosis(ops.subrange(tx.len() as int + 1, tx.len() + rx.len() + 1int));
            &&& d.len() == rx.len()
            &&& chip_replay(s, ops) == Some(nand_deselect(nand_run(s, tx + d).0))
            &&& nand_run(nand_run(s, tx).0, d).1 == rx
        }),
{
    let n = tx.len() as int;
    let m = rx.len() as int;
    let mid1 = ops.subrange(1, n + 1);
    let mid2 = ops.subrange(n + 1, n + m + 1);
    let d = mosis(mid2);
    assert(ops =~= seq![BusOp::Select(true)] + mid1 + mid2 + seq![BusOp::Select(false)]);
    lemma_clocks_of(mid1);
    lemma_clocks_of(mid2);
    assert(mosis(mid1) =~= tx);
    assert(misos(mid2) =~= rx);
    lemma_replay_prefix(s, seq![BusOp::Select(true)] + mid1 + mid2, seq![BusOp::Select(false)]);
    lemma_replay_prefix(s, seq![BusOp::Select(true)] + mid1, mid2);
    lemma_replay_prefix(s, seq![BusOp::Select(true)], mid1);
    lemma_replay_select(s);
    lemma_chip_replay_clocks(s, tx, misos(mid1));
    let t = nand_run(s, tx).0;
    lemma_chip_replay_clocks(t, d, rx);
    lemma_nand_run_append(s, tx, d);
    lemma_replay_select(nand_run(t, d).0);
}

/// A GET FEATURE query leaves the chip as it was.
pub proof fn lemma_replay_get_feature(s: NandModel, ops: Seq<BusOp>, a: u8, x: u8)
    requires
        ready(s),
        query_frame(ops, seq![0x0Fu8, a], seq![x]),
        chip_replay(s, ops) is Some,
    ensures
        chip_replay(s, ops) == Some(s),
{
    lemma_replay_query_frame(s, ops, seq![0x0Fu8, a], seq![x]);
    let d = mosis(ops.subrange(3, 4));
    assert(seq![0x0Fu8, a] + d =~= seq![0x0Fu8, a, d[0]]);
    lemma_run_get_feature(s, a, d[0]);
}

/// Status polls leave the chip as it was.
pub proof fn lemma_replay_busy_polls(s: NandModel, ops: Seq<BusOp>)
    requires
        ready(s),
        busy_polls(ops, status_query(), STATUS_NAND_OIP),
        chip_replay(s, ops) is Some,
    ensures
        chip_replay(s, ops) == Some(s),
    decreases ops.len(),
{
    if ops.len() > 0 {
        let k = ops.len() - 5;
        let head = ops.subrange(0, k);
        let frame = ops.subrange(k, ops.len() as int);
        assert(ops =~= head + frame);
        lemma_replay_prefix(s, head, frame);
        lemma_replay_busy_polls(s, head);
        lemma_replay_get_feature(s, frame, FEATURE_STATUS, polled_status(frame, status_query()));
    }
}

/// Polling until ready leaves the chip as it was.
pub proof fn lemma_replay_polls(s: NandModel, ops: Seq<BusOp>)
    requires
        ready(s),
        polls_until_ready(ops, status_query(), STATUS_NAND_OIP),
        chip_replay(s, ops) is Some,
    ensures
        chip_replay(s, ops) == Some(s),
{
    let k = ops.len() - 5;
    let head = ops.subrange(0, k);
    let frame = ops.subrange(k, ops.len() as int);
    assert(ops =~= head + frame);
    lemma_replay_prefix(s, head, frame);
    lemma_replay_busy_polls(s, head);
    lemma_replay_get_feature(s, frame, FEATURE_STATUS, polled_status(frame, status_query()));
}

/// Setting the ECC bit (configuration register) leaves the simulated chip as it was.
pub proof fn lemma_replay_ecc(s: NandModel, ops: Seq<BusOp>, enabled: bool)
    requires
        ready(s),
        ecc_traffic(ops, enabled),
        chip_replay(s, ops) is Some,
    ensures
        chip_replay(s, ops) == Some(s),
{
    let q = ops.subrange(0, 5);
    let c = ops.subrange(5, 10);
    assert(ops =~= q + c);
    lemma_replay_prefix(s, q, c);
    lemma_replay_get_feature(s, q, FEATURE_CONFIG, polled_status(q, config_query()));
    let v = ecc_config(polled_status(q, config_query()), enabled);
    lemma_replay_command_frame(s, c, seq![CMD_NAND_SET_FEATURE, FEATURE_CONFIG, v]);
    lemma_run_set_feature(s, FEATURE_CONFIG, v);
}

/// Programming a page: the page image ends up in the cache and in the
/// page, when the page lies inside the memory; the write enable latch is
/// cleared.
#[verifier::spinoff_prover]
#[verifier::rlimit(30)]
pub proof fn lemma_replay_page_program(s: NandModel, ops: Seq<BusOp>, p: u32, image: Seq<u8>)
    requires
        ready(s),
        page_program_traffic(ops, p, image),
        chip_replay(s, ops) is Some,
        image.len() == s.page_buffer.len(),
        s.page_buffer.len() <= 65535,
        p < 0x100_0000,
    ensures
        chip_replay(s, ops) == Some(NandModel {
            memory: if p * s.page_size + s.page_size <= s.memory.len() {
                overwrite(s.memory, p * s.page_size, image)
            } else {
                s.memory
            },
            page_buffer: image,
            column: image.len() as u16,
            write_enabled: false,
            ..s
        }),
{
    let a = image.len() as int + 8;
    let b = a + 6;
    let e = ops.len() - 5;
    let we = ops.subrange(0, 3);
    let load = ops.subrange(3, a);
    let exec = ops.subrange(a, b);
    let polls = ops.subrange(b, e);
    let st = ops.subrange(e, ops.len() as int);
    assert(ops =~= we + load + exec + polls + st);
    lemma_replay_prefix(s, we + load + exec + polls, st);
    lemma_replay_prefix(s, we + load + exec, polls);
    lemma_replay_prefix(s, we + load, exec);
    lemma_replay_prefix(s, we, load);
    // write enable
    lemma_replay_command_frame(s, we, seq![CMD_WRITE_ENABLE]);
    lemma_run_write_enable(s);
    let s1 = NandModel { write_enabled: true, ..s };
    // program load
    lemma_replay_command_frame(s1, load, seq![CMD_NAND_PROGRAM_LOAD, 0u8, 0u8] + image);
    lemma_run_program_load(s1, image);
    let s2 = NandModel { page_buffer: image, column: image.len() as u16, ..s1 };
    // program execute
    lemma_replay_command_frame(s2, exec, seq![CMD_NAND_PROGRAM_EXECUTE] + row_bytes(p));
    lemma_run_program_execute(s2, p);
    let s3 = NandModel {
        memory: if p * s.page_size + s.page_size <= s.memory.len() {
            overwrite(s.memory, p * s.page_size, image)
        } else {
            s.memory
        },
        write_enabled: false,
        ..s2
    };
    // wait and status check
    lemma_replay_polls(s3, polls);
    lemma_replay_get_feature(s3, st, FEATURE_STATUS, polled_status(st, status_query()));
}

/// Reading a page from column 0: the page is loaded into the cache and the
/// bytes received are its first bytes, when it lies inside the memory.
#[verifier::spinoff_prover]
#[verifier::rlimit(30)]
pub proof fn lemma_replay_page_read(s: NandModel, ops: Seq<BusOp>, p: u32, data: Seq<u8>)
    requires
        ready(s),
        page_read_traffic(ops, p, 0, data),
        chip_replay(s, ops) is Some,
        s.page_buffer.len() == s.page_size,
        s.page_size <= 65535,
        data.len() <= s.page_size,
        p < 0x100_0000,
        p * s.page_size + s.page_size <= s.memory.len(),
    ensures
        data == s.memory.subrange(p * s.page_size, p * s.page_size + data.len()),
        chip_replay(s, ops) == Some(NandModel {
            row: p,
            page_buffer: s.memory.subrange(p * s.page_size, p * s.page_size + s.page_size),
            column: data.len() as u16,
            ..s
        }),
{
    let m = data.len() as int + 6;
    let e = ops.len() - m;
    let pr = ops.subrange(0, 6);
    let polls = ops.subrange(6, e);
    let rc = ops.subrange(e, ops.len() as int);
    assert(ops =~= pr + polls + rc);
    lemma_replay_prefix(s, pr + polls, rc);
    lemma_replay_prefix(s, pr, polls);
    // page read
    lemma_replay_command_frame(s, pr, seq![CMD_NAND_PAGE_READ] + row_bytes(p));
    lemma_run_page_read(s, p);
    let page = s.memory.subrange(p * s.page_size, p * s.page_size + s.page_size);
    let s1 = NandModel { row: p, page_buffer: page, ..s };
    // wait
    lemma_replay_polls(s1, polls);
    // read cache
    let tx = seq![CMD_NAND_READ_CACHE] + column_bytes(0) + seq![0u8];
    assert(tx =~= seq![0x03u8, 0u8, 0u8, 0u8]) by {
        assert((0u16 >> 8u16) as u8 == 0u8 && 0u16 as u8 == 0u8) by (bit_vector);
    }
    lemma_replay_query_frame(s1, rc, tx, data);
    let d = mosis(rc.subrange(5, data.len() + 5int));
    lemma_run_read_cache(s1, d);
    lemma_run4(s1, 0x03, 0, 0, 0);
    lemma_nand_run_append(s1, tx, d);
    assert(page.subrange(0, data.len() as int) =~= s.memory.subrange(
        p * s.page_size,
        p * s.page_size + data.len(),
    ));
    let r = nand_run(s1, tx + d).1;
    assert(r =~= seq![0xFFu8, 0xFFu8, 0xFFu8, 0xFFu8] + page.subrange(0, d.len() as int));
    assert(r.skip(4) =~= page.subrange(0, d.len() as int));
    assert(r.skip(4) =~= nand_run(nand_run(s1, tx).0, d).1);
}

/// Byte `j` of `data` as written to flash: past its end, pages are padded with 0xFF.
pub open spec fn padded(data: Seq<u8>, j: int) -> u8 {
    if j < data.len() {
        data[j]
    } else {
        0xFFu8
    }
}

/// The state after programming pages: between commands, same geometry, and
/// the first `n` bytes from `start` hold the padded data.
pub open spec fn programmed(s: NandModel, t: NandModel, start: int, data: Seq<u8>, n: int) -> bool {
    &&& ready(t)
    &&& t.page_size == s.page_size
    &&& t.page_buffer.len() == t.page_size
    &&& t.memory.len() == s.memory.len()
    &&& forall|j: int| 0 <= j < n ==> t.memory[start + j] == #[trigger] padded(data, j)
}

/// `(a + i) * p` spelled out.
proof fn lemma_page_start(a: int, i: int, p: int)
    requires
        a >= 0,
        i >= 0,
        p > 0,
    ensures
        (a + i) * p == a * p + i * p,
        (a + i) * p >= a * p,
        (a + i + 1) * p == (a + i) * p + p,
{
    assert((a + i) * p == a * p + i * p) by (nonlinear_arith);
    assert((a + i + 1) * p == (a + i) * p + p) by (nonlinear_arith);
    assert(i * p >= 0) by (nonlinear_arith)
        requires
            i >= 0,
            p > 0,
    ;
}

/// `a <= b` pages end no later than `b` pages.
proof fn lemma_pages_le(a: int, b: int, p: int)
    requires
        0 <= a <= b,
        p > 0,
    ensures
        a * p <= b * p,
{
    assert(a * p <= b * p) by (nonlinear_arith)
        requires
            a <= b,
            p > 0,
    ;
}

/// Replaying the first `k` page-program segments of a write writes the
/// first `k` pages of padded data.
#[verifier::spinoff_prover]
#[verifier::rlimit(30)]
proof fn lemma_replay_programs(
    s: NandModel,
    segs: Seq<Seq<BusOp>>,
    first: int,
    data: Seq<u8>,
    k: int,
)
    requires
        ready(s),
        s.page_buffer.len() == s.page_size,
        0 < s.page_size <= 65535,
        0 <= k <= segs.len(),
        first >= 0,
        first + segs.len() <= 0x100_0000,
        (first + segs.len()) * s.page_size <= s.memory.len(),
        forall|i: int|
            0 <= i < segs.len() ==> page_program_traffic(
                #[trigger] segs[i],
                (first + i) as u32,
                page_image(data, i, s.page_size as int),
            ),
        chip_replay(s, concat(segs.take(k))) is Some,
    ensures
        programmed(
            s,
            chip_replay(s, concat(segs.take(k)))->0,
            first * s.page_size,
            data,
            k * s.page_size,
        ),
    decreases k,
{
    let ps = s.page_size as int;
    if k == 0 {
        assert(segs.take(0) =~= Seq::<Seq<BusOp>>::empty());
        assert(concat(segs.take(0)) =~= Seq::<BusOp>::empty());
        assert(chip_replay(s, Seq::<BusOp>::empty()) == Some(s));
        assert(0 * ps == 0);
    } else {
        let i = k - 1;
        assert(segs.take(k).drop_last() =~= segs.take(i));
        assert(segs.take(k).last() == segs[i]);
        let prev = concat(segs.take(i));
        assert(concat(segs.take(k)) == prev + segs[i]);
        lemma_replay_prefix(s, prev, segs[i]);
        lemma_replay_programs(s, segs, first, data, i);
        let t = chip_replay(s, prev)->0;
        let p = (first + i) as u32;
        lemma_page_start(first, i, ps);
        lemma_pages_le(first + i + 1, first + segs.len(), ps);
        let image = page_image(data, i, ps);
        lemma_replay_page_program(t, segs[i], p, image);
        let u = chip_replay(s, concat(segs.take(k)))->0;
        assert(p * t.page_size == first * ps + i * ps);
        assert(p * t.page_size + t.page_size <= t.memory.len());
        assert(u.memory == overwrite(t.memory, p * t.page_size, image));
        lemma_page_start(0, i, ps);
        assert forall|j: int| 0 <= j < k * ps implies u.memory[first * ps + j] == #[trigger] padded(
            data,
            j,
        ) by {
            if j < i * ps {
                assert(t.memory[first * ps + j] == padded(data, j));
            } else {
                let c = j - i * ps;
                assert(k * ps == i * ps + ps) by (nonlinear_arith)
                    requires
                        k == i + 1,
                ;
                assert(0 <= c < ps);
                assert(image[c] == padded(data, i * ps + c));
            }
        }
    }
}

/// Replaying the first `k` page-read segments of a read leaves the memory as
/// it was and gathers its first `k` pages from `first`.
#[verifier::spinoff_prover]
#[verifier::rlimit(30)]
proof fn lemma_replay_reads(
    s: NandModel,
    segs: Seq<Seq<BusOp>>,
    chunks: Seq<Seq<u8>>,
    first: int,
    k: int,
)
    requires
        ready(s),
        s.page_buffer.len() == s.page_size,
        0 < s.page_size <= 65535,
        segs.len() == chunks.len(),
        0 <= k <= segs.len(),
        first >= 0,
        first + segs.len() <= 0x100_0000,
        (first + segs.len()) * s.page_size <= s.memory.len(),
        forall|i: int|
            0 <= i < chunks.len() ==> (#[trigger] chunks[i]).len() == s.page_size
                && page_read_traffic(segs[i], (first + i) as u32, 0, chunks[i]),
        chip_replay(s, concat(segs.take(k))) is Some,
    ensures
        ({
            let t = chip_replay(s, concat(segs.take(k)))->0;
            &&& ready(t)
            &&& t.memory == s.memory
            &&& t.page_size == s.page_size
            &&& t.page_buffer.len() == t.page_size
        }),
        concat(chunks.take(k)) == s.memory.subrange(
            first * s.page_size,
            first * s.page_size + k * s.page_size,
        ),
    decreases k,
{
    let ps = s.page_size as int;
    if k == 0 {
        assert(segs.take(0) =~= Seq::<Seq<BusOp>>::empty());
        assert(concat(segs.take(0)) =~= Seq::<BusOp>::empty());
        assert(chunks.take(0) =~= Seq::<Seq<u8>>::empty());
        lemma_pages_le(first, first + segs.len(), ps);
        assert(0 * ps == 0);
        assert(concat(chunks.take(0)) =~= s.memory.subrange(first * ps, first * ps + 0 * ps));
    } else {
        let i = k - 1;
        assert(segs.take(k).drop_last() =~= segs.take(i));
        assert(segs.take(k).last() == segs[i]);
        assert(chunks.take(k).drop_last() =~= chunks.take(i));
        assert(chunks.take(k).last() == chunks[i]);
        let prev = concat(segs.take(i));
        assert(concat(segs.take(k)) == prev + segs[i]);
        assert(concat(chunks.take(k)) == concat(chunks.take(i)) + chunks[i]);
        lemma_replay_prefix(s, prev, segs[i]);
        lemma_replay_reads(s, segs, chunks, first, i);
        let t = chip_replay(s, prev)->0;
        let p = (first + i) as u32;
        lemma_page_start(first, i, ps);
        lemma_pages_le(first + i + 1, first + segs.len(), ps);
        assert(chunks[i].len() == ps && page_read_traffic(segs[i], p, 0, chunks[i]));
        lemma_replay_page_read(t, segs[i], p, chunks[i]);
        assert(p * t.page_size == first * ps + i * ps);
        assert(k * ps == i * ps + ps) by (nonlinear_arith)
            requires
                k == i + 1,
        ;
        assert(concat(chunks.take(k)) =~= s.memory.subrange(first * ps, first * ps + k * ps));
    }
}

/// `n` bytes take `div_ceil(n, p)` pages of `p` bytes: together they hold at least `n` bytes.
proof fn lemma_div_ceil_covers(n: int, p: int)
    requires
        n >= 0,
        p > 0,
    ensures
        div_ceil(n, p) >= 0,
        div_ceil(n, p) * p >= n,
{
    let q = (n + p - 1) / p;
    let r = (n + p - 1) % p;
    assert(q * p + r == n + p - 1 && 0 <= r < p && q >= 0) by (nonlinear_arith)
        requires
            q == (n + p - 1) / p,
            r == (n + p - 1) % p,
            p > 0,
            n >= 0,
    ;
}

/// The chip after a complete, page-aligned write holds the written data
/// from the write's address.
proof fn lemma_replay_write(s: NandModel, layout: ChipLayout, write: WriteRequest, ops: Seq<BusOp>)
    requires
        ready(s),
        s.page_size == layout.page_size,
        s.page_buffer.len() == s.page_size,
        0 < layout.page_size <= 65535,
        nand_write_result(ops, layout, write),
        write.address.0 / layout.page_size + div_ceil(
            write.data@.len() as int,
            layout.page_size as int,
        ) <= 0x100_0000,
        (write.address.0 / layout.page_size + div_ceil(
            write.data@.len() as int,
            layout.page_size as int,
        )) * layout.page_size <= s.memory.len(),
        chip_replay(s, ops) is Some,
    ensures
        programmed(
            s,
            chip_replay(s, ops)->0,
            (write.address.0 / layout.page_size) * layout.page_size,
            write.data@,
            write.data@.len() as int,
        ),
{
    let ps = layout.page_size as int;
    let first = (write.address.0 / layout.page_size) as int;
    let n = write.data@.len() as int;
    lemma_div_ceil_covers(n, ps);
    let segs = choose|segs: Seq<Seq<BusOp>>| nand_write_traffic(ops, layout, write, segs);
    assert(nand_write_traffic(ops, layout, write, segs));
    let q = ops.subrange(0, 10);
    assert(ops =~= q + concat(segs));
    lemma_replay_prefix(s, q, concat(segs));
    lemma_replay_ecc(s, q, write.use_ecc);
    assert(segs.take(segs.len() as int) =~= segs);
    lemma_replay_programs(s, segs, first, write.data@, segs.len() as int);
}

/// A complete read of main-area bytes returns the chip's memory from the
/// read's first page.
#[verifier::spinoff_prover]
#[verifier::rlimit(30)]
proof fn lemma_replay_read(
    t: NandModel,
    layout: ChipLayout,
    read: ReadRequest,
    ops: Seq<BusOp>,
    data: Seq<u8>,
)
    requires
        ready(t),
        t.page_size == layout.page_size,
        t.page_buffer.len() == t.page_size,
        0 < layout.page_size <= 65535,
        nand_read_result(ops, layout, read, data),
        read.oob_mode is Excluded,
        read.address.0 / layout.page_size + div_ceil(
            read.address.0 % layout.page_size + read.length,
            layout.page_size as int,
        ) <= 0x100_0000,
        (read.address.0 / layout.page_size + div_ceil(
            read.address.0 % layout.page_size + read.length,
            layout.page_size as int,
        )) * layout.page_size <= t.memory.len(),
        chip_replay(t, ops) is Some,
    ensures
        data == t.memory.subrange(read.address.0 as int, read.address.0 + read.length),
{
    let ps = layout.page_size as int;
    let first = (read.address.0 / layout.page_size) as int;
    let n = read.length as int;
    let skip = (read.address.0 % layout.page_size) as int;
    let need = skip + n;
    let total = div_ceil(need, ps);
    assert(first * ps + skip == read.address.0) by (nonlinear_arith)
        requires
            first == read.address.0 / layout.page_size,
            skip == read.address.0 % layout.page_size,
            ps == layout.page_size,
            ps > 0,
    ;
    assert(0 <= skip < ps);
    lemma_div_ceil_covers(need, ps);
    let (segs, chunks) = choose|segs: Seq<Seq<BusOp>>, chunks: Seq<Seq<u8>>|
        nand_read_traffic(ops, layout, read, data, segs, chunks);
    assert(nand_read_traffic(ops, layout, read, data, segs, chunks));
    assert(read_geometry(layout, read.oob_mode) == (0u16, ps));
    let k = chunks.len() as int;
    let q = ops.subrange(0, 10);
    assert(ops =~= q + concat(segs));
    lemma_replay_prefix(t, q, concat(segs));
    lemma_replay_ecc(t, q, read.use_ecc);
    assert(segs.take(k) =~= segs);
    assert(chunks.take(k) =~= chunks);
    lemma_pages_le(first + k, first + total, ps);
    lemma_pages_le(k, total, ps);
    lemma_page_start(first, k, ps);
    lemma_replay_reads(t, segs, chunks, first, k);
    let got = concat(chunks);
    assert(got.len() == k * ps);
    assert(got.len() >= need);
    assert(data =~= got.subrange(skip, skip + n));
    assert(data =~= t.memory.subrange(first * ps + skip, first * ps + skip + n));
}

/// Reading back, from the simulated chip, the range that a write has just
/// programmed gives back the data that was written (main area, no
/// spare bytes).
///
/// `write_ops` and `read_ops` are the bus traffic of a successful `write` and
/// of a successful `read` of the same range that returned `data`; that the
/// chip, starting from `s`, answers both as recorded is the premise that the
/// device on the bus is this chip. The pages must lie inside the chip's
/// memory (a program past its end is ignored by the chip) and be reachable by
/// the 24-bit row address.
pub proof fn lemma_nand_write_then_read(
    s: NandModel,
    layout: ChipLayout,
    write: WriteRequest,
    write_ops: Seq<BusOp>,
    read: ReadRequest,
    read_ops: Seq<BusOp>,
    data: Seq<u8>,
)
    requires
        ready(s),
        s.page_size == layout.page_size,
        s.page_buffer.len() == s.page_size,
        0 < layout.page_size <= 65535,
        nand_write_result(write_ops, layout, write),
        nand_read_result(read_ops, layout, read, data),
        read.address == write.address,
        write.address.0 % layout.page_size == 0,
        read.length == write.data@.len(),
        read.oob_mode is Excluded,
        write.address.0 / layout.page_size + div_ceil(
            write.data@.len() as int,
            layout.page_size as int,
        ) <= 0x100_0000,
        (write.address.0 / layout.page_size + div_ceil(
            write.data@.len() as int,
            layout.page_size as int,
        )) * layout.page_size <= s.memory.len(),
        chip_replay(s, write_ops + read_ops) is Some,
    ensures
        data == write.data@,
{
    let ps = layout.page_size as int;
    let start = (write.address.0 / layout.page_size) * ps;
    let wdata = write.data@;
    let n = wdata.len() as int;
    let first = (write.address.0 / layout.page_size) as int;
    let total = div_ceil(n, ps);
    lemma_div_ceil_covers(n, ps);
    lemma_page_start(first, total, ps);
    assert(start + n <= s.memory.len());
    lemma_replay_prefix(s, write_ops, read_ops);
    lemma_replay_write(s, layout, write, write_ops);
    let t = chip_replay(s, write_ops)->0;
    assert(start == write.address.0) by (nonlinear_arith)
        requires
            start == (write.address.0 / layout.page_size) * ps,
            write.address.0 % layout.page_size == 0,
            ps == layout.page_size,
            ps > 0,
    ;
    lemma_replay_read(t, layout, read, read_ops, data);
    assert forall|j: int| 0 <= j < n implies data[j] == wdata[j] by {
        assert(data[j] == t.memory[start + j]);
        assert(t.memory[start + j] == padded(wdata, j));
    }
    assert(data =~= wdata);
}

/// First byte of the block that holds page `p`.
pub open spec fn block_start(s: NandModel, p: int) -> int {
    let ppb = s.block_size as int / s.page_size as int;
    ((p / ppb) * ppb) * s.page_size
}

/// The memory after erasing the block that holds page `p`, when it lies
/// inside the memory.
pub open spec fn erased_block(s: NandModel, p: int) -> Seq<u8> {
    let start = block_start(s, p);
    if start + s.block_size <= s.memory.len() {
        overwrite(s.memory, start, erased(s.block_size as nat))
    } else {
        s.memory
    }
}

/// BLOCK ERASE of the block holding page `p` (write enabled) fills the block
/// with 0xFF, when it lies inside the memory, and clears the write enable
/// latch.
pub proof fn lemma_run_block_erase(s: NandModel, p: u32)
    requires
        ready(s),
        s.write_enabled,
        p < 0x100_0000,
    ensures
        nand_deselect(nand_run(s, seq![0xD8u8] + row_bytes(p)).0) == (NandModel {
            memory: erased_block(s, p as int),
            write_enabled: false,
            ..s
        }),
{
    let b = row_bytes(p);
    assert(seq![0xD8u8] + b =~= seq![0xD8u8, b[0], b[1], b[2]]);
    lemma_run4(s, 0xD8, b[0], b[1], b[2]);
    lemma_row_roundtrip(p);
    assert(s.args =~= Seq::<u8>::empty());
    assert(Seq::<u8>::empty().push(b[0]).push(b[1]).push(b[2]) =~= b);
}

/// Erasing a block: it is filled with 0xFF when it lies inside the memory;
/// the write enable latch is cleared.
pub proof fn lemma_replay_block_erase(s: NandModel, ops: Seq<BusOp>, p: u32)
    requires
        ready(s),
        block_erase_traffic(ops, p),
        chip_replay(s, ops) is Some,
        p < 0x100_0000,
    ensures
        chip_replay(s, ops) == Some(NandModel {
            memory: erased_block(s, p as int),
            write_enabled: false,
            ..s
        }),
{
    let e = ops.len() - 5;
    let we = ops.subrange(0, 3);
    let cmd = ops.subrange(3, 9);
    let polls = ops.subrange(9, e);
    let st = ops.subrange(e, ops.len() as int);
    assert(ops =~= we + cmd + polls + st);
    lemma_replay_prefix(s, we + cmd + polls, st);
    lemma_replay_prefix(s, we + cmd, polls);
    lemma_replay_prefix(s, we, cmd);
    lemma_replay_command_frame(s, we, seq![CMD_WRITE_ENABLE]);
    lemma_run_write_enable(s);
    let s1 = NandModel { write_enabled: true, ..s };
    lemma_replay_command_frame(s1, cmd, seq![CMD_NAND_BLOCK_ERASE] + row_bytes(p));
    lemma_run_block_erase(s1, p);
    assert(erased_block(s1, p as int) == erased_block(s, p as int));
    let s2 = NandModel { memory: erased_block(s, p as int), write_enabled: false, ..s };
    lemma_replay_polls(s2, polls);
    lemma_replay_get_feature(s2, st, FEATURE_STATUS, polled_status(st, status_query()));
}

/// The state after erasing blocks: between commands, same geometry, and the
/// first `n` bytes from `start` are 0xFF.
pub open spec fn blank_from(s: NandModel, t: NandModel, start: int, n: int) -> bool {
    &&& ready(t)
    &&& t.page_size == s.page_size
    &&& t.block_size == s.block_size
    &&& t.page_buffer == s.page_buffer
    &&& t.memory.len() == s.memory.len()
    &&& forall|j: int| 0 <= j < n ==> #[trigger] t.memory[start + j] == 0xFFu8
}

/// Replaying the first `k` block-erase segments of an erase blanks the first
/// `k` blocks from block `first`.
#[verifier::spinoff_prover]
#[verifier::rlimit(30)]
proof fn lemma_replay_erases(s: NandModel, segs: Seq<Seq<BusOp>>, first: int, k: int)
    requires
        ready(s),
        0 < s.page_size,
        0 < s.block_size,
        s.block_size % s.page_size == 0,
        0 <= k <= segs.len(),
        first >= 0,
        (first + segs.len()) * (s.block_size / s.page_size) <= 0x100_0000,
        (first + segs.len()) * s.block_size <= s.memory.len(),
        forall|i: int|
            0 <= i < segs.len() ==> block_erase_traffic(
                #[trigger] segs[i],
                ((first + i) * (s.block_size / s.page_size)) as u32,
            ),
        chip_replay(s, concat(segs.take(k))) is Some,
    ensures
        blank_from(s, chip_replay(s, concat(segs.take(k)))->0, first * s.block_size, k * s.block_size),
    decreases k,
{
    let bs = s.block_size as int;
    let ps = s.page_size as int;
    let ppb = bs / ps;
    if k == 0 {
        assert(segs.take(0) =~= Seq::<Seq<BusOp>>::empty());
        assert(concat(segs.take(0)) =~= Seq::<BusOp>::empty());
        assert(chip_replay(s, Seq::<BusOp>::empty()) == Some(s));
        assert(0 * bs == 0);
        assert(blank_from(s, s, first * bs, 0 * bs));
    } else {
        let i = k - 1;
        assert(segs.take(k).drop_last() =~= segs.take(i));
        assert(segs.take(k).last() == segs[i]);
        let prev = concat(segs.take(i));
        assert(concat(segs.take(k)) == prev + segs[i]);
        lemma_replay_prefix(s, prev, segs[i]);
        lemma_replay_erases(s, segs, first, i);
        let t = chip_replay(s, prev)->0;
        lemma_block_geometry(first, i, segs.len() as int, ps, bs, s.memory.len() as int);
        let pg = (first + i) * ppb;
        let p = pg as u32;
        assert(block_erase_traffic(segs[i], p));
        lemma_replay_block_erase(t, segs[i], p);
        let u = chip_replay(s, concat(segs.take(k)))->0;
        let start = first * bs + i * bs;
        assert(block_start(t, pg) == start);
        assert(u.memory == overwrite(t.memory, start, erased(s.block_size as nat)));
        assert forall|j: int| 0 <= j < k * bs implies #[trigger] u.memory[first * bs + j] == 0xFFu8 by {
            if j < i * bs {
                assert(t.memory[first * bs + j] == 0xFFu8);
            }
        }
        assert(blank_from(s, u, first * bs, k * bs));
    }
}

/// Where block `first + i` of an erase of `n` blocks lies, in pages and bytes.
proof fn lemma_block_geometry(first: int, i: int, n: int, ps: int, bs: int, mem: int)
    requires
        ps > 0,
        bs > 0,
        bs % ps == 0,
        first >= 0,
        0 <= i < n,
        (first + n) * (bs / ps) <= 0x100_0000,
        (first + n) * bs <= mem,
    ensures
        ({
            let ppb = bs / ps;
            let pg = (first + i) * ppb;
            &&& ppb > 0
            &&& 0 <= pg < 0x100_0000
            &&& (pg / ppb) * ppb == pg
            &&& pg * ps == first * bs + i * bs
            &&& first * bs + i * bs + bs <= mem
            &&& (i + 1) * bs == i * bs + bs
            &&& i * bs >= 0
            &&& first * bs >= 0
        }),
{
    let ppb = bs / ps;
    let pg = (first + i) * ppb;
    assert(ppb > 0 && ppb * ps == bs) by (nonlinear_arith)
        requires
            bs % ps == 0,
            ps > 0,
            bs > 0,
            ppb == bs / ps,
    ;
    lemma_pages_le(first + i + 1, first + n, ppb);
    lemma_page_start(first, i, ppb);
    assert(pg >= 0) by (nonlinear_arith)
        requires
            first + i >= 0,
            ppb > 0,
            pg == (first + i) * ppb,
    ;
    assert((pg / ppb) * ppb == pg) by (nonlinear_arith)
        requires
            ppb > 0,
            pg == (first + i) * ppb,
            first + i >= 0,
    ;
    assert(pg * ps == (first + i) * bs) by (nonlinear_arith)
        requires
            pg == (first + i) * ppb,
            ppb * ps == bs,
    ;
    lemma_page_start(first, i, bs);
    lemma_pages_le(first + i + 1, first + n, bs);
    assert(i * bs >= 0 && first * bs >= 0 && (i + 1) * bs == i * bs + bs) by (nonlinear_arith)
        requires
            i >= 0,
            first >= 0,
            bs > 0,
    ;
}

/// Reading, from the simulated chip, pages inside blocks that an erase has
/// just blanked gives 0xFF bytes (main area, no spare bytes).
///
/// `erase_ops` and `read_ops` are the bus traffic of a successful `erase`
/// and of a successful `read` that returned `data`; that the chip, starting
/// from `s`, answers both as recorded is the premise that the device on the
/// bus is this chip. Blocks hold a whole number of pages; the erased blocks
/// must lie inside the chip's memory and be reachable by the 24-bit row
/// address; the pages read must lie inside the erased blocks.
#[verifier::spinoff_prover]
#[verifier::rlimit(30)]
pub proof fn lemma_nand_erase_then_read(
    s: NandModel,
    layout: ChipLayout,
    erase: EraseRequest,
    erase_ops: Seq<BusOp>,
    read: ReadRequest,
    read_ops: Seq<BusOp>,
    data: Seq<u8>,
)
    requires
        ready(s),
        s.page_size == layout.page_size,
        s.block_size == layout.block_size,
        s.page_buffer.len() == s.page_size,
        0 < layout.page_size <= 65535,
        0 < layout.block_size,
        layout.block_size % layout.page_size == 0,
        nand_erase_result(erase_ops, layout, erase),
        nand_read_result(read_ops, layout, read, data),
        read.oob_mode is Excluded,
        (erase.address.0 / layout.block_size + div_ceil(
            erase.length as int,
            layout.block_size as int,
        )) * (layout.block_size / layout.page_size) <= 0x100_0000,
        (erase.address.0 / layout.block_size + div_ceil(
            erase.length as int,
            layout.block_size as int,
        )) * layout.block_size <= s.memory.len(),
        (erase.address.0 / layout.block_size) * layout.block_size <= (read.address.0
            / layout.page_size) * layout.page_size,
        (read.address.0 / layout.page_size + div_ceil(
            read.address.0 % layout.page_size + read.length,
            layout.page_size as int,
        )) * layout.page_size <= (erase.address.0 / layout.block_size + div_ceil(
            erase.length as int,
            layout.block_size as int,
        )) * layout.block_size,
        chip_replay(s, erase_ops + read_ops) is Some,
    ensures
        data == erased(read.length as nat),
{
    let ps = layout.page_size as int;
    let bs = layout.block_size as int;
    let ppb = bs / ps;
    let efirst = (erase.address.0 / layout.block_size) as int;
    let nblocks = div_ceil(erase.length as int, bs);
    let rfirst = (read.address.0 / layout.page_size) as int;
    let rskip = (read.address.0 % layout.page_size) as int;
    let rtotal = div_ceil(rskip + read.length, ps);
    assert(rfirst * ps + rskip == read.address.0) by (nonlinear_arith)
        requires
            rfirst == read.address.0 / layout.page_size,
            rskip == read.address.0 % layout.page_size,
            ps == layout.page_size,
            ps > 0,
    ;
    lemma_div_ceil_covers(erase.length as int, bs);
    lemma_div_ceil_covers(rskip + read.length, ps);
    lemma_replay_prefix(s, erase_ops, read_ops);
    let segs = choose|segs: Seq<Seq<BusOp>>| nand_erase_traffic(erase_ops, layout, erase, segs);
    assert(nand_erase_traffic(erase_ops, layout, erase, segs));
    assert(segs.take(segs.len() as int) =~= segs);
    lemma_replay_erases(s, segs, efirst, segs.len() as int);
    let t = chip_replay(s, erase_ops)->0;
    // the read stays inside the memory and the row addresses
    assert(ppb > 0 && ppb * ps == bs) by (nonlinear_arith)
        requires
            bs % ps == 0,
            ps > 0,
            bs > 0,
            ppb == bs / ps,
    ;
    assert((rfirst + rtotal) * ps <= (efirst + nblocks) * ppb * ps) by (nonlinear_arith)
        requires
            (rfirst + rtotal) * ps <= (efirst + nblocks) * bs,
            ppb * ps == bs,
    ;
    assert(rfirst + rtotal <= (efirst + nblocks) * ppb) by (nonlinear_arith)
        requires
            (rfirst + rtotal) * ps <= (efirst + nblocks) * ppb * ps,
            ps > 0,
    ;
    lemma_replay_read(t, layout, read, read_ops, data);
    lemma_page_start(rfirst, rtotal, ps);
    lemma_page_start(efirst, nblocks, bs);
    assert forall|j: int| 0 <= j < read.length implies data[j] == 0xFFu8 by {
        let a = read.address.0 + j;
        assert(data[j] == t.memory[a]);
        assert(t.memory[efirst * bs + (a - efirst * bs)] == 0xFFu8);
    }
    assert(data =~= erased(read.length as nat));
}

} // verus!
