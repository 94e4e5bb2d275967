//! Shapes of bus traffic shared by the flash protocols: chip-select frames,
//! status polling, and the lemmas that put them together.

use vstd::prelude::*;

use crate::infrastructure::programmer::traits::{
    added, clocked_in, clocked_out, command_frame, extends, query_frame, BusOp,
};

verus! {

/// The sequences of `segs`, one after the other.
pub open spec fn concat<A>(segs: Seq<Seq<A>>) -> Seq<A>
    decreases segs.len(),
{
    if segs.len() == 0 {
        Seq::empty()
    } else {
        concat(segs.drop_last()) + segs.last()
    }
}

/// Concatenating one more sequence adds it at the end.
pub proof fn lemma_concat_push<A>(segs: Seq<Seq<A>>, s: Seq<A>)
    ensures
        concat(segs.push(s)) == concat(segs) + s,
{
    assert(segs.push(s).drop_last() =~= segs);
}

/// `a` divided by `b`, rounded up.
pub open spec fn div_ceil(a: int, b: int) -> int {
    (a + b - 1) / b
}

/// `a / b` rounded up, for unsigned 32-bit operands.
pub fn div_ceil_u32(a: u32, b: u32) -> (r: u32)
    requires
        b > 0,
    ensures
        r == div_ceil(a as int, b as int),
        r <= a,
{
    let q = a / b;
    proof {
        assert(q * b + a % b == a) by (nonlinear_arith)
            requires
                q == a / b,
                b > 0,
        ;
        assert(a % b < b) by (nonlinear_arith)
            requires
                b > 0,
        ;
    }
    if a % b != 0 {
        assert((a + b - 1) / (b as int) == q + 1 && q + 1 <= a) by (nonlinear_arith)
            requires
                q * b + a % b == a,
                0 < a % b < b,
                b > 0,
        ;
        q + 1
    } else {
        assert((a + b - 1) / (b as int) == q && q <= a) by (nonlinear_arith)
            requires
                q * b == a,
                b > 0,
        ;
        q
    }
}

/// `a / b` rounded up, for `usize` operands.
pub fn div_ceil_usize(a: usize, b: usize) -> (r: usize)
    requires
        b > 0,
    ensures
        r == div_ceil(a as int, b as int),
        r <= a,
{
    let q = a / b;
    proof {
        assert(q * b + a % b == a) by (nonlinear_arith)
            requires
                q == a / b,
                b > 0,
        ;
        assert(a % b < b) by (nonlinear_arith)
            requires
                b > 0,
        ;
    }
    if a % b != 0 {
        assert((a + b - 1) / (b as int) == q + 1 && q + 1 <= a) by (nonlinear_arith)
            requires
                q * b + a % b == a,
                0 < a % b < b,
                b > 0,
        ;
        q + 1
    } else {
        assert((a + b - 1) / (b as int) == q && q <= a) by (nonlinear_arith)
            requires
                q * b == a,
                b > 0,
        ;
        q
    }
}

/// The pieces of `p` units that `n` units are cut into cover them.
pub proof fn lemma_pieces_cover(n: int, p: int)
    requires
        p > 0,
        n >= 0,
    ensures
        div_ceil(n, p) * p >= n,
{
    let q = div_ceil(n, p);
    vstd::arithmetic::div_mod::lemma_fundamental_div_mod(n + p - 1, p);
    assert(q * p >= n) by (nonlinear_arith)
        requires
            q == (n + p - 1) / p,
            n + p - 1 == p * ((n + p - 1) / p) + (n + p - 1) % p,
            (n + p - 1) % p < p,
    ;
}

/// Item `i` of a split into pieces of `p` starts inside the range being split.
pub proof fn lemma_piece_start(i: int, n: int, p: int)
    requires
        p > 0,
        n >= 0,
        0 <= i < div_ceil(n, p),
    ensures
        0 <= i * p < n,
{
    let q = div_ceil(n, p);
    assert(q * p <= n + p - 1) by (nonlinear_arith)
        requires
            q == (n + p - 1) / p,
            p > 0,
            n >= 0,
    ;
    assert(0 <= i * p && i * p + p <= q * p) by (nonlinear_arith)
        requires
            0 <= i,
            i + 1 <= q,
            p > 0,
    ;
}

/// Append the first `n` bytes of `src` to `dst`.
pub fn extend_prefix(dst: &mut Vec<u8>, src: &[u8], n: usize)
    requires
        n <= src@.len(),
    ensures
        final(dst)@ == old(dst)@ + src@.subrange(0, n as int),
{
    let ghost d0 = dst@;
    let mut i: usize = 0;
    while i < n
        invariant
            n <= src@.len(),
            i <= n,
            dst@ == d0 + src@.subrange(0, i as int),
        decreases n - i,
    {
        dst.push(src[i]);
        assert(src@.subrange(0, i + 1) =~= src@.subrange(0, i as int).push(src@[i as int]));
        i = i + 1;
    }
}

/// The status byte received by a one-byte status query frame sending `cmd`.
pub open spec fn polled_status(frame: Seq<BusOp>, cmd: Seq<u8>) -> u8 {
    frame[cmd.len() as int + 1]->miso
}

/// A status query (`cmd` sent, one byte received) whose answer has a bit of `mask` set.
pub open spec fn busy_frame(frame: Seq<BusOp>, cmd: Seq<u8>, mask: u8) -> bool {
    &&& query_frame(frame, cmd, seq![polled_status(frame, cmd)])
    &&& polled_status(frame, cmd) & mask != 0
}

/// A status query (`cmd` sent, one byte received) whose answer has no bit of `mask` set.
pub open spec fn ready_frame(frame: Seq<BusOp>, cmd: Seq<u8>, mask: u8) -> bool {
    &&& query_frame(frame, cmd, seq![polled_status(frame, cmd)])
    &&& polled_status(frame, cmd) & mask == 0
}

/// `ops` is a run of status queries that all found the chip busy.
pub open spec fn busy_polls(ops: Seq<BusOp>, cmd: Seq<u8>, mask: u8) -> bool
    decreases ops.len(),
{
    let n = cmd.len() as int + 3;
    if ops.len() == 0 {
        true
    } else if ops.len() < n {
        false
    } else {
        &&& busy_polls(ops.subrange(0, ops.len() - n), cmd, mask)
        &&& busy_frame(ops.subrange(ops.len() - n, ops.len() as int), cmd, mask)
    }
}

/// `ops` is a run of status queries that found the chip busy until the last
/// one, which found it ready.
pub open spec fn polls_until_ready(ops: Seq<BusOp>, cmd: Seq<u8>, mask: u8) -> bool {
    let n = cmd.len() as int + 3;
    &&& ops.len() >= n
    &&& busy_polls(ops.subrange(0, ops.len() - n), cmd, mask)
    &&& ready_frame(ops.subrange(ops.len() - n, ops.len() as int), cmd, mask)
}

/// `ops` ends with `count` status queries (`cmd` sent, one byte received)
/// that all found a bit of `mask` set: the wait for the chip gave up.
pub open spec fn timed_out(ops: Seq<BusOp>, cmd: Seq<u8>, mask: u8, count: int) -> bool {
    let m = count * (cmd.len() + 3);
    &&& 0 <= m <= ops.len()
    &&& busy_polls(ops.subrange(ops.len() - m, ops.len() as int), cmd, mask)
}

/// A wait that gave up at the end of the second of two steps gave up at the
/// end of both.
pub proof fn lemma_timed_out_suffix(
    a: Seq<BusOp>,
    b: Seq<BusOp>,
    c: Seq<BusOp>,
    cmd: Seq<u8>,
    mask: u8,
    count: int,
)
    requires
        extends(a, b),
        extends(b, c),
        timed_out(added(b, c), cmd, mask, count),
    ensures
        extends(a, c),
        timed_out(added(a, c), cmd, mask, count),
{
    lemma_added_trans(a, b, c);
    let m = count * (cmd.len() + 3);
    let x = added(a, c);
    let y = added(b, c);
    assert(x.subrange(x.len() - m, x.len() as int) =~= y.subrange(y.len() - m, y.len() as int));
}

/// Events added in two steps are the events of the first step followed by those of the second.
pub proof fn lemma_added_trans(a: Seq<BusOp>, b: Seq<BusOp>, c: Seq<BusOp>)
    requires
        extends(a, b),
        extends(b, c),
    ensures
        extends(a, c),
        added(a, c) == added(a, b) + added(b, c),
{
    assert(c.subrange(0, a.len() as int) =~= b.subrange(0, a.len() as int));
    assert(added(a, c) =~= added(a, b) + added(b, c));
}

/// Select, send `tx`, release is a command frame.
pub proof fn lemma_command_frame(
    l0: Seq<BusOp>,
    l1: Seq<BusOp>,
    l2: Seq<BusOp>,
    l3: Seq<BusOp>,
    tx: Seq<u8>,
)
    requires
        l1 == l0.push(BusOp::Select(true)),
        extends(l1, l2),
        clocked_out(added(l1, l2), tx),
        l3 == l2.push(BusOp::Select(false)),
    ensures
        extends(l0, l3),
        command_frame(added(l0, l3), tx),
{
    let a = added(l0, l3);
    assert forall|i: int| 0 <= i < l1.len() implies l3[i] == l1[i] by {
        assert(l2.subrange(0, l1.len() as int)[i] == l1[i]);
    }
    assert(l3.subrange(0, l0.len() as int) =~= l0);
    assert(a.subrange(1, tx.len() as int + 1) =~= added(l1, l2));
}

/// Select, send `t1`, send `t2`, release is a command frame sending `t1 + t2`.
pub proof fn lemma_command_frame2(
    l0: Seq<BusOp>,
    l1: Seq<BusOp>,
    l2: Seq<BusOp>,
    l3: Seq<BusOp>,
    l4: Seq<BusOp>,
    t1: Seq<u8>,
    t2: Seq<u8>,
)
    requires
        l1 == l0.push(BusOp::Select(true)),
        extends(l1, l2),
        clocked_out(added(l1, l2), t1),
        extends(l2, l3),
        clocked_out(added(l2, l3), t2),
        l4 == l3.push(BusOp::Select(false)),
    ensures
        extends(l0, l4),
        command_frame(added(l0, l4), t1 + t2),
{
    lemma_added_trans(l1, l2, l3);
    let o = added(l1, l3);
    assert forall|i: int| 0 <= i < o.len() implies (#[trigger] o[i]) is Clock && o[i]->mosi == (t1
        + t2)[i] by {
        if i < t1.len() {
            assert(o[i] == added(l1, l2)[i]);
        } else {
            assert(o[i] == added(l2, l3)[i - t1.len()]);
        }
    }
    lemma_command_frame(l0, l1, l3, l4, t1 + t2);
}

/// Select, send `tx`, receive `rx`, release is a query frame.
pub proof fn lemma_query_frame(
    l0: Seq<BusOp>,
    l1: Seq<BusOp>,
    l2: Seq<BusOp>,
    l3: Seq<BusOp>,
    l4: Seq<BusOp>,
    tx: Seq<u8>,
    rx: Seq<u8>,
)
    requires
        l1 == l0.push(BusOp::Select(true)),
        extends(l1, l2),
        clocked_out(added(l1, l2), tx),
        extends(l2, l3),
        clocked_in(added(l2, l3), rx),
        l4 == l3.push(BusOp::Select(false)),
    ensures
        extends(l0, l4),
        query_frame(added(l0, l4), tx, rx),
{
    let a = added(l0, l4);
    assert forall|i: int| 0 <= i < l1.len() implies l4[i] == l1[i] by {
        assert(l2.subrange(0, l1.len() as int)[i] == l1[i]);
        assert(l3.subrange(0, l2.len() as int)[i] == l2[i]);
    }
    assert forall|i: int| 0 <= i < l2.len() implies l4[i] == l2[i] by {
        assert(l3.subrange(0, l2.len() as int)[i] == l2[i]);
    }
    assert(l4.subrange(0, l0.len() as int) =~= l0);
    assert(a.subrange(1, tx.len() as int + 1) =~= added(l1, l2));
    assert(a.subrange(tx.len() as int + 1, tx.len() as int + rx.len() + 1) =~= added(l2, l3));
}

/// A run of busy polls followed by one more busy poll is a run of busy polls.
pub proof fn lemma_busy_polls_push(ops: Seq<BusOp>, frame: Seq<BusOp>, cmd: Seq<u8>, mask: u8)
    requires
        busy_polls(ops, cmd, mask),
        busy_frame(frame, cmd, mask),
    ensures
        busy_polls(ops + frame, cmd, mask),
{
    let all = ops + frame;
    let n = cmd.len() as int + 3;
    assert(all.subrange(0, all.len() - n) =~= ops);
    assert(all.subrange(all.len() - n, all.len() as int) =~= frame);
}

/// A run of busy polls followed by a ready poll is a run of polls until ready.
pub proof fn lemma_polls_until_ready(ops: Seq<BusOp>, frame: Seq<BusOp>, cmd: Seq<u8>, mask: u8)
    requires
        busy_polls(ops, cmd, mask),
        ready_frame(frame, cmd, mask),
    ensures
        polls_until_ready(ops + frame, cmd, mask),
{
    let all = ops + frame;
    let n = cmd.len() as int + 3;
    assert(all.subrange(0, all.len() - n) =~= ops);
    assert(all.subrange(all.len() - n, all.len() as int) =~= frame);
}

/// Piece `k` of `data` cut into pieces of `size` (the last one may be shorter).
pub open spec fn piece(data: Seq<u8>, size: int, k: int) -> Seq<u8> {
    data.subrange(k * size, vstd::math::min((k + 1) * size, data.len() as int))
}

/// `data` cut into consecutive pieces of `size` bytes, the last one shorter
/// if need be.
pub fn split_into(data: &[u8], size: usize) -> (r: Vec<Vec<u8>>)
    requires
        size > 0,
    ensures
        r@.len() == div_ceil(data@.len() as int, size as int),
        forall|k: int| 0 <= k < r@.len() ==> (#[trigger] r@[k])@ == piece(data@, size as int, k),
{
    let n = data.len();
    let mut r: Vec<Vec<u8>> = Vec::new();
    let mut start: usize = 0;
    assert(r@.len() * size == 0) by (nonlinear_arith)
        requires
            r@.len() == 0,
    ;
    while start < n
        invariant
            size > 0,
            n == data@.len(),
            start <= n,
            start == n || start == r@.len() * size,
            start <= r@.len() * size,
            r@.len() == 0 || (r@.len() - 1) * size < n,
            forall|k: int|
                0 <= k < r@.len() ==> (#[trigger] r@[k])@ == piece(data@, size as int, k),
        decreases n - start,
    {
        let ghost len0 = r@.len() as int;
        assert((len0 + 1) * size == len0 * size + size) by (nonlinear_arith);
        let end = if n - start < size {
            n
        } else {
            start + size
        };
        let part = vstd::slice::slice_subrange(data, start, end);
        let mut copy: Vec<u8> = Vec::new();
        extend_prefix(&mut copy, part, part.len());
        assert(part@.subrange(0, part@.len() as int) =~= part@);
        assert(copy@ =~= piece(data@, size as int, len0));
        r.push(copy);
        start = end;
    }
    assert(r@.len() == div_ceil(n as int, size as int)) by (nonlinear_arith)
        requires
            size > 0,
            n <= r@.len() * size,
            r@.len() == 0 || (r@.len() - 1) * size < n,
    ;
    r
}

/// The first `k` pieces of `data` cut into pieces of `size`.
pub open spec fn pieces(data: Seq<u8>, size: int, k: int) -> Seq<Seq<u8>> {
    Seq::new(k as nat, |j: int| piece(data, size, j))
}

/// The first `k` pieces, joined, are the start of the data.
proof fn lemma_pieces_prefix(data: Seq<u8>, size: int, k: int)
    requires
        size > 0,
        0 <= k <= div_ceil(data.len() as int, size),
    ensures
        concat(pieces(data, size, k)) == data.subrange(
            0,
            vstd::math::min(k * size, data.len() as int),
        ),
    decreases k,
{
    let n = data.len() as int;
    if k == 0 {
        assert(pieces(data, size, 0) =~= Seq::<Seq<u8>>::empty());
        assert(data.subrange(0, 0) =~= Seq::<u8>::empty());
    } else {
        let i = k - 1;
        lemma_pieces_prefix(data, size, i);
        lemma_piece_start(i, n, size);
        assert(pieces(data, size, k).drop_last() =~= pieces(data, size, i));
        assert(k * size == i * size + size) by (nonlinear_arith)
            requires
                k == i + 1,
        ;
        assert(concat(pieces(data, size, k)) =~= data.subrange(
            0,
            vstd::math::min(k * size, n),
        ));
    }
}

/// Cutting data into pieces and joining the pieces gives back the data.
pub proof fn lemma_pieces_concat(data: Seq<u8>, size: int)
    requires
        size > 0,
    ensures
        concat(pieces(data, size, div_ceil(data.len() as int, size))) == data,
{
    let n = data.len() as int;
    let q = div_ceil(n, size);
    assert(q * size >= n && q >= 0) by (nonlinear_arith)
        requires
            q == (n + size - 1) / size,
            size > 0,
            n >= 0,
    ;
    lemma_pieces_prefix(data, size, q);
    assert(data.subrange(0, n) =~= data);
}

} // verus!
