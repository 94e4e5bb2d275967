//! Core value types: capacities, addresses, JEDEC identifiers, flash kinds, progress.

use vstd::prelude::*;

verus! {

/// Number of bytes in a mebibyte.
pub const BYTES_PER_MEGABYTE: u32 = 1048576;

/// Storage capacity of a chip, in bytes.
#[derive(Debug, Clone, Copy, PartialEq, Eq)]
pub struct Capacity(pub u32);

impl Capacity {
    /// A capacity of `n` bytes.
    pub fn bytes(n: u32) -> (c: Capacity)
        ensures
            c.0 == n,
    {
        Capacity(n)
    }

    /// A capacity of `n` mebibytes.
    pub fn megabytes(n: u32) -> (c: Capacity)
        requires
            n * BYTES_PER_MEGABYTE <= u32::MAX,
        ensures
            c.0 == n * BYTES_PER_MEGABYTE,
    {
        Capacity(n * BYTES_PER_MEGABYTE)
    }

    /// The capacity in bytes.
    pub fn as_bytes(&self) -> (b: u32)
        ensures
            b == self.0,
    {
        self.0
    }

    /// The capacity in whole mebibytes (rounded down).
    pub fn as_megabytes(&self) -> (m: u32)
        ensures
            m == self.0 / BYTES_PER_MEGABYTE,
    {
        self.0 / BYTES_PER_MEGABYTE
    }
}

/// JEDEC identification bytes: manufacturer, memory type, density.
#[derive(Debug, Clone, Copy, PartialEq, Eq)]
pub struct JedecId(pub [u8; 3]);

impl JedecId {
    /// An identifier made of the three bytes answered to the READ ID command.
    pub fn new(bytes: [u8; 3]) -> (id: JedecId)
        ensures
            id.0@ == bytes@,
    {
        JedecId(bytes)
    }
}

/// Kind of memory chip, which selects the protocol used to talk to it.
#[derive(Debug, Clone, Copy, PartialEq, Eq)]
pub enum FlashType {
    Nand,
    Nor,
    SpiEeprom,
    I2cEeprom,
    MicrowireEeprom,
}

/// A byte address inside a chip.
#[derive(Debug, Clone, Copy, PartialEq, Eq)]
pub struct Address(pub u32);

impl Address {
    /// The address `a`.
    pub fn new(a: u32) -> (r: Address)
        ensures
            r.0 == a,
    {
        Address(a)
    }

    /// The address as a plain integer.
    pub fn as_u32(&self) -> (a: u32)
        ensures
            a == self.0,
    {
        self.0
    }
}

/// Progress of a long operation: `current` units done out of `total`.
#[derive(Debug, Clone, Copy, PartialEq, Eq)]
pub struct Progress {
    pub current: u64,
    pub total: u64,
}

impl Progress {
    /// Progress at `current` out of `total`.
    pub fn new(current: u64, total: u64) -> (p: Progress)
        ensures
            p.current == current,
            p.total == total,
    {
        Progress { current, total }
    }
}

/// The reports of an operation that advances in steps of `step` units, from
/// `done` units on, up to `total`: after each step, the units done so far.
pub open spec fn step_reports(done: nat, total: nat, step: nat) -> Seq<Progress>
    decreases total - done,
{
    if done >= total || step == 0 {
        Seq::empty()
    } else {
        let next: nat = if done + step < total {
            done + step
        } else {
            total
        };
        seq![Progress { current: next as u64, total: total as u64 }] + step_reports(next, total, step)
    }
}

/// Handing `p` on, where `p` starts what was left to report, leaves the rest.
pub proof fn lemma_report_next(reports: Seq<Progress>, p: Progress, left: Seq<Progress>, rest: Seq<Progress>)
    requires
        left == seq![p] + rest,
    ensures
        reports.push(p) + rest == reports + left,
{
    assert(reports.push(p) + rest =~= reports + left);
}

/// One step of `step_reports`.
pub proof fn lemma_step_reports_next(done: nat, total: nat, step: nat, next: nat)
    requires
        done < total,
        step > 0,
        next == if done + step < total {
            done + step
        } else {
            total
        },
    ensures
        step_reports(done, total, step) == seq![Progress { current: next as u64, total: total as u64 }]
            + step_reports(next, total, step),
{
}

/// The reports `1/total, 2/total, ..., total/total` of an operation done in
/// `total` equal steps.
pub open spec fn count_reports(total: nat) -> Seq<Progress> {
    Seq::new(total, |i: int| Progress { current: (i + 1) as u64, total: total as u64 })
}

/// The bytes written in one go at `addr` when `remaining` are left, in pages
/// of `page_size`: up to the end of the page.
pub open spec fn page_piece(addr: int, remaining: int, page_size: int) -> int {
    vstd::math::min(page_size - addr % page_size, remaining)
}

/// The reports of a write of `total` bytes at `addr` in pages of
/// `page_size`, from `done` bytes on: after each page piece, the bytes
/// written so far.
pub open spec fn page_reports(addr: int, page_size: int, done: nat, total: nat) -> Seq<Progress>
    decreases total - done,
{
    if done >= total {
        Seq::empty()
    } else {
        let next = done + page_piece(addr + done, total - done, page_size);
        if next <= done {
            Seq::empty()
        } else {
            seq![Progress { current: next as u64, total: total as u64 }] + page_reports(
                addr,
                page_size,
                next as nat,
                total,
            )
        }
    }
}

/// One step of `page_reports`.
pub proof fn lemma_page_reports_next(addr: int, page_size: int, done: nat, total: nat, next: nat)
    requires
        done < total,
        page_size > 0,
        next == done + page_piece(addr + done, total - done, page_size),
    ensures
        page_reports(addr, page_size, done, total) == seq![
            Progress { current: next as u64, total: total as u64 },
        ] + page_reports(addr, page_size, next, total),
{
}

/// Hands `p` to `on_progress` and adds it to `reports`, the record of what
/// was handed to it.
pub(crate) fn report<F: Fn(Progress)>(on_progress: &F, p: Progress, reports: &mut Ghost<Seq<Progress>>)
    requires
        on_progress.requires((p,)),
    ensures
        final(reports)@ == old(reports)@.push(p),
{
    on_progress(p);
    *reports = Ghost(reports@.push(p));
}

} // verus!
