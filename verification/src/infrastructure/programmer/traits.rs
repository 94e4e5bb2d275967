//! Programmer interface: the operations a hardware (or simulated) programmer
//! offers to the flash protocols, and the bus model in which they are specified.
//!
//! Every programmer keeps, as ghost state, the log of what it did on its buses
//! (`Programmer::log`). Each operation appends to that log, and the protocol
//! implementations state their behaviour as the bus traffic they add to it.

use vstd::prelude::*;

use crate::error::{Error, Result};
use crate::infrastructure::programmer::frames::lemma_added_trans;

verus! {

/// Default bulk transfer chunk size (32KB for optimal USB throughput)
pub const DEFAULT_BULK_CHUNK_SIZE: usize = 32768;

/// One event on a programmer's buses.
pub enum BusOp {
    /// The SPI chip-select line was driven: `true` selects the chip, `false` releases it.
    Select(bool),
    /// One SPI byte was clocked: `mosi` was sent while `miso` was received.
    Clock { mosi: u8, miso: u8 },
    /// An I2C write of `data` to the device at address `addr`.
    I2cWrite { addr: u8, data: Seq<u8> },
    /// An I2C read that returned `data` from the device at address `addr`.
    I2cRead { addr: u8, data: Seq<u8> },
    /// A GPIO output pin was driven to `level`.
    GpioSet { pin: u8, level: bool },
    /// A GPIO input pin was sampled at `level`.
    GpioGet { pin: u8, level: bool },
    /// The programmer could not carry out the operation it was asked for
    /// (the link to the device failed, or the device answered wrongly).
    Fault,
}

/// The events added since `old` end with a fault: the operation that ended
/// there failed.
pub open spec fn faulted(old: Seq<BusOp>, new: Seq<BusOp>) -> bool {
    old.len() < new.len() && new.last() == BusOp::Fault
}

/// What a transfer leaves in a receive buffer of length `rx.len()` when the
/// device answers `response`: the answered bytes, then what was there before.
pub open spec fn answered(rx: Seq<u8>, response: Seq<u8>) -> Seq<u8> {
    Seq::new(rx.len(), |i: int| if i < response.len() { response[i] } else { rx[i] })
}

/// `n` bytes 0xFF: the answer of an idle bus.
pub open spec fn idle_bytes(n: nat) -> Seq<u8> {
    Seq::new(n, |i: int| 0xFFu8)
}

/// `new` is `old` with events added at its end.
pub open spec fn extends(old: Seq<BusOp>, new: Seq<BusOp>) -> bool {
    old.len() <= new.len() && new.subrange(0, old.len() as int) =~= old
}

/// The events of `new` that follow the prefix `old`.
pub open spec fn added(old: Seq<BusOp>, new: Seq<BusOp>) -> Seq<BusOp> {
    new.subrange(old.len() as int, new.len() as int)
}

/// The clock events of a full-duplex transfer of `tx` answered by `rx`.
pub open spec fn clocks(tx: Seq<u8>, rx: Seq<u8>) -> Seq<BusOp> {
    Seq::new(tx.len(), |i: int| BusOp::Clock { mosi: tx[i], miso: rx[i] })
}

/// `ops` are clock events that sent exactly the bytes `tx`.
pub open spec fn clocked_out(ops: Seq<BusOp>, tx: Seq<u8>) -> bool {
    &&& ops.len() == tx.len()
    &&& forall|i: int| 0 <= i < ops.len() ==> (#[trigger] ops[i]) is Clock && ops[i]->mosi == tx[i]
}

/// `ops` are clock events that received exactly the bytes `rx`.
pub open spec fn clocked_in(ops: Seq<BusOp>, rx: Seq<u8>) -> bool {
    &&& ops.len() == rx.len()
    &&& forall|i: int| 0 <= i < ops.len() ==> (#[trigger] ops[i]) is Clock && ops[i]->miso == rx[i]
}

/// A chip-select frame that only sends `tx`: select, the bytes of `tx`, release.
pub open spec fn command_frame(ops: Seq<BusOp>, tx: Seq<u8>) -> bool {
    let n = tx.len() as int;
    &&& ops.len() == n + 2
    &&& ops[0] == BusOp::Select(true)
    &&& clocked_out(ops.subrange(1, n + 1), tx)
    &&& ops[n + 1] == BusOp::Select(false)
}

/// A chip-select frame that sends `tx` and then receives `rx`.
pub open spec fn query_frame(ops: Seq<BusOp>, tx: Seq<u8>, rx: Seq<u8>) -> bool {
    let n = tx.len() as int;
    let m = rx.len() as int;
    &&& ops.len() == n + m + 2
    &&& ops[0] == BusOp::Select(true)
    &&& clocked_out(ops.subrange(1, n + 1), tx)
    &&& clocked_in(ops.subrange(n + 1, n + m + 1), rx)
    &&& ops[n + m + 1] == BusOp::Select(false)
}

/// The interface of a hardware programmer, as seen by the flash protocols.
///
/// Implementations keep `log` as the record of their bus traffic. An
/// operation that fails ends what it added with `BusOp::Fault`, unless the
/// programmer does not offer it at all (`NotSupported`, nothing added); no
/// operation removes events.
pub trait Programmer {
    /// The bus traffic of this programmer so far, oldest first.
    spec fn log(&self) -> Seq<BusOp>;

    /// What the implementation keeps true of its own state between operations.
    spec fn wf(&self) -> bool;

    /// The programmer offers I2C transfers; without them, `i2c_write` and
    /// `i2c_read` answer `NotSupported`.
    spec fn has_i2c() -> bool;

    /// The programmer offers GPIO pins; without them, `gpio_set` and
    /// `gpio_get` answer `NotSupported`.
    spec fn has_gpio() -> bool;

    /// The receive-buffer lengths that `spi_transfer` accepts beside `tx_len`
    /// bytes to send.
    spec fn accepts_rx(&self, tx_len: nat, rx_len: nat) -> bool;

    /// Every programmer accepts a receive buffer as long as what it sends.
    proof fn lemma_accepts_equal(&self, n: nat)
        ensures
            self.accepts_rx(n, n),
    ;

    /// The largest transfer this programmer handles in one go
    /// (`max_bulk_transfer_size`).
    spec fn bulk_limit(&self) -> nat;

    /// Get the identification name of the programmer
    fn name(&self) -> &str;

    /// Execute a standard SPI transfer (bidirectional): `tx[i]` is sent while `rx[i]` is received.
    fn spi_transfer(&mut self, tx: &[u8], rx: &mut [u8]) -> (r: Result<()>)
        requires
            old(self).wf(),
            old(self).accepts_rx(tx@.len(), old(rx)@.len()),
        ensures
            final(self).wf(),
            final(rx)@.len() == old(rx)@.len(),
            extends(old(self).log(), final(self).log()),
            r is Ok && old(rx)@.len() == tx@.len() ==> final(self).log() == old(self).log() + clocks(
                tx@,
                final(rx)@,
            ),
            r is Err ==> faulted(old(self).log(), final(self).log()),
    ;

    /// Simple SPI write: sends `data`, discarding what is received.
    fn spi_write(&mut self, data: &[u8]) -> (r: Result<()>)
        requires
            old(self).wf(),
        ensures
            final(self).wf(),
            extends(old(self).log(), final(self).log()),
            r is Ok ==> clocked_out(added(old(self).log(), final(self).log()), data@),
            r is Err ==> faulted(old(self).log(), final(self).log()),
    {
        let mut sink: Vec<u8> = vec![0u8; data.len()];
        proof {
            self.lemma_accepts_equal(data@.len());
        }
        let r = self.spi_transfer(data, sink.as_mut_slice());
        proof {
            if r is Ok {
                assert(added(old(self).log(), self.log()) =~= clocks(data@, sink@));
            }
        }
        r
    }

    /// Simple SPI read: clocks out `len` filler bytes (0xFF) and returns what was received.
    fn spi_read(&mut self, len: usize) -> (r: Result<Vec<u8>>)
        requires
            old(self).wf(),
        ensures
            final(self).wf(),
            extends(old(self).log(), final(self).log()),
            r is Ok ==> r->Ok_0@.len() == len && added(old(self).log(), final(self).log()) == clocks(
                idle_bytes(len as nat),
                r->Ok_0@,
            ),
            r is Err ==> faulted(old(self).log(), final(self).log()),
    {
        let tx: Vec<u8> = vec![0xFFu8; len];
        let mut rx: Vec<u8> = vec![0u8; len];
        proof {
            self.lemma_accepts_equal(len as nat);
        }
        let r = self.spi_transfer(tx.as_slice(), rx.as_mut_slice());
        match r {
            Ok(()) => {
                assert(tx@ =~= idle_bytes(len as nat));
                assert(added(old(self).log(), self.log()) =~= clocks(tx@, rx@));
                Ok(rx)
            },
            Err(e) => Err(e),
        }
    }

    /// Control the Chip Select (CS) line: `true` selects the chip.
    fn set_cs(&mut self, active: bool) -> (r: Result<()>)
        requires
            old(self).wf(),
        ensures
            final(self).wf(),
            extends(old(self).log(), final(self).log()),
            r is Ok ==> final(self).log() == old(self).log().push(BusOp::Select(active)),
            r is Err ==> faulted(old(self).log(), final(self).log()),
    ;

    /// Bulk SPI read optimized for large data transfers.
    ///
    /// Default implementation falls back to regular `spi_read`.
    fn spi_read_bulk(&mut self, len: usize) -> (r: Result<Vec<u8>>)
        requires
            old(self).wf(),
        ensures
            final(self).wf(),
            extends(old(self).log(), final(self).log()),
            r is Ok ==> clocked_in(added(old(self).log(), final(self).log()), r->Ok_0@),
            r is Err ==> faulted(old(self).log(), final(self).log()),
        default_ensures
            r is Ok ==> r->Ok_0@.len() == len && added(old(self).log(), final(self).log()) == clocks(
                idle_bytes(len as nat),
                r->Ok_0@,
            ),
    {
        self.spi_read(len)
    }

    /// A complete SPI transaction with embedded CS control: select, send `tx`,
    /// receive `rx_len` bytes, release.
    fn spi_transaction(&mut self, tx: &[u8], rx_len: usize) -> (r: Result<Vec<u8>>)
        requires
            old(self).wf(),
        ensures
            final(self).wf(),
            extends(old(self).log(), final(self).log()),
            r is Ok ==> r->Ok_0@.len() == rx_len
                && query_frame(added(old(self).log(), final(self).log()), tx@, r->Ok_0@),
            r is Err ==> faulted(old(self).log(), final(self).log()),
        default_ensures
            r is Ok ==> clocked_out(
                added(old(self).log(), final(self).log()).subrange(
                    tx@.len() + 1int,
                    tx@.len() + rx_len + 1,
                ),
                idle_bytes(rx_len as nat),
            ),
    {
        let ghost l0 = self.log();
        self.set_cs(true)?;
        let ghost l1 = self.log();
        self.spi_write(tx)?;
        let ghost l2 = self.log();
        let rx = self.spi_read(rx_len)?;
        let ghost l3 = self.log();
        self.set_cs(false)?;
        proof {
            lemma_added_trans(l0, l1, l2);
            lemma_added_trans(l0, l2, l3);
            lemma_added_trans(l0, l3, self.log());
            let a = added(l0, self.log());
            assert(a =~= added(l0, l1) + added(l1, l2) + added(l2, l3) + added(l3, self.log()));
            assert(a.subrange(1, tx@.len() as int + 1) =~= added(l1, l2));
            assert(a.subrange(tx@.len() as int + 1, tx@.len() + rx@.len() + 1int) =~= added(l2, l3));
            assert(a[0] == l1[l0.len() as int]);
            let part = a.subrange(tx@.len() as int + 1, tx@.len() + rx_len + 1int);
            assert(part =~= clocks(idle_bytes(rx_len as nat), rx@));
        }
        Ok(rx)
    }

    /// A write-only SPI transaction with embedded CS control: select, send `tx`, release.
    fn spi_transaction_write(&mut self, tx: &[u8]) -> (r: Result<()>)
        requires
            old(self).wf(),
        ensures
            final(self).wf(),
            extends(old(self).log(), final(self).log()),
            r is Ok ==> command_frame(added(old(self).log(), final(self).log()), tx@),
            r is Err ==> faulted(old(self).log(), final(self).log()),
    {
        let ghost l0 = self.log();
        self.set_cs(true)?;
        let ghost l1 = self.log();
        self.spi_write(tx)?;
        let ghost l2 = self.log();
        self.set_cs(false)?;
        proof {
            let a = added(l0, self.log());
            assert(a.subrange(1, tx@.len() as int + 1) =~= added(l1, l2));
            assert(a[0] == l1[l0.len() as int]);
        }
        Ok(())
    }

    /// The largest transfer the programmer handles in one go; never zero.
    fn max_bulk_transfer_size(&self) -> (n: usize)
        requires
            self.wf(),
        ensures
            n > 0,
            n == self.bulk_limit(),
    ;

    /// Set SPI clock speed (if supported by the programmer); no bus traffic.
    fn set_speed(&mut self, speed: u8) -> (r: Result<()>)
        requires
            old(self).wf(),
        ensures
            final(self).wf(),
            extends(old(self).log(), final(self).log()),
            r is Ok ==> final(self).log() == old(self).log(),
            r is Err ==> faulted(old(self).log(), final(self).log()),
        default_ensures
            r is Ok,
            final(self).log() == old(self).log(),
    {
        Ok(())
    }

    /// Write `data` to the I2C device at `addr`.
    fn i2c_write(&mut self, addr: u8, data: &[u8]) -> (r: Result<()>)
        requires
            old(self).wf(),
        ensures
            final(self).wf(),
            extends(old(self).log(), final(self).log()),
            r is Ok ==> final(self).log() == old(self).log().push(
                BusOp::I2cWrite { addr, data: data@ },
            ),
            r is Err ==> faulted(old(self).log(), final(self).log()) || (r matches Err(
                Error::NotSupported(_),
            ) && !Self::has_i2c() && final(self).log() == old(self).log()),
            !Self::has_i2c() ==> (r matches Err(Error::NotSupported(_)) && final(self).log() == old(
                self,
            ).log()),
    ;

    /// Read `len` bytes from the I2C device at `addr`.
    fn i2c_read(&mut self, addr: u8, len: usize) -> (r: Result<Vec<u8>>)
        requires
            old(self).wf(),
        ensures
            final(self).wf(),
            extends(old(self).log(), final(self).log()),
            r is Ok ==> r->Ok_0@.len() == len && final(self).log() == old(self).log().push(
                BusOp::I2cRead { addr, data: r->Ok_0@ },
            ),
            r is Err ==> faulted(old(self).log(), final(self).log()) || (r matches Err(
                Error::NotSupported(_),
            ) && !Self::has_i2c() && final(self).log() == old(self).log()),
            !Self::has_i2c() ==> (r matches Err(Error::NotSupported(_)) && final(self).log() == old(
                self,
            ).log()),
    ;

    /// Drive GPIO output `pin` to `level`.
    fn gpio_set(&mut self, pin: u8, level: bool) -> (r: Result<()>)
        requires
            old(self).wf(),
        ensures
            final(self).wf(),
            extends(old(self).log(), final(self).log()),
            r is Ok ==> final(self).log() == old(self).log().push(BusOp::GpioSet { pin, level }),
            r is Err ==> faulted(old(self).log(), final(self).log()) || (r matches Err(
                Error::NotSupported(_),
            ) && !Self::has_gpio() && final(self).log() == old(self).log()),
            !Self::has_gpio() ==> (r matches Err(Error::NotSupported(_)) && final(self).log() == old(
                self,
            ).log()),
    ;

    /// Sample GPIO input `pin`.
    fn gpio_get(&mut self, pin: u8) -> (r: Result<bool>)
        requires
            old(self).wf(),
        ensures
            final(self).wf(),
            extends(old(self).log(), final(self).log()),
            r is Ok ==> final(self).log() == old(self).log().push(
                BusOp::GpioGet { pin, level: r->Ok_0 },
            ),
            r is Err ==> faulted(old(self).log(), final(self).log()) || (r matches Err(
                Error::NotSupported(_),
            ) && !Self::has_gpio() && final(self).log() == old(self).log()),
            !Self::has_gpio() ==> (r matches Err(Error::NotSupported(_)) && final(self).log() == old(
                self,
            ).log()),
    ;

    /// Wait for about `micros` microseconds between polls of a busy chip; no bus traffic.
    ///
    /// The default returns at once, which suits programmers whose chips answer
    /// without delay; hardware programmers wait for the given time.
    fn delay_us(&mut self, micros: u32)
        requires
            old(self).wf(),
        ensures
            final(self).wf(),
            final(self).log() == old(self).log(),
    {
    }
}

} // verus!
