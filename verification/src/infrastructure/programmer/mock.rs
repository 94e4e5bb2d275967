//! Mock Programmer for testing
//!
//! A programmer that records all operations and answers SPI transfers with
//! pre-configured responses, so that flash protocols can be exercised without
//! hardware.

use vstd::prelude::*;

use std::collections::VecDeque;

use crate::error::{Error, Result};
use crate::infrastructure::programmer::traits::{
    added, answered, clocks, idle_bytes, BusOp, Programmer,
};

verus! {

/// Record of a single SPI transaction
#[derive(Debug, Clone)]
pub enum Transaction {
    CsActive(bool),
    Write(Vec<u8>),
    Read { len: usize, data: Vec<u8> },
    Transfer { tx: Vec<u8>, rx: Vec<u8> },
}

/// A mock programmer that records all operations and returns pre-configured responses
pub struct MockProgrammer {
    /// Name of this mock programmer
    name: String,
    /// Current CS state
    cs_active: bool,
    /// Recorded SPI write data
    write_log: Vec<Vec<u8>>,
    /// Pre-configured read responses (FIFO queue)
    read_responses: VecDeque<Vec<u8>>,
    /// Transaction log for debugging
    transaction_log: Vec<Transaction>,
    /// Bus traffic so far
    bus_log: Ghost<Seq<BusOp>>,
}

/// Copy of a byte vector.
fn copy_vec(v: &Vec<u8>) -> (r: Vec<u8>)
    ensures
        r@ == v@,
{
    vstd::slice::slice_to_vec(v.as_slice())
}

impl MockProgrammer {
    /// The queued responses, next one first.
    pub closed spec fn pending(&self) -> Seq<Seq<u8>> {
        self.read_responses@.map_values(|v: Vec<u8>| v@)
    }

    /// The data of every SPI transfer so far, oldest first.
    pub closed spec fn writes(&self) -> Seq<Seq<u8>> {
        self.write_log@.map_values(|v: Vec<u8>| v@)
    }

    /// Whether chip select is asserted.
    pub closed spec fn selected(&self) -> bool {
        self.cs_active
    }

    /// Number of entries in the transaction log.
    pub closed spec fn transaction_count(&self) -> nat {
        self.transaction_log@.len()
    }

    /// The name given to the mock.
    pub closed spec fn given_name(&self) -> Seq<char> {
        self.name@
    }

    /// Create a new mock programmer
    pub fn new() -> (m: Self)
        ensures
            m.pending() == Seq::<Seq<u8>>::empty(),
            m.writes() == Seq::<Seq<u8>>::empty(),
            !m.selected(),
            m.transaction_count() == 0,
            m.log() == Seq::<BusOp>::empty(),
            m.wf(),
    {
        let m = Self {
            name: "MockProgrammer".to_string(),
            cs_active: false,
            write_log: Vec::new(),
            read_responses: VecDeque::new(),
            transaction_log: Vec::new(),
            bus_log: Ghost(Seq::empty()),
        };
        assert(m.pending() =~= Seq::<Seq<u8>>::empty());
        assert(m.writes() =~= Seq::<Seq<u8>>::empty());
        m
    }

    /// Set the name of this mock programmer
    pub fn with_name(self, name: &str) -> (m: Self)
        ensures
            m.given_name() == name@,
            m.pending() == self.pending(),
            m.writes() == self.writes(),
            m.selected() == self.selected(),
            m.log() == self.log(),
            m.wf(),
    {
        let mut m = self;
        m.name = name.to_owned();
        m
    }

    /// Add a read response to the queue
    /// Responses are returned in FIFO order
    pub fn expect_read(&mut self, data: Vec<u8>)
        ensures
            final(self).pending() == old(self).pending().push(data@),
            final(self).writes() == old(self).writes(),
            final(self).selected() == old(self).selected(),
            final(self).log() == old(self).log(),
            final(self).wf(),
    {
        self.read_responses.push_back(data);
        assert(self.pending() =~= old(self).pending().push(data@));
    }

    /// Add multiple read responses
    pub fn expect_reads(&mut self, responses: Vec<Vec<u8>>)
        ensures
            final(self).pending() == old(self).pending() + responses@.map_values(|v: Vec<u8>| v@),
            final(self).writes() == old(self).writes(),
            final(self).selected() == old(self).selected(),
            final(self).log() == old(self).log(),
            final(self).wf(),
    {
        let mut i: usize = 0;
        while i < responses.len()
            invariant
                i <= responses@.len(),
                self.pending() == old(self).pending() + responses@.subrange(0, i as int).map_values(
                    |v: Vec<u8>| v@,
                ),
                self.writes() == old(self).writes(),
                self.selected() == old(self).selected(),
                self.log() == old(self).log(),
            decreases responses@.len() - i,
        {
            let data = copy_vec(&responses[i]);
            self.expect_read(data);
            assert(responses@.subrange(0, i + 1).map_values(|v: Vec<u8>| v@) =~= responses@.subrange(
                0,
                i as int,
            ).map_values(|v: Vec<u8>| v@).push(responses@[i as int]@));
            i = i + 1;
        }
        assert(responses@.subrange(0, responses@.len() as int) =~= responses@);
    }

    /// Get all recorded write operations
    pub fn get_writes(&self) -> (w: Vec<Vec<u8>>)
        ensures
            w@.map_values(|v: Vec<u8>| v@) == self.writes(),
    {
        let mut w: Vec<Vec<u8>> = Vec::new();
        let mut i: usize = 0;
        while i < self.write_log.len()
            invariant
                i <= self.write_log@.len(),
                w@.map_values(|v: Vec<u8>| v@) == self.write_log@.subrange(0, i as int).map_values(
                    |v: Vec<u8>| v@,
                ),
            decreases self.write_log@.len() - i,
        {
            w.push(copy_vec(&self.write_log[i]));
            assert(self.write_log@.subrange(0, i + 1).map_values(|v: Vec<u8>| v@) =~= self.write_log@.subrange(
                0,
                i as int,
            ).map_values(|v: Vec<u8>| v@).push(self.write_log@[i as int]@));
            assert(w@.map_values(|v: Vec<u8>| v@) =~= w@.drop_last().map_values(|v: Vec<u8>| v@).push(
                w@.last()@,
            ));
            i = i + 1;
        }
        assert(self.write_log@.subrange(0, self.write_log@.len() as int) =~= self.write_log@);
        w
    }

    /// Get the transaction log
    pub fn get_transactions(&self) -> (t: Vec<Transaction>)
        ensures
            t@.len() == self.transaction_count(),
    {
        self.transaction_log.clone()
    }

    /// Check if CS is currently active
    pub fn is_cs_active(&self) -> (b: bool)
        ensures
            b == self.selected(),
    {
        self.cs_active
    }

    /// Clear all logs and responses
    pub fn reset(&mut self)
        ensures
            final(self).pending() == Seq::<Seq<u8>>::empty(),
            final(self).writes() == Seq::<Seq<u8>>::empty(),
            !final(self).selected(),
            final(self).transaction_count() == 0,
            final(self).log() == old(self).log(),
            final(self).wf(),
    {
        self.write_log.clear();
        self.read_responses.clear();
        self.transaction_log.clear();
        self.cs_active = false;
        assert(self.pending() =~= Seq::<Seq<u8>>::empty());
        assert(self.writes() =~= Seq::<Seq<u8>>::empty());
    }

    /// Take the next queued response, or `default_len` bytes 0xFF when none is queued.
    fn next_response(&mut self, default_len: usize) -> (r: Vec<u8>)
        ensures
            old(self).pending().len() > 0 ==> r@ == old(self).pending()[0]
                && final(self).pending() == old(self).pending().drop_first(),
            old(self).pending().len() == 0 ==> r@ == idle_bytes(default_len as nat)
                && final(self).pending() == old(self).pending(),
            final(self).writes() == old(self).writes(),
            final(self).selected() == old(self).selected(),
            final(self).transaction_count() == old(self).transaction_count(),
            final(self).log() == old(self).log(),
    {
        match self.read_responses.pop_front() {
            Some(r) => {
                assert(self.pending() =~= old(self).pending().drop_first());
                r
            },
            None => {
                let r = vec![0xFFu8; default_len];
                assert(r@ =~= idle_bytes(default_len as nat));
                r
            },
        }
    }
}

impl Default for MockProgrammer {
    fn default() -> (m: Self)
        ensures
            m.pending() == Seq::<Seq<u8>>::empty(),
            m.writes() == Seq::<Seq<u8>>::empty(),
            !m.selected(),
            m.log() == Seq::<BusOp>::empty(),
            m.wf(),
    {
        Self::new()
    }
}

impl Programmer for MockProgrammer {
    closed spec fn log(&self) -> Seq<BusOp> {
        self.bus_log@
    }

    closed spec fn wf(&self) -> bool {
        true
    }

    /// Transfers take a receive buffer of any length: the next queued
    /// response fills it as far as both reach.
    open spec fn accepts_rx(&self, tx_len: nat, rx_len: nat) -> bool {
        true
    }

    proof fn lemma_accepts_equal(&self, n: nat) {
        assert(self.accepts_rx(n, n) == (n == n));
    }

    open spec fn bulk_limit(&self) -> nat {
        4096
    }

    open spec fn has_i2c() -> bool {
        false
    }

    open spec fn has_gpio() -> bool {
        false
    }

    /// No I2C on this programmer.
    fn i2c_write(&mut self, addr: u8, data: &[u8]) -> (r: Result<()>) {
        Err(Error::NotSupported("I2C is not supported by this programmer".to_string()))
    }

    /// No I2C on this programmer.
    fn i2c_read(&mut self, addr: u8, len: usize) -> (r: Result<Vec<u8>>) {
        Err(Error::NotSupported("I2C is not supported by this programmer".to_string()))
    }

    /// No GPIO on this programmer.
    fn gpio_set(&mut self, pin: u8, level: bool) -> (r: Result<()>) {
        Err(Error::NotSupported("GPIO is not supported by this programmer".to_string()))
    }

    /// No GPIO on this programmer.
    fn gpio_get(&mut self, pin: u8) -> (r: Result<bool>) {
        Err(Error::NotSupported("GPIO is not supported by this programmer".to_string()))
    }

    fn name(&self) -> (n: &str)
        ensures
            n@ == self.given_name(),
    {
        self.name.as_str()
    }

    fn spi_transfer(&mut self, tx: &[u8], rx: &mut [u8]) -> (r: Result<()>)
        ensures
            r is Ok,
            final(self).writes() == old(self).writes().push(tx@),
            final(self).selected() == old(self).selected(),
            old(self).pending().len() > 0 ==> final(rx)@ == answered(old(rx)@, old(self).pending()[0])
                && final(self).pending() == old(self).pending().drop_first(),
            old(self).pending().len() == 0 ==> final(rx)@ == idle_bytes(old(rx)@.len())
                && final(self).pending() == old(self).pending(),
    {
        // Log the write
        self.write_log.push(vstd::slice::slice_to_vec(tx));
        assert(self.writes() =~= old(self).writes().push(tx@));
        let ghost w = self.writes();

        // Get pre-configured response or return 0xFF
        let response = self.next_response(rx.len());

        // Copy response to rx buffer
        let copy_len = if rx.len() < response.len() {
            rx.len()
        } else {
            response.len()
        };
        let ghost rx0 = rx@;
        let mut i: usize = 0;
        while i < copy_len
            invariant
                copy_len <= rx@.len(),
                copy_len <= response@.len(),
                rx@.len() == rx0.len(),
                i <= copy_len,
                forall|j: int| 0 <= j < i ==> rx@[j] == response@[j],
                forall|j: int| i <= j < rx@.len() ==> rx@[j] == rx0[j],
            decreases copy_len - i,
        {
            rx[i] = response[i];
            i = i + 1;
        }
        assert(rx@ =~= answered(rx0, response@));
        proof {
            if old(self).pending().len() == 0 {
                assert(rx@ =~= idle_bytes(rx0.len()));
            }
        }

        // Log transaction
        self.transaction_log.push(
            Transaction::Transfer { tx: vstd::slice::slice_to_vec(tx), rx: vstd::slice::slice_to_vec(rx) },
        );
        proof {
            self.bus_log@ = self.bus_log@ + clocks(tx@, rx@);
        }
        Ok(())
    }

    fn set_cs(&mut self, active: bool) -> (r: Result<()>)
        ensures
            r is Ok,
            final(self).selected() == active,
            final(self).pending() == old(self).pending(),
            final(self).writes() == old(self).writes(),
    {
        self.cs_active = active;
        self.transaction_log.push(Transaction::CsActive(active));
        proof {
            self.bus_log@ = self.bus_log@.push(BusOp::Select(active));
        }
        Ok(())
    }

    /// Clocks out `len` bytes 0xFF into a zeroed buffer: the next queued
    /// response fills its start, or the idle bus answers 0xFF.
    fn spi_read(&mut self, len: usize) -> (r: Result<Vec<u8>>)
        ensures
            r is Ok,
            old(self).pending().len() > 0 ==> r->Ok_0@ == answered(
                Seq::new(len as nat, |i: int| 0u8),
                old(self).pending()[0],
            ) && final(self).pending() == old(self).pending().drop_first(),
            old(self).pending().len() == 0 ==> r->Ok_0@ == idle_bytes(len as nat)
                && final(self).pending() == old(self).pending(),
            final(self).writes() == old(self).writes().push(idle_bytes(len as nat)),
            final(self).selected() == old(self).selected(),
    {
        let tx: Vec<u8> = vec![0xFFu8; len];
        let mut rx: Vec<u8> = vec![0u8; len];
        assert(rx@ =~= Seq::new(len as nat, |i: int| 0u8));
        assert(tx@ =~= idle_bytes(len as nat));
        let r = self.spi_transfer(tx.as_slice(), rx.as_mut_slice());
        match r {
            Ok(()) => {
                assert(added(old(self).log(), self.log()) =~= clocks(tx@, rx@));
                Ok(rx)
            },
            Err(e) => Err(e),
        }
    }

    fn spi_read_bulk(&mut self, len: usize) -> (r: Result<Vec<u8>>)
        ensures
            old(self).pending().len() > 0 ==> r is Ok && r->Ok_0@ == old(self).pending()[0]
                && final(self).pending() == old(self).pending().drop_first(),
            old(self).pending().len() == 0 ==> r is Ok && r->Ok_0@ == idle_bytes(len as nat)
                && final(self).pending() == old(self).pending(),
            final(self).writes() == old(self).writes(),
            final(self).selected() == old(self).selected(),
    {
        let response = self.next_response(len);
        self.transaction_log.push(Transaction::Read { len, data: copy_vec(&response) });
        proof {
            let filler = idle_bytes(response@.len());
            self.bus_log@ = self.bus_log@ + clocks(filler, response@);
            assert(added(old(self).log(), self.log()) =~= clocks(filler, response@));
        }
        Ok(response)
    }

    fn max_bulk_transfer_size(&self) -> (n: usize)
        ensures
            n == 4096,
    {
        4096  // Simulate CH341A bulk size

    }
}

} // verus!
