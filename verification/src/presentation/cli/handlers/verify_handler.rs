//! CLI Handler - verify
//!
//! Reads back the range that a file (read by the application) should occupy
//! and compares it with the file.

use vstd::prelude::*;

use crate::domain::flash_operation::read_call;
use crate::domain::{Address, FlashOperation, FlashOptions, Progress, ReadRequest};
use crate::error::{Error, Result};

verus! {

/// The read request that fetches `len` bytes for the 'verify' command.
pub open spec fn verify_request_for(options: FlashOptions, len: nat) -> ReadRequest {
    ReadRequest {
        address: Address(options.address),
        length: len as u32,
        use_ecc: options.use_ecc,
        ignore_ecc_errors: options.ignore_ecc_errors,
        oob_mode: options.oob_mode,
        bad_block_strategy: options.bad_block_strategy,
        bbt: None,
        retry_count: 0,
    }
}

/// `expected` and `actual` agree on their first `n` bytes.
pub open spec fn agree_up_to(expected: Seq<u8>, actual: Seq<u8>, n: int) -> bool {
    forall|j: int| 0 <= j < n ==> #[trigger] expected[j] == actual[j]
}

/// Byte `i` is the first place where `expected` and `actual` differ.
pub open spec fn first_difference_at(expected: Seq<u8>, actual: Seq<u8>, i: int) -> bool {
    &&& 0 <= i < expected.len()
    &&& i < actual.len()
    &&& expected[i] != actual[i]
    &&& agree_up_to(expected, actual, i)
}

/// What comparing `actual`, read back from `start`, with `expected` answers:
/// success exactly when they are equal; the first byte that differs, with
/// its address; otherwise (one is a prefix of the other) an `Other` error.
pub open spec fn check_outcome(start: u32, expected: Seq<u8>, actual: Seq<u8>, r: Result<()>) -> bool {
    &&& r is Ok <==> expected == actual
    &&& r matches Err(Error::VerificationFailed { address, expected: e, actual: a }) ==> {
        &&& first_difference_at(expected, actual, address - start)
        &&& e == expected[address - start]
        &&& a == actual[address - start]
    }
    &&& (exists|i: int| first_difference_at(expected, actual, i)) ==> (r matches Err(
        Error::VerificationFailed { .. },
    ))
    &&& r is Err && !(r matches Err(Error::VerificationFailed { .. })) ==> r->Err_0 is Other
        && expected.len() != actual.len()
}

/// Handler of the 'verify' command.
#[derive(Debug, Clone, Copy, PartialEq, Eq)]
pub struct VerifyHandler;

impl VerifyHandler {
    pub fn new() -> (h: Self)
        ensures
            h == VerifyHandler,
    {
        VerifyHandler
    }

    /// The read request that fetches `expected.len()` bytes as `options` select.
    pub fn request(&self, options: &FlashOptions, expected: &[u8]) -> (r: ReadRequest)
        requires
            expected@.len() <= u32::MAX,
        ensures
            r == verify_request_for(*options, expected@.len()),
    {
        ReadRequest {
            address: Address::new(options.address),
            length: expected.len() as u32,
            use_ecc: options.use_ecc,
            ignore_ecc_errors: options.ignore_ecc_errors,
            oob_mode: options.oob_mode,
            bad_block_strategy: options.bad_block_strategy,
            bbt: None,
            retry_count: 0,
        }
    }

    /// Compare what was read back from `start` with what was expected: the
    /// first byte that differs is reported with its address; a read of
    /// another length that agrees as far as both go is reported as such.
    pub fn check(&self, start: u32, expected: &[u8], actual: &[u8]) -> (r: Result<()>)
        requires
            start + expected@.len() <= u32::MAX,
        ensures
            check_outcome(start, expected@, actual@, r),
    {
        let n = if expected.len() < actual.len() {
            expected.len()
        } else {
            actual.len()
        };
        let mut i: usize = 0;
        while i < n
            invariant
                n <= expected@.len(),
                n <= actual@.len(),
                n == expected@.len() || n == actual@.len(),
                i <= n,
                start + expected@.len() <= u32::MAX,
                agree_up_to(expected@, actual@, i as int),
            decreases n - i,
        {
            if expected[i] != actual[i] {
                proof {
                    assert(first_difference_at(expected@, actual@, i as int));
                }
                return Err(
                    Error::VerificationFailed {
                        address: start + i as u32,
                        expected: expected[i],
                        actual: actual[i],
                    },
                );
            }
            i = i + 1;
        }
        if expected.len() != actual.len() {
            return Err(Error::Other("read back a different number of bytes than expected".to_string()));
        }
        assert(expected@ =~= actual@);
        Ok(())
    }

    /// Read back `expected.len()` bytes as `options` select through
    /// `protocol` and compare them with `expected`.
    pub fn handle<F: FlashOperation, G: Fn(Progress)>(
        &self,
        protocol: &mut F,
        expected: &[u8],
        options: FlashOptions,
        on_progress: &G,
    ) -> (r: Result<()>)
        requires
            old(protocol).inv(),
            options.address + expected@.len() <= u32::MAX,
            forall|p: Progress| #[trigger] on_progress.requires((p,)),
        ensures
            final(protocol).inv(),
            (exists|rr: Result<Vec<u8>>|
                {
                    &&& final(protocol).calls() == old(protocol).calls().push(
                        #[trigger] read_call(verify_request_for(options, expected@.len()), rr),
                    )
                    &&& match rr {
                        Ok(actual) => check_outcome(options.address, expected@, actual@, r),
                        Err(e) => r matches Err(e2) && e2 == e,
                    }
                }),
    {
        let request = self.request(&options, expected);
        let rr = protocol.read(request, on_progress);
        let ghost grr = rr;
        assert(read_call(verify_request_for(options, expected@.len()), grr) == read_call(request, grr));
        match rr {
            Ok(actual) => self.check(options.address, expected, actual.as_slice()),
            Err(e) => Err(e),
        }
    }
}

impl Default for VerifyHandler {
    fn default() -> (h: Self)
        ensures
            h == VerifyHandler,
    {
        Self::new()
    }
}

} // verus!
