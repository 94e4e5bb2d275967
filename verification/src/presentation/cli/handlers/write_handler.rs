//! CLI Handler - write
//!
//! Programs data (read from a file by the application) at the start address.

use vstd::prelude::*;

use crate::domain::flash_operation::{write_call, write_fits};
use crate::domain::{Address, FlashOperation, FlashOptions, Progress, WriteRequest};
use crate::error::Result;

verus! {

/// The write request for the 'write' command's options and `data`.
pub open spec fn write_request_for<'a>(options: FlashOptions, data: &'a [u8]) -> WriteRequest<'a> {
    WriteRequest {
        address: Address(options.address),
        data,
        use_ecc: options.use_ecc,
        verify: options.verify,
        ignore_ecc_errors: options.ignore_ecc_errors,
        oob_mode: options.oob_mode,
        bad_block_strategy: options.bad_block_strategy,
        bbt: None,
        retry_count: 0,
    }
}

/// Handler of the 'write' command.
#[derive(Debug, Clone, Copy, PartialEq, Eq)]
pub struct WriteHandler;

impl WriteHandler {
    pub fn new() -> (h: Self)
        ensures
            h == WriteHandler,
    {
        WriteHandler
    }

    /// The write request for `options` and `data`.
    pub fn request<'a>(&self, options: &FlashOptions, data: &'a [u8]) -> (r: WriteRequest<'a>)
        ensures
            r == write_request_for(*options, data),
    {
        WriteRequest {
            address: Address::new(options.address),
            data,
            use_ecc: options.use_ecc,
            verify: options.verify,
            ignore_ecc_errors: options.ignore_ecc_errors,
            oob_mode: options.oob_mode,
            bad_block_strategy: options.bad_block_strategy,
            bbt: None,
            retry_count: 0,
        }
    }

    /// Program `data` as `options` select through `protocol`.
    pub fn handle<F: FlashOperation, G: Fn(Progress)>(
        &self,
        protocol: &mut F,
        data: &[u8],
        options: FlashOptions,
        on_progress: &G,
    ) -> (r: Result<()>)
        requires
            old(protocol).inv(),
            write_fits(write_request_for(options, data)),
            forall|p: Progress| #[trigger] on_progress.requires((p,)),
        ensures
            final(protocol).inv(),
            final(protocol).calls() == old(protocol).calls().push(
                write_call(write_request_for(options, data), r),
            ),
    {
        let request = self.request(&options, data);
        protocol.write(request, on_progress)
    }
}

impl Default for WriteHandler {
    fn default() -> (h: Self)
        ensures
            h == WriteHandler,
    {
        Self::new()
    }
}

} // verus!
