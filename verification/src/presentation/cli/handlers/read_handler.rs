//! CLI Handler - read
//!
//! Reads a range of the chip: the whole chip from the start address unless a
//! length is given.

use vstd::prelude::*;

use crate::domain::flash_operation::{read_call, read_fits};
use crate::domain::{Address, ChipSpec, FlashOperation, FlashOptions, Progress, ReadRequest};
use crate::error::Result;

verus! {

/// Bytes a command covers: the length given, or the rest of the chip from
/// the start address.
pub open spec fn range_length(options: FlashOptions, spec: ChipSpec) -> u32 {
    match options.length {
        Some(n) => n,
        None => (spec.capacity.0 - options.address) as u32,
    }
}

/// A command without a length starts inside the chip.
pub open spec fn range_ok(options: FlashOptions, spec: ChipSpec) -> bool {
    options.length is Some || options.address <= spec.capacity.0
}

/// The read request for the 'read' command's options.
pub open spec fn read_request_for(options: FlashOptions, spec: ChipSpec) -> ReadRequest {
    ReadRequest {
        address: Address(options.address),
        length: range_length(options, spec),
        use_ecc: options.use_ecc,
        ignore_ecc_errors: options.ignore_ecc_errors,
        oob_mode: options.oob_mode,
        bad_block_strategy: options.bad_block_strategy,
        bbt: None,
        retry_count: 0,
    }
}

/// Bytes covered by `options` on the chip `spec`.
pub fn range_len(options: &FlashOptions, spec: &ChipSpec) -> (n: u32)
    requires
        range_ok(*options, *spec),
    ensures
        n == range_length(*options, *spec),
{
    match options.length {
        Some(n) => n,
        None => spec.capacity.as_bytes() - options.address,
    }
}

/// Handler of the 'read' command.
#[derive(Debug, Clone, Copy, PartialEq, Eq)]
pub struct ReadHandler;

impl ReadHandler {
    pub fn new() -> (h: Self)
        ensures
            h == ReadHandler,
    {
        ReadHandler
    }

    /// The read request for `options` on the chip `spec`.
    pub fn request(&self, options: &FlashOptions, spec: &ChipSpec) -> (r: ReadRequest)
        requires
            range_ok(*options, *spec),
        ensures
            r == read_request_for(*options, *spec),
    {
        ReadRequest {
            address: Address::new(options.address),
            length: range_len(options, spec),
            use_ecc: options.use_ecc,
            ignore_ecc_errors: options.ignore_ecc_errors,
            oob_mode: options.oob_mode,
            bad_block_strategy: options.bad_block_strategy,
            bbt: None,
            retry_count: 0,
        }
    }

    /// Read what `options` select from the chip `spec` through `protocol`;
    /// the data is handed back for the caller to store.
    pub fn handle<F: FlashOperation, G: Fn(Progress)>(
        &self,
        protocol: &mut F,
        spec: &ChipSpec,
        options: FlashOptions,
        on_progress: &G,
    ) -> (r: Result<Vec<u8>>)
        requires
            old(protocol).inv(),
            range_ok(options, *spec),
            read_fits(read_request_for(options, *spec)),
            forall|p: Progress| #[trigger] on_progress.requires((p,)),
        ensures
            final(protocol).inv(),
            final(protocol).calls() == old(protocol).calls().push(
                read_call(read_request_for(options, *spec), r),
            ),
    {
        let request = self.request(&options, spec);
        protocol.read(request, on_progress)
    }
}

impl Default for ReadHandler {
    fn default() -> (h: Self)
        ensures
            h == ReadHandler,
    {
        Self::new()
    }
}

} // verus!
