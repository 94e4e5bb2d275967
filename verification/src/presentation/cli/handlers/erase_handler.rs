//! CLI Handler - erase
//!
//! Erases a range of the chip: the whole chip from the start address unless
//! a length is given. EEPROMs have no erase; their protocols fill the range
//! with 0xFF.

use vstd::prelude::*;

use crate::domain::flash_operation::{erase_call, erase_fits};
use crate::domain::{Address, ChipSpec, EraseRequest, FlashOperation, FlashOptions, Progress};
use crate::error::Result;
use crate::presentation::cli::handlers::read_handler::{range_len, range_length, range_ok};

verus! {

/// The erase request for the 'erase' command's options.
pub open spec fn erase_request_for(options: FlashOptions, spec: ChipSpec) -> EraseRequest {
    EraseRequest {
        address: Address(options.address),
        length: range_length(options, spec),
        bad_block_strategy: options.bad_block_strategy,
        bbt: None,
    }
}

/// Handler of the 'erase' command.
#[derive(Debug, Clone, Copy, PartialEq, Eq)]
pub struct EraseHandler;

impl EraseHandler {
    pub fn new() -> (h: Self)
        ensures
            h == EraseHandler,
    {
        EraseHandler
    }

    /// The erase request for `options` on the chip `spec`.
    pub fn request(&self, options: &FlashOptions, spec: &ChipSpec) -> (r: EraseRequest)
        requires
            range_ok(*options, *spec),
        ensures
            r == erase_request_for(*options, *spec),
    {
        EraseRequest {
            address: Address::new(options.address),
            length: range_len(options, spec),
            bad_block_strategy: options.bad_block_strategy,
            bbt: None,
        }
    }

    /// Erase what `options` select on the chip `spec` through `protocol`.
    pub fn handle<F: FlashOperation, G: Fn(Progress)>(
        &self,
        protocol: &mut F,
        spec: &ChipSpec,
        options: FlashOptions,
        on_progress: &G,
    ) -> (r: Result<()>)
        requires
            old(protocol).inv(),
            range_ok(options, *spec),
            erase_fits(erase_request_for(options, *spec)),
            forall|p: Progress| #[trigger] on_progress.requires((p,)),
        ensures
            final(protocol).inv(),
            final(protocol).calls() == old(protocol).calls().push(
                erase_call(erase_request_for(options, *spec), r),
            ),
    {
        let request = self.request(&options, spec);
        protocol.erase(request, on_progress)
    }
}

impl Default for EraseHandler {
    fn default() -> (h: Self)
        ensures
            h == EraseHandler,
    {
        Self::new()
    }
}

} // verus!
