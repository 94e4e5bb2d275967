//! Flash operation requests and the interface that every flash protocol offers.

use vstd::prelude::*;

use super::bad_block::{BadBlockStrategy, BadBlockTable};
use super::types::{Address, Progress};
use crate::error::{Error, Result};

verus! {

/// Which part of each NAND page an operation covers.
#[derive(Debug, Clone, Copy, PartialEq, Eq, Default)]
pub enum OobMode {
    /// Main area only, spare area excluded.
    #[default]
    Excluded,
    /// Main area followed by the spare area.
    Included,
    /// Spare area only.
    Only,
}

/// A read of `length` bytes starting at `address`.
#[derive(Debug, Clone)]
pub struct ReadRequest {
    pub address: Address,
    pub length: u32,
    pub use_ecc: bool,
    pub ignore_ecc_errors: bool,
    pub oob_mode: OobMode,
    pub bad_block_strategy: BadBlockStrategy,
    pub bbt: Option<BadBlockTable>,
    /// How many times a failed bus transaction is tried again.
    pub retry_count: u32,
}

/// A write of `data` starting at `address`.
#[derive(Debug, Clone)]
pub struct WriteRequest<'a> {
    pub address: Address,
    pub data: &'a [u8],
    pub use_ecc: bool,
    /// Read the data back after writing and compare.
    pub verify: bool,
    pub ignore_ecc_errors: bool,
    pub oob_mode: OobMode,
    pub bad_block_strategy: BadBlockStrategy,
    pub bbt: Option<BadBlockTable>,
    pub retry_count: u32,
}

/// An erase of `length` bytes starting at `address`.
#[derive(Debug, Clone)]
pub struct EraseRequest {
    pub address: Address,
    pub length: u32,
    pub bad_block_strategy: BadBlockStrategy,
    pub bbt: Option<BadBlockTable>,
}

/// Options collected from the user interface for one flash command.
#[derive(Debug, Clone, Copy, PartialEq, Eq, Default)]
pub struct FlashOptions {
    pub address: u32,
    pub length: Option<u32>,
    pub use_ecc: bool,
    pub ignore_ecc_errors: bool,
    pub bad_block_strategy: BadBlockStrategy,
    pub oob_mode: OobMode,
    pub speed: Option<u8>,
    pub verify: bool,
}

/// The requests a flash protocol may be asked to carry out: they stay inside
/// the 32-bit address space.
pub open spec fn read_fits(request: ReadRequest) -> bool {
    request.address.0 + request.length <= u32::MAX
}

/// See [`read_fits`].
pub open spec fn write_fits(request: WriteRequest) -> bool {
    request.address.0 + request.data@.len() <= u32::MAX
}

/// See [`read_fits`].
pub open spec fn erase_fits(request: EraseRequest) -> bool {
    request.address.0 + request.length <= u32::MAX
}

/// One call made on a flash protocol and what it answered.
pub enum FlashCall {
    /// `read` of `request`, which returned `result`.
    Read { request: ReadRequest, result: core::result::Result<Seq<u8>, Error> },
    /// `write` of `data` at `address` with the other fields of the request.
    Write {
        address: Address,
        data: Seq<u8>,
        use_ecc: bool,
        verify: bool,
        ignore_ecc_errors: bool,
        oob_mode: OobMode,
        bad_block_strategy: BadBlockStrategy,
        bbt: Option<BadBlockTable>,
        retry_count: u32,
        result: Result<()>,
    },
    /// `erase` of `request`.
    Erase { request: EraseRequest, result: Result<()> },
    /// `get_status`, which returned the register bytes or an error.
    GetStatus { result: core::result::Result<Seq<u8>, Error> },
    /// `set_status` with the bytes `status`.
    SetStatus { status: Seq<u8>, result: Result<()> },
}

/// A byte vector result as a value.
pub open spec fn bytes_result(r: Result<Vec<u8>>) -> core::result::Result<Seq<u8>, Error> {
    match r {
        Ok(v) => Ok(v@),
        Err(e) => Err(e),
    }
}

/// The record of a `read` of `request` that returned `r`.
pub open spec fn read_call(request: ReadRequest, r: Result<Vec<u8>>) -> FlashCall {
    FlashCall::Read { request, result: bytes_result(r) }
}

/// The record of a `write` of `request` that returned `r`.
pub open spec fn write_call(request: WriteRequest, r: Result<()>) -> FlashCall {
    FlashCall::Write {
        address: request.address,
        data: request.data@,
        use_ecc: request.use_ecc,
        verify: request.verify,
        ignore_ecc_errors: request.ignore_ecc_errors,
        oob_mode: request.oob_mode,
        bad_block_strategy: request.bad_block_strategy,
        bbt: request.bbt,
        retry_count: request.retry_count,
        result: r,
    }
}

/// The record of an `erase` of `request` that returned `r`.
pub open spec fn erase_call(request: EraseRequest, r: Result<()>) -> FlashCall {
    FlashCall::Erase { request, result: r }
}

/// The record of a `get_status` that returned `r`.
pub open spec fn get_status_call(r: Result<Vec<u8>>) -> FlashCall {
    FlashCall::GetStatus { result: bytes_result(r) }
}

/// The record of a `set_status` of `status` that returned `r`.
pub open spec fn set_status_call(status: Seq<u8>, r: Result<()>) -> FlashCall {
    FlashCall::SetStatus { status, result: r }
}

/// Operations on a flash chip reached through a programmer.
///
/// Each implementation keeps, as ghost state, the record of the calls made
/// on it (`calls`): every operation adds its own call and answer at the end.
pub trait FlashOperation {
    /// What the implementation keeps true between operations.
    spec fn inv(&self) -> bool;

    /// The calls made so far and their answers, oldest first.
    spec fn calls(&self) -> Seq<FlashCall>;

    /// Read `request.length` bytes (or the spare bytes, for NAND) from the chip.
    fn read<F: Fn(Progress)>(&mut self, request: ReadRequest, on_progress: &F) -> (r: Result<Vec<u8>>)
        requires
            old(self).inv(),
            read_fits(request),
            forall|p: Progress| #[trigger] on_progress.requires((p,)),
        ensures
            final(self).inv(),
            final(self).calls() == old(self).calls().push(read_call(request, r)),
    ;

    /// Program `request.data` into the chip.
    fn write<F: Fn(Progress)>(&mut self, request: WriteRequest, on_progress: &F) -> (r: Result<()>)
        requires
            old(self).inv(),
            write_fits(request),
            forall|p: Progress| #[trigger] on_progress.requires((p,)),
        ensures
            final(self).inv(),
            final(self).calls() == old(self).calls().push(write_call(request, r)),
    ;

    /// Erase (or fill with 0xFF) the requested range.
    fn erase<F: Fn(Progress)>(&mut self, request: EraseRequest, on_progress: &F) -> (r: Result<()>)
        requires
            old(self).inv(),
            erase_fits(request),
            forall|p: Progress| #[trigger] on_progress.requires((p,)),
        ensures
            final(self).inv(),
            final(self).calls() == old(self).calls().push(erase_call(request, r)),
    ;

    /// Read the status register(s); chips without one answer `NotSupported`.
    fn get_status(&mut self) -> (r: Result<Vec<u8>>)
        requires
            old(self).inv(),
        ensures
            final(self).inv(),
            final(self).calls() == old(self).calls().push(get_status_call(r)),
    ;

    /// Write the status register(s); chips without one answer `NotSupported`.
    fn set_status(&mut self, status: &[u8]) -> (r: Result<()>)
        requires
            old(self).inv(),
        ensures
            final(self).inv(),
            final(self).calls() == old(self).calls().push(set_status_call(status@, r)),
    ;
}

} // verus!
