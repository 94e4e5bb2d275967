//! Error type shared by all layers of the library.

use vstd::prelude::*;

verus! {

/// Errors reported by the library.
#[derive(Debug, Clone, PartialEq, Eq)]
pub enum Error {
    /// A status register never reported "ready" within the poll budget.
    Timeout,
    /// A request argument is not acceptable (e.g. a misaligned address).
    InvalidParameter(String),
    /// An argument given by the user failed validation.
    Validation(String),
    /// The operation is not available for this programmer or chip.
    NotSupported(String),
    /// No supported programmer could be found.
    ProgrammerNotFound,
    /// The chip reported a program failure for the page at `address`.
    WriteFailed { address: u32 },
    /// The chip reported an erase failure for `block`.
    EraseFailed { block: u32 },
    /// Read-back data differs from the written data at `address`.
    VerificationFailed { address: u32, expected: u8, actual: u8 },
    /// Transport or other failure, with a message.
    Other(String),
}

/// Result type of the library.
pub type Result<T> = core::result::Result<T, Error>;

} // verus!
