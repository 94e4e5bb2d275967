//! nander-rs: a programmer library for SPI NAND/NOR flash and serial EEPROMs.
//!
//! The library is layered:
//!
//! - [`domain`]: chip descriptions, requests and the `FlashOperation` interface
//! - [`infrastructure`]: flash protocols and the programmer interface, with the
//!   command builders of the supported USB bridges and a simulated chip
//! - [`presentation`]: the command-line front end (argument model and dispatch)
//! - [`error`]: the error type shared by all layers

pub mod domain;
pub mod error;
pub mod infrastructure;
pub mod presentation;

pub use error::{Error, Result};
