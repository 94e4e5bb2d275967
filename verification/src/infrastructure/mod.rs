//! Infrastructure layer: flash protocols and programmers.

pub mod flash_protocol;
pub mod programmer;
