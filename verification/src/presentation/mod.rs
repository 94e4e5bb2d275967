//! Presentation layer: user-facing front ends.

pub mod cli;
pub mod gui;
