//! Graphical front end: the requests it sends to its background worker,
//! what the worker does with them, and how the window takes its answers in.

pub mod messages;
pub mod worker;
