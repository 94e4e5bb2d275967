//! CLI Handlers Module
//!
//! One handler per command. The handlers decide what a command does with a
//! chip reached through a flash protocol; detecting the chip, reading and
//! writing files and showing progress is left to the application.

pub mod bbt_handler;
pub mod erase_handler;
pub mod info_handler;
pub mod list_handler;
pub mod passthrough_handler;
pub mod protect_handler;
pub mod read_handler;
pub mod verify_handler;
pub mod write_handler;

pub use bbt_handler::BbtHandler;
pub use erase_handler::EraseHandler;
pub use info_handler::InfoHandler;
pub use list_handler::ListHandler;
pub use passthrough_handler::PassthroughHandler;
pub use protect_handler::ProtectHandler;
pub use read_handler::ReadHandler;
pub use verify_handler::VerifyHandler;
pub use write_handler::WriteHandler;
