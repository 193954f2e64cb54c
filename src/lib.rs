pub mod entry;
pub mod file;
pub mod grammar;
pub mod laws;
pub mod readback;
pub mod render;
pub mod text;

pub use entry::{LogEntry, Timestamp, UnrealLogParserError, Verbosity};
pub use file::LogFile;
