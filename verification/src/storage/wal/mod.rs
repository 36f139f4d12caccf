//! Write-ahead log: record framing, recovery and durability settings.

pub mod entry;
pub mod reader;
pub mod writer;
