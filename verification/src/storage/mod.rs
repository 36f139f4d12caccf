//! Storage layer: WAL framing, MemTable, Part file format, Catalog, indexes.

pub mod catalog;
pub mod index;
pub mod memtable;
pub mod part;
pub mod wal;
