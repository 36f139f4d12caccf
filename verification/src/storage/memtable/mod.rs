//! MemTable: the in-memory write buffer.

pub mod memtable;
