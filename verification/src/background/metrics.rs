//! Internal gauges for observability, reported periodically.
use vstd::prelude::*;

verus! {

/// Internal metrics gauges.
#[derive(Debug, Clone)]
pub struct Metrics {
    /// Total rows ingested since startup.
    pub rows_ingested: u64,
    /// Total WAL bytes written.
    pub wal_bytes_written: u64,
    /// Total Part files on disk.
    pub part_files_count: u64,
    /// Current MemTable size across all shards, in bytes.
    pub memtable_bytes: u64,
    /// Total queries executed.
    pub queries_executed: u64,
    /// Total Parts pruned by indexes (reads avoided).
    pub parts_pruned: u64,
}

impl Default for Metrics {
    /// All gauges at zero.
    fn default() -> (r: Metrics)
        ensures
            r.rows_ingested == 0,
            r.wal_bytes_written == 0,
            r.part_files_count == 0,
            r.memtable_bytes == 0,
            r.queries_executed == 0,
            r.parts_pruned == 0,
    {
        Metrics {
            rows_ingested: 0,
            wal_bytes_written: 0,
            part_files_count: 0,
            memtable_bytes: 0,
            queries_executed: 0,
            parts_pruned: 0,
        }
    }
}

} // verus!
