//! Background workers: internal metrics and WAL cleanup.

pub mod metrics;
pub mod wal_cleanup;
