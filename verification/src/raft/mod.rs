//! Raft: the log of metadata operations that the Coordinators replicate.

pub mod log;
