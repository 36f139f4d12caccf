//! RutSeriDB — a distributed time-series database: the verified core.
//!
//! This crate holds the data structures, encodings, file formats and
//! state machines of the database, each function with a contract that
//! Verus proves.

pub mod api;
pub mod background;
pub mod client;
pub mod common;
pub mod config;
pub mod coordinator;
pub mod gossip;
pub mod ingest;
pub mod query;
pub mod raft;
pub mod replication;
pub mod rpc;
pub mod storage;
