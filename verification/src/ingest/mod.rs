//! Write path: schema checks, shard routing and the per-shard actor logic.

pub mod engine;
pub mod shard_actor;
