//! Shared types and utilities used by every other module.

pub mod error;
pub mod hash;
pub mod schema;
pub mod shard_key;
pub mod strmap;
pub mod text;
pub mod types;
