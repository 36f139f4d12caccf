//! HTTP API: request bodies.

pub mod query_handler;
