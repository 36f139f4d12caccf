//! Node configuration.

pub mod config;
