//! Coordinator: cluster metadata and the decisions built on it.

pub mod cluster_manager;
pub mod metadata_catalog;
pub mod read_router;
pub mod write_router;
