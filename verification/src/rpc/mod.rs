//! Messages and request handling between Coordinators and Storage Nodes.

pub mod client;
pub mod proto;
pub mod server;
