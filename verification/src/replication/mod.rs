//! Replication: snapshot transfer to re-joining replicas.

pub mod snapshot;
