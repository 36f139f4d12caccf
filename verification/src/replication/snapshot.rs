//! Snapshot sync: full Part file transfer for a replica that fell behind
//! the leader's buffered WAL. The transfer itself is done by the caller.
use vstd::prelude::*;

verus! {

/// Full snapshot sync between a leader and a replica.
#[derive(Debug, Clone, Copy)]
pub struct SnapshotSync;

} // verus!
