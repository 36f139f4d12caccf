//! Settings of the client pool that Coordinators use to call Storage Nodes.
use std::time::Duration;
use vstd::prelude::*;

verus! {

/// Client pool for Storage Node connections; the connections themselves
/// are kept by the caller.
#[derive(Debug)]
pub struct StorageNodeClient {
    /// Timeout of each call.
    timeout: Duration,
}

impl StorageNodeClient {
    /// The timeout of each call.
    pub closed spec fn call_timeout(&self) -> Duration {
        self.timeout
    }

    /// A client pool whose calls time out after `timeout`.
    pub fn new(timeout: Duration) -> (r: StorageNodeClient)
        ensures
            r.call_timeout() == timeout,
    {
        StorageNodeClient { timeout }
    }

    /// The timeout of each call.
    pub fn timeout(&self) -> (r: Duration)
        ensures
            r == self.call_timeout(),
    {
        self.timeout
    }
}

} // verus!
