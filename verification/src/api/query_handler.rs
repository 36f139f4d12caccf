//! Body of a query request (`POST /api/v1/query`).
use vstd::prelude::*;

verus! {

/// Request body for a query.
#[derive(Debug, Clone)]
pub struct QueryRequest {
    pub sql: String,
}

} // verus!
