//! Request handling of a Storage Node.
use crate::common::types::IngestBatch;
use crate::rpc::proto::{WriteBatchRequest, WriteBatchResponse};
use vstd::prelude::*;

verus! {

/// The batch a write request asks to ingest (its table and rows) and the
/// response owed once it is ingested: the number of rows written.
pub fn write_batch_plan(request: WriteBatchRequest) -> (r: (IngestBatch, WriteBatchResponse))
    ensures
        r.0.table == request.table,
        r.0.rows == request.rows,
        r.1.rows_written == request.rows@.len(),
{
    let n = request.rows.len();
    let batch = IngestBatch { table: request.table, rows: request.rows };
    (batch, WriteBatchResponse { rows_written: n as u64 })
}

} // verus!
