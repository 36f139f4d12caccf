//! The decisions of a shard's write actor.
//!
//! Each shard has one actor. Clients queue `(batch, reply channel)` pairs;
//! the actor drains the queue, coalesces the rows of every waiting batch,
//! makes them durable with one WAL append and one fsync (group commit),
//! inserts them into the MemTable, answers every waiting client at once
//! and flushes the MemTable once it has grown past its threshold.
//!
//! The queue, the WAL file and the reply channels belong to the caller:
//! it hands the queued batches and the outcome of the WAL write to the
//! functions below and performs the replies and the flush they decide.
use crate::common::error::RutSeriError;
use crate::common::types::{IngestBatch, Row, ShardId, Timestamp};
use crate::storage::memtable::memtable::{insert_rows, MemTable, MemTableSnapshot, ROW_SIZE_ESTIMATE};
use vstd::prelude::*;

verus! {

/// The rows of `batches`, batch after batch, each in its own order.
pub open spec fn rows_of(batches: Seq<IngestBatch>) -> Seq<Row>
    decreases batches.len(),
{
    if batches.len() == 0 {
        Seq::empty()
    } else {
        rows_of(batches.drop_last()) + batches.last().rows@
    }
}

/// Coalesces the rows of a group of queued batches, in arrival order.
pub fn coalesce_rows(batches: Vec<IngestBatch>) -> (r: Vec<Row>)
    ensures
        r@ == rows_of(batches@),
{
    let ghost all = batches@;
    let mut out: Vec<Row> = Vec::new();
    for batch in it: batches
        invariant
            it.seq() == all,
            out@ == rows_of(all.subrange(0, it.index() as int)),
    {
        let ghost i = it.index();
        proof {
            assert(batch == all[i as int]);
            assert(all.subrange(0, i + 1).drop_last() == all.subrange(0, i as int));
            assert(all.subrange(0, i + 1).last() == batch);
        }
        let mut rows = batch.rows;
        out.append(&mut rows);
    }
    proof {
        assert(all.subrange(0, all.len() as int) == all);
    }
    out
}

/// The replies owed to the `waiting` clients of a group: all `Ok` when the
/// WAL write succeeded; otherwise each an `Internal` error carrying the
/// WAL error's message.
pub fn group_replies(wal_outcome: &Result<(), String>, waiting: usize) -> (r: Vec<Result<(), RutSeriError>>)
    ensures
        r@.len() == waiting,
        forall|i: int|
            0 <= i < waiting ==> match wal_outcome {
                Ok(()) => (#[trigger] r@[i]) is Ok,
                Err(m) => r@[i] matches Err(RutSeriError::Internal(s)) && s@ == m@,
            },
{
    let mut out: Vec<Result<(), RutSeriError>> = Vec::new();
    let mut i: usize = 0;
    while i < waiting
        invariant
            0 <= i <= waiting,
            out@.len() == i,
            forall|j: int|
                0 <= j < i ==> match wal_outcome {
                    Ok(()) => (#[trigger] out@[j]) is Ok,
                    Err(m) => out@[j] matches Err(RutSeriError::Internal(s)) && s@ == m@,
                },
        decreases waiting - i,
    {
        match wal_outcome {
            Ok(()) => out.push(Ok(())),
            Err(m) => out.push(Err(RutSeriError::Internal(m.clone()))),
        }
        i = i + 1;
    }
    out
}

/// What the actor does after a group commit.
#[derive(Debug)]
pub struct GroupOutcome {
    /// One reply per waiting client, in queue order.
    pub replies: Vec<Result<(), RutSeriError>>,
    /// Whether the MemTable has reached its flush threshold.
    pub flush: bool,
}

/// The state a shard's actor keeps besides its queue and its WAL file.
pub struct ShardState {
    /// Shard identifier.
    shard_id: ShardId,
    /// In-memory write buffer.
    memtable: MemTable,
    /// MemTable size (in bytes) from which a flush is due.
    flush_threshold: usize,
}

impl ShardState {
    /// The shard's identifier.
    pub closed spec fn id(&self) -> ShardId {
        self.shard_id
    }

    /// The MemTable size from which a flush is due.
    pub closed spec fn threshold(&self) -> usize {
        self.flush_threshold
    }

    /// The shard's MemTable.
    pub closed spec fn buffer(&self) -> MemTable {
        self.memtable
    }

    /// A shard with an empty MemTable for `table`.
    pub fn new(shard_id: ShardId, table: String, flush_threshold: usize) -> (r: ShardState)
        ensures
            r.id() == shard_id,
            r.threshold() == flush_threshold,
            r.buffer().contents() == Map::<(Timestamp, u64), Row>::empty(),
            r.buffer().size_estimate() == 0,
            r.buffer().table_name() == table@,
    {
        ShardState { shard_id, memtable: MemTable::new(table), flush_threshold }
    }

    /// The shard's MemTable, for reads.
    pub fn memtable(&self) -> (r: &MemTable)
        ensures
            *r == self.buffer(),
    {
        &self.memtable
    }

    /// Finishes a group commit once the WAL write of the coalesced `rows`
    /// has returned: on success the rows go into the MemTable, on failure
    /// the MemTable is left as it is. Every one of the `waiting` clients
    /// gets its reply (see `group_replies`), and a flush is due when the
    /// MemTable size has reached the threshold.
    pub fn commit_group(&mut self, rows: Vec<Row>, wal_outcome: &Result<(), String>, waiting: usize) -> (r: GroupOutcome)
        requires
            wal_outcome is Ok ==> old(self).buffer().size_estimate() + ROW_SIZE_ESTIMATE * rows@.len()
                <= usize::MAX,
        ensures
            final(self).id() == old(self).id(),
            final(self).threshold() == old(self).threshold(),
            final(self).buffer().table_name() == old(self).buffer().table_name(),
            wal_outcome is Ok ==> final(self).buffer().contents() == insert_rows(
                old(self).buffer().contents(),
                rows@,
            ) && final(self).buffer().size_estimate() == old(self).buffer().size_estimate()
                + ROW_SIZE_ESTIMATE * rows@.len(),
            wal_outcome is Err ==> final(self).buffer() == old(self).buffer(),
            r.replies@.len() == waiting,
            forall|i: int|
                0 <= i < waiting ==> match wal_outcome {
                    Ok(()) => (#[trigger] r.replies@[i]) is Ok,
                    Err(m) => r.replies@[i] matches Err(RutSeriError::Internal(s)) && s@ == m@,
                },
            r.flush == (final(self).buffer().size_estimate() >= old(self).threshold()),
    {
        if wal_outcome.is_ok() {
            self.memtable.insert(rows);
        }
        let replies = group_replies(wal_outcome, waiting);
        let flush = self.memtable.size_bytes() >= self.flush_threshold;
        GroupOutcome { replies, flush }
    }

    /// Starts a flush: a frozen copy of the MemTable's rows is handed out
    /// to be written as a Part, and the MemTable starts empty again.
    pub fn take_for_flush(&mut self) -> (r: MemTableSnapshot)
        ensures
            r.data@ == old(self).buffer().contents(),
            r.table@ == old(self).buffer().table_name(),
            final(self).buffer().contents() == Map::<(Timestamp, u64), Row>::empty(),
            final(self).buffer().size_estimate() == 0,
            final(self).buffer().table_name() == old(self).buffer().table_name(),
            final(self).id() == old(self).id(),
            final(self).threshold() == old(self).threshold(),
    {
        let snap = self.memtable.snapshot();
        self.memtable.clear();
        snap
    }
}

} // verus!
