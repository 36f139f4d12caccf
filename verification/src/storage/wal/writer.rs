//! WAL writer: its settings and the bookkeeping of an append-only log.
//!
//! Each append takes the next sequence number; after the record is
//! written, the bytes of the active segment grow by the record's size, and
//! once they exceed the segment limit the writer moves to a new segment.
//! Opening, writing, syncing and closing the segment files are the
//! caller's part.
use vstd::prelude::*;

verus! {

/// When a WAL append is made durable.
#[derive(Debug, Clone, Copy, PartialEq, Eq, Structural)]
pub enum DurabilityLevel {
    /// No fsync on the write path; the OS flushes.
    Async,
    /// fsync after every append.
    Sync,
    /// fsync on a timer, covering all appends since the last one.
    SyncBatch,
}

/// The sequence numbering and segment rotation of one shard's WAL.
#[derive(Debug, Clone)]
pub struct WalSequence {
    /// Current segment number (monotonically increasing, from 1).
    segment_num: u64,
    /// Next sequence number to assign (from 1).
    next_seq: u64,
    /// Bytes written to the active segment.
    active_bytes: u64,
    /// Maximum segment size before rotation.
    max_segment_bytes: u64,
}

impl WalSequence {
    /// The active segment's number.
    pub closed spec fn segment(&self) -> u64 {
        self.segment_num
    }

    /// The sequence number the next append takes.
    pub closed spec fn next(&self) -> u64 {
        self.next_seq
    }

    /// The bytes written to the active segment.
    pub closed spec fn written(&self) -> u64 {
        self.active_bytes
    }

    /// The segment size limit.
    pub closed spec fn limit(&self) -> u64 {
        self.max_segment_bytes
    }

    /// A fresh log: segment 1, empty, the first append taking sequence
    /// number 1.
    pub fn new(max_segment_bytes: u64) -> (r: WalSequence)
        ensures
            r.segment() == 1,
            r.next() == 1,
            r.written() == 0,
            r.limit() == max_segment_bytes,
    {
        WalSequence { segment_num: 1, next_seq: 1, active_bytes: 0, max_segment_bytes }
    }

    /// The active segment's number.
    pub fn segment_number(&self) -> (r: u64)
        ensures
            r == self.segment(),
    {
        self.segment_num
    }

    /// The sequence number the next append takes.
    pub fn next_seq(&self) -> (r: u64)
        ensures
            r == self.next(),
    {
        self.next_seq
    }

    /// Takes the next sequence number for an append.
    pub fn assign(&mut self) -> (seq: u64)
        requires
            old(self).next() < u64::MAX,
        ensures
            seq == old(self).next(),
            final(self).next() == seq + 1,
            final(self).segment() == old(self).segment(),
            final(self).written() == old(self).written(),
            final(self).limit() == old(self).limit(),
    {
        let seq = self.next_seq;
        self.next_seq = seq + 1;
        seq
    }

    /// Accounts for `frame_len` bytes written to the active segment (the
    /// count saturates); when the segment then exceeds the limit, the log
    /// moves to the next segment, empty, and `true` tells the caller to
    /// seal the old file and open the new one.
    pub fn record_written(&mut self, frame_len: u64) -> (rotate: bool)
        requires
            old(self).segment() < u64::MAX,
        ensures
            ({
                let total = if old(self).written() + frame_len > u64::MAX {
                    u64::MAX
                } else {
                    (old(self).written() + frame_len) as u64
                };
                &&& rotate == (total > old(self).limit())
                &&& rotate ==> final(self).segment() == old(self).segment() + 1 && final(self).written() == 0
                &&& !rotate ==> final(self).segment() == old(self).segment() && final(self).written() == total
            }),
            final(self).next() == old(self).next(),
            final(self).limit() == old(self).limit(),
    {
        let total = self.active_bytes.saturating_add(frame_len);
        if total > self.max_segment_bytes {
            self.segment_num = self.segment_num + 1;
            self.active_bytes = 0;
            true
        } else {
            self.active_bytes = total;
            false
        }
    }

    /// The sequence number of the last append (0 if none).
    pub fn current_seq(&self) -> (r: u64)
        ensures
            r == if self.next() == 0 { 0 } else { self.next() - 1 },
    {
        self.next_seq.saturating_sub(1)
    }
}

/// Sequence numbers are never reused: when each append takes the next
/// number (`seqs[i] == nexts[i]`, the number before the i-th append) and
/// the next number only grows between appends, every append's number is
/// larger than all earlier ones.
pub proof fn lemma_assigned_seqs_increase(seqs: Seq<u64>, nexts: Seq<u64>)
    requires
        nexts.len() == seqs.len() + 1,
        forall|i: int| #![trigger seqs[i]] 0 <= i < seqs.len() ==> seqs[i] == nexts[i] && nexts[i] < nexts[i + 1],
    ensures
        forall|i: int, j: int| 0 <= i < j < seqs.len() ==> seqs[i] < seqs[j],
    decreases seqs.len(),
{
    if seqs.len() > 0 {
        let n = seqs.len();
        let s = seqs.drop_last();
        let ns = nexts.drop_last();
        assert forall|i: int| #![trigger s[i]] 0 <= i < s.len() implies s[i] == ns[i] && ns[i] < ns[i + 1] by {
            assert(s[i] == seqs[i] && ns[i] == nexts[i] && ns[i + 1] == nexts[i + 1]);
        }
        lemma_assigned_seqs_increase(s, ns);
        assert forall|i: int| 0 <= i < n - 1 implies #[trigger] seqs[i] < nexts[n - 1] by {
            lemma_below_later_next(seqs, nexts, i, n - 1);
        }
        assert forall|i: int, j: int| 0 <= i < j < seqs.len() implies seqs[i] < seqs[j] by {
            if j < n - 1 {
                assert(s[i] == seqs[i] && s[j] == seqs[j]);
            } else {
                assert(seqs[i] < nexts[n - 1]);
                assert(seqs[j] == nexts[n - 1]);
            }
        }
    }
}

/// The number an append took is below the next number at any later
/// append.
proof fn lemma_below_later_next(seqs: Seq<u64>, nexts: Seq<u64>, i: int, j: int)
    requires
        nexts.len() == seqs.len() + 1,
        forall|k: int| #![trigger seqs[k]] 0 <= k < seqs.len() ==> seqs[k] == nexts[k] && nexts[k] < nexts[k + 1],
        0 <= i < j <= seqs.len(),
    ensures
        seqs[i] < nexts[j],
    decreases j - i,
{
    assert(seqs[i] == nexts[i]);
    assert(nexts[i] < nexts[i + 1]);
    if j > i + 1 {
        lemma_below_later_next(seqs, nexts, i + 1, j);
        assert(seqs[i + 1] == nexts[i + 1]);
    }
}

} // verus!
