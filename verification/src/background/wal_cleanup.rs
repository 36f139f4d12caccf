//! WAL cleanup: which WAL segments are fully checkpointed and may go.
//!
//! A segment is deleted once every entry it holds has been checkpointed
//! (flushed to Part files): its last sequence number is at most the last
//! checkpoint's. Listing, reading and deleting the segment files are the
//! caller's part.
use crate::storage::wal::reader::{read_segment, scan_records, segment_corrupt};
use vstd::prelude::*;

verus! {

/// The last sequence number a segment holds: that of its last record;
/// `None` when it holds none or cannot be read (a CRC mismatch).
pub open spec fn last_seq_of(buf: Seq<u8>) -> Option<u64> {
    let recs = scan_records(buf).0;
    if segment_corrupt(buf, false) || recs.len() == 0 {
        None
    } else {
        Some(recs.last().0)
    }
}

/// Whether a segment whose last sequence number is `last` is fully
/// checkpointed at `checkpoint`.
pub open spec fn checkpointed(last: Option<u64>, checkpoint: u64) -> bool {
    last matches Some(s) && s <= checkpoint
}

/// The positions below `k` of the segments that are fully checkpointed,
/// in increasing order.
pub open spec fn checkpointed_below(lasts: Seq<Option<u64>>, checkpoint: u64, k: nat) -> Seq<usize>
    decreases k,
{
    if k == 0 {
        Seq::empty()
    } else {
        let rest = checkpointed_below(lasts, checkpoint, (k - 1) as nat);
        if checkpointed(lasts[k - 1], checkpoint) {
            rest.push((k - 1) as usize)
        } else {
            rest
        }
    }
}

/// The last sequence number of a segment's bytes (see `last_seq_of`).
pub fn segment_last_seq(buf: &[u8]) -> (r: Option<u64>)
    ensures
        r == last_seq_of(buf@),
{
    match read_segment(buf, false) {
        Err(_) => None,
        Ok(records) => {
            let n = records.len();
            if n == 0 {
                None
            } else {
                Some(records[n - 1].0)
            }
        },
    }
}

/// Which segments may be deleted, given the last sequence number of each
/// segment in ascending order: the positions of those fully checkpointed
/// at `last_checkpoint_seq`, in increasing order. The newest segment is
/// never among them: the writer may still append to it.
pub fn deletable_segments(last_seqs: &[Option<u64>], last_checkpoint_seq: u64) -> (r: Vec<usize>)
    ensures
        r@ == checkpointed_below(
            last_seqs@,
            last_checkpoint_seq,
            if last_seqs@.len() == 0 {
                0
            } else {
                (last_seqs@.len() - 1) as nat
            },
        ),
{
    let n = last_seqs.len();
    if n == 0 {
        return Vec::new();
    }
    let mut out: Vec<usize> = Vec::new();
    let mut i: usize = 0;
    while i < n - 1
        invariant
            n == last_seqs@.len(),
            n > 0,
            0 <= i <= n - 1,
            out@ == checkpointed_below(last_seqs@, last_checkpoint_seq, i as nat),
        decreases n - 1 - i,
    {
        let done = match last_seqs[i] {
            Some(s) => s <= last_checkpoint_seq,
            None => false,
        };
        if done {
            out.push(i);
        }
        i = i + 1;
    }
    out
}

/// Only fully checkpointed segments other than the newest are deleted:
/// each position given holds a last sequence number at most the
/// checkpoint, lies below the newest segment, and comes once, in order.
pub proof fn lemma_deletable_are_checkpointed(lasts: Seq<Option<u64>>, checkpoint: u64, k: nat)
    requires
        k <= lasts.len() <= usize::MAX,
    ensures
        forall|j: int|
            0 <= j < checkpointed_below(lasts, checkpoint, k).len() ==> {
                let p = #[trigger] checkpointed_below(lasts, checkpoint, k)[j];
                &&& p < k
                &&& checkpointed(lasts[p as int], checkpoint)
            },
        forall|a: int, b: int|
            0 <= a < b < checkpointed_below(lasts, checkpoint, k).len() ==> checkpointed_below(lasts, checkpoint, k)[a]
                < checkpointed_below(lasts, checkpoint, k)[b],
        forall|p: int|
            0 <= p < k && checkpointed(lasts[p], checkpoint) ==> checkpointed_below(lasts, checkpoint, k).contains(
                p as usize,
            ),
    decreases k,
{
    if k > 0 {
        lemma_deletable_are_checkpointed(lasts, checkpoint, (k - 1) as nat);
        let rest = checkpointed_below(lasts, checkpoint, (k - 1) as nat);
        let all = checkpointed_below(lasts, checkpoint, k);
        assert forall|p: int| 0 <= p < k && checkpointed(lasts[p], checkpoint) implies all.contains(p as usize) by {
            if p == k - 1 {
                assert(all[all.len() - 1] == p as usize);
            } else {
                let j = choose|j: int| 0 <= j < rest.len() && rest[j] == p as usize;
                assert(all[j] == rest[j]);
            }
        }
        assert forall|j: int| 0 <= j < all.len() implies {
            let p = #[trigger] all[j];
            &&& p < k
            &&& checkpointed(lasts[p as int], checkpoint)
        } by {
            if j < rest.len() {
                assert(all[j] == rest[j]);
            } else {
                assert(all[j] == (k - 1) as usize);
            }
        }
        assert forall|a: int, b: int| 0 <= a < b < all.len() implies all[a] < all[b] by {
            if b < rest.len() {
                assert(all[a] == rest[a] && all[b] == rest[b]);
            } else {
                assert(all[a] == rest[a]);
                assert(rest[a] < k - 1);
                assert(all[b] == (k - 1) as usize);
            }
        }
    }
}

} // verus!
