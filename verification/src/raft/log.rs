//! Raft log storage: the in-memory log of metadata operations.
//!
//! Each entry carries a `MetadataOp`. The store supports append,
//! truncation of a suffix and compaction of a prefix that a snapshot
//! covers. Writing the entries to `raft.log` under the data directory and
//! reading them back is the caller's part.
use crate::coordinator::metadata_catalog::MetadataOp;
use vstd::prelude::*;

verus! {

/// A single entry of the Raft log.
#[derive(Debug, Clone)]
pub struct RaftLogEntry {
    /// Raft term number.
    pub term: u64,
    /// Log index (monotonically increasing).
    pub index: u64,
    /// The metadata operation to apply.
    pub op: MetadataOp,
}

/// The entries of `s` whose index lies in `[lo, hi)`, in order.
pub open spec fn entries_in(s: Seq<RaftLogEntry>, lo: int, hi: int) -> Seq<RaftLogEntry>
    decreases s.len(),
{
    if s.len() == 0 {
        s
    } else {
        let rest = entries_in(s.drop_last(), lo, hi);
        if lo <= s.last().index < hi {
            rest.push(s.last())
        } else {
            rest
        }
    }
}

/// Nothing in range is lost: every entry of the log whose index lies in
/// `[lo, hi)` is among `entries_in(s, lo, hi)`; the result is as long as the
/// log exactly when every entry is in range, and then it is the log itself,
/// in the same order.
pub proof fn lemma_entries_in_complete(s: Seq<RaftLogEntry>, lo: int, hi: int)
    ensures
        forall|e: RaftLogEntry| s.contains(e) && lo <= e.index < hi ==> #[trigger] entries_in(s, lo, hi).contains(e),
        entries_in(s, lo, hi).len() == s.len() <==> forall|i: int| 0 <= i < s.len() ==> lo <= (#[trigger] s[i]).index < hi,
        (forall|i: int| 0 <= i < s.len() ==> lo <= (#[trigger] s[i]).index < hi) ==> entries_in(s, lo, hi) == s,
    decreases s.len(),
{
    if s.len() > 0 {
        let init = s.drop_last();
        lemma_entries_in_complete(init, lo, hi);
        lemma_entries_in_bounds(init, lo, hi);
        let r = entries_in(s, lo, hi);
        let r0 = entries_in(init, lo, hi);
        assert forall|e: RaftLogEntry| s.contains(e) && lo <= e.index < hi implies #[trigger] r.contains(e) by {
            let j = choose|j: int| 0 <= j < s.len() && s[j] == e;
            if j == s.len() - 1 {
                assert(r[r.len() - 1] == e);
            } else {
                assert(init[j] == e);
                assert(init.contains(e));
                assert(r0.contains(e));
                let k = choose|k: int| 0 <= k < r0.len() && r0[k] == e;
                assert(r[k] == e);
            }
        }
        if forall|i: int| 0 <= i < s.len() ==> lo <= (#[trigger] s[i]).index < hi {
            assert forall|i: int| 0 <= i < init.len() implies lo <= (#[trigger] init[i]).index < hi by {
                assert(init[i] == s[i]);
            }
            assert(s[s.len() - 1] == s.last());
            assert(r0 == init);
            assert(r == init.push(s.last()));
            assert(init.push(s.last()) =~= s);
        }
        if r.len() == s.len() {
            assert(lo <= s.last().index < hi);
            assert(r0.len() == init.len());
            assert forall|i: int| 0 <= i < s.len() implies lo <= (#[trigger] s[i]).index < hi by {
                if i < s.len() - 1 {
                    assert(init[i] == s[i]);
                }
            }
        }
    }
}

/// Every entry of `entries_in(s, lo, hi)` has its index in `[lo, hi)` and
/// comes from `s`.
pub proof fn lemma_entries_in_bounds(s: Seq<RaftLogEntry>, lo: int, hi: int)
    ensures
        entries_in(s, lo, hi).len() <= s.len(),
        forall|i: int|
            0 <= i < entries_in(s, lo, hi).len() ==> lo <= (#[trigger] entries_in(s, lo, hi)[i]).index < hi
                && s.contains(entries_in(s, lo, hi)[i]),
    decreases s.len(),
{
    if s.len() > 0 {
        let init = s.drop_last();
        lemma_entries_in_bounds(init, lo, hi);
        let r = entries_in(s, lo, hi);
        let r0 = entries_in(init, lo, hi);
        assert forall|i: int| 0 <= i < r.len() implies lo <= (#[trigger] r[i]).index < hi && s.contains(r[i]) by {
            if i < r0.len() {
                assert(r[i] == r0[i]);
                let j = choose|j: int| 0 <= j < init.len() && init[j] == r0[i];
                assert(s[j] == init[j]);
            } else {
                assert(r[i] == s.last());
                assert(s[s.len() - 1] == s.last());
            }
        }
    }
}

/// The entries of `s` whose index lies in `[lo, hi)`, in order.
fn keep_in_range(s: Vec<RaftLogEntry>, lo: u64, hi: u128) -> (r: Vec<RaftLogEntry>)
    ensures
        r@ == entries_in(s@, lo as int, hi as int),
{
    let ghost all = s@;
    let mut out: Vec<RaftLogEntry> = Vec::new();
    for e in it: s
        invariant
            it.seq() == all,
            out@ == entries_in(all.subrange(0, it.index() as int), lo as int, hi as int),
    {
        let ghost i = it.index();
        proof {
            assert(e == all[i as int]);
            assert(all.subrange(0, i + 1).drop_last() == all.subrange(0, i as int));
            assert(all.subrange(0, i + 1).last() == e);
        }
        if lo <= e.index && (e.index as u128) < hi {
            out.push(e);
        }
    }
    proof {
        assert(all.subrange(0, all.len() as int) == all);
    }
    out
}

/// The Raft log of a Coordinator.
pub struct RaftLogStore {
    /// Directory where the log file is kept.
    data_dir: String,
    /// The log entries, loaded at startup and appended at runtime.
    entries: Vec<RaftLogEntry>,
    /// Index of the last compacted entry (earlier ones are in a snapshot).
    compacted_index: u64,
}

impl RaftLogStore {
    /// The entries held.
    pub closed spec fn log(&self) -> Seq<RaftLogEntry> {
        self.entries@
    }

    /// The index up to which the log was compacted.
    pub closed spec fn compacted(&self) -> u64 {
        self.compacted_index
    }

    /// The directory of the log file.
    pub closed spec fn dir(&self) -> Seq<char> {
        self.data_dir@
    }

    /// An empty log kept under `data_dir`.
    pub fn new(data_dir: String) -> (r: RaftLogStore)
        ensures
            r.log() == Seq::<RaftLogEntry>::empty(),
            r.compacted() == 0,
            r.dir() == data_dir@,
    {
        RaftLogStore { data_dir, entries: Vec::new(), compacted_index: 0 }
    }

    /// The directory of the log file.
    pub fn data_dir(&self) -> (r: &str)
        ensures
            r@ == self.dir(),
    {
        self.data_dir.as_str()
    }

    /// Takes the entries read from disk at startup as the log.
    pub fn load(&mut self, entries: Vec<RaftLogEntry>)
        ensures
            final(self).log() == entries@,
            final(self).compacted() == old(self).compacted(),
            final(self).dir() == old(self).dir(),
    {
        self.entries = entries;
    }

    /// Appends entries to the log, in order.
    pub fn append(&mut self, entries: Vec<RaftLogEntry>)
        ensures
            final(self).log() == old(self).log() + entries@,
            final(self).compacted() == old(self).compacted(),
            final(self).dir() == old(self).dir(),
    {
        let mut more = entries;
        self.entries.append(&mut more);
    }

    /// Truncates the log: every entry with index `>= from_index` is removed.
    pub fn truncate(&mut self, from_index: u64)
        ensures
            final(self).log() == entries_in(old(self).log(), 0, from_index as int),
            final(self).compacted() == old(self).compacted(),
            final(self).dir() == old(self).dir(),
    {
        let mut taken: Vec<RaftLogEntry> = Vec::new();
        std::mem::swap(&mut taken, &mut self.entries);
        self.entries = keep_in_range(taken, 0, from_index as u128);
    }

    /// The entries whose index lies in `[start, end)`, in log order.
    pub fn get_entries(&self, start: u64, end: u64) -> (r: Vec<&RaftLogEntry>)
        ensures
            r@.len() == entries_in(self.log(), start as int, end as int).len(),
            forall|i: int|
                0 <= i < r@.len() ==> *(#[trigger] r@[i]) == entries_in(self.log(), start as int, end as int)[i],
    {
        let mut out: Vec<&RaftLogEntry> = Vec::new();
        let n = self.entries.len();
        let mut i: usize = 0;
        while i < n
            invariant
                n == self.entries@.len(),
                0 <= i <= n,
                out@.len() == entries_in(self.entries@.subrange(0, i as int), start as int, end as int).len(),
                forall|j: int|
                    0 <= j < out@.len() ==> *(#[trigger] out@[j]) == entries_in(
                        self.entries@.subrange(0, i as int),
                        start as int,
                        end as int,
                    )[j],
            decreases n - i,
        {
            let e = &self.entries[i];
            proof {
                let s = self.entries@.subrange(0, i + 1);
                assert(s.drop_last() =~= self.entries@.subrange(0, i as int));
                assert(s.last() == *e);
            }
            if start <= e.index && e.index < end {
                out.push(e);
            }
            i = i + 1;
        }
        proof {
            assert(self.entries@.subrange(0, n as int) =~= self.entries@);
        }
        out
    }

    /// The last entry of the log, if any.
    pub fn last_entry(&self) -> (r: Option<&RaftLogEntry>)
        ensures
            match r {
                Some(e) => self.log().len() > 0 && *e == self.log().last(),
                None => self.log().len() == 0,
            },
    {
        if self.entries.len() == 0 {
            None
        } else {
            Some(&self.entries[self.entries.len() - 1])
        }
    }

    /// Compacts the log: every entry with index `<= up_to` is removed (a
    /// snapshot covers it) and `up_to` becomes the compacted index.
    pub fn compact(&mut self, up_to: u64)
        ensures
            final(self).log() == entries_in(old(self).log(), up_to + 1, u64::MAX + 1),
            final(self).compacted() == up_to,
            final(self).dir() == old(self).dir(),
    {
        let mut taken: Vec<RaftLogEntry> = Vec::new();
        std::mem::swap(&mut taken, &mut self.entries);
        let lo: u64 = if up_to == u64::MAX {
            0
        } else {
            up_to + 1
        };
        if up_to == u64::MAX {
            self.entries = keep_in_range(taken, lo, 0);
            proof {
                lemma_entries_in_empty(old(self).entries@, up_to as int + 1, u64::MAX as int + 1);
                lemma_entries_in_empty(old(self).entries@, 0, 0);
            }
        } else {
            self.entries = keep_in_range(taken, lo, u64::MAX as u128 + 1);
        }
        self.compacted_index = up_to;
    }
}

/// No index lies in an empty range.
pub proof fn lemma_entries_in_empty(s: Seq<RaftLogEntry>, lo: int, hi: int)
    requires
        hi <= lo,
    ensures
        entries_in(s, lo, hi) == Seq::<RaftLogEntry>::empty(),
    decreases s.len(),
{
    if s.len() > 0 {
        lemma_entries_in_empty(s.drop_last(), lo, hi);
    }
}

/// After a truncation at `from_index` every entry left has an index below
/// it; after a compaction up to `up_to` every entry left has an index
/// above it; and both keep only entries the log held.
pub proof fn lemma_truncate_compact_bounds(s: Seq<RaftLogEntry>, from_index: u64, up_to: u64)
    ensures
        forall|i: int|
            0 <= i < entries_in(s, 0, from_index as int).len() ==> (#[trigger] entries_in(
                s,
                0,
                from_index as int,
            )[i]).index < from_index && s.contains(entries_in(s, 0, from_index as int)[i]),
        forall|i: int|
            0 <= i < entries_in(s, up_to + 1, u64::MAX + 1).len() ==> (#[trigger] entries_in(
                s,
                up_to + 1,
                u64::MAX + 1,
            )[i]).index > up_to && s.contains(entries_in(s, up_to + 1, u64::MAX + 1)[i]),
{
    lemma_entries_in_bounds(s, 0, from_index as int);
    lemma_entries_in_bounds(s, up_to + 1, u64::MAX + 1);
}

} // verus!
