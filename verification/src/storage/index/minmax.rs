//! MinMax index: per-column min/max values for Part-level pruning.
//!
//! Covers every column; enables range-predicate pruning at the file level
//! before any column data is read.
use vstd::bytes::*;
use vstd::prelude::*;
use vstd::slice::slice_subrange;

use crate::common::error::RutSeriError;

verus! {

/// Serialized size of one entry: col_idx (2B) + min (8B) + max (8B).
pub const MINMAX_ENTRY_SIZE: usize = 18;

/// A single min/max entry for one column.
#[derive(Debug, Clone)]
pub struct MinMaxEntry {
    /// Column index within the Part.
    pub col_idx: u16,
    /// Column name (for predicate matching).
    pub col_name: String,
    /// Minimum value, encoded as u64 bits.
    pub min_val: u64,
    /// Maximum value, encoded as u64 bits.
    pub max_val: u64,
}

/// MinMax index for all columns in a Part file.
#[derive(Debug, Clone)]
pub struct MinMaxIndex {
    pub entries: Vec<MinMaxEntry>,
}

/// The first entry for column `name`, if any.
pub open spec fn find_entry(entries: Seq<MinMaxEntry>, name: Seq<char>) -> Option<MinMaxEntry>
    decreases entries.len(),
{
    if entries.len() == 0 {
        None
    } else if entries[0].col_name@ == name {
        Some(entries[0])
    } else {
        find_entry(entries.drop_first(), name)
    }
}

/// Whether a Part whose column (if indexed) spans the recorded range may
/// hold a value in `[query_min, query_max]`.
pub open spec fn range_may_overlap(entries: Seq<MinMaxEntry>, name: Seq<char>, query_min: u64, query_max: u64) -> bool {
    match find_entry(entries, name) {
        Some(e) => !(e.max_val < query_min || e.min_val > query_max),
        None => true,
    }
}

/// The 18 bytes of one serialized entry.
pub open spec fn entry_bytes(col_idx: u16, min_val: u64, max_val: u64) -> Seq<u8> {
    spec_u16_to_le_bytes(col_idx) + spec_u64_to_le_bytes(min_val) + spec_u64_to_le_bytes(max_val)
}

/// Entry `i` of a serialized index, as `(col_idx, min, max)`.
pub open spec fn parsed_entry(data: Seq<u8>, i: int) -> (u16, u64, u64) {
    let off = MINMAX_ENTRY_SIZE * i;
    (
        spec_u16_from_le_bytes(data.subrange(off, off + 2)),
        spec_u64_from_le_bytes(data.subrange(off + 2, off + 10)),
        spec_u64_from_le_bytes(data.subrange(off + 10, off + 18)),
    )
}

impl MinMaxIndex {
    /// An empty index.
    pub fn new() -> (r: MinMaxIndex)
        ensures
            r.entries@.len() == 0,
    {
        MinMaxIndex { entries: Vec::new() }
    }

    /// Add a min/max entry for a column.
    pub fn add_entry(&mut self, col_idx: u16, col_name: String, min_val: u64, max_val: u64)
        ensures
            final(self).entries@ == old(self).entries@.push(
                MinMaxEntry { col_idx, col_name, min_val, max_val },
            ),
    {
        self.entries.push(MinMaxEntry { col_idx, col_name, min_val, max_val });
    }

    /// Whether a range predicate on a column can be satisfied.
    ///
    /// Returns `false` if the Part can be skipped: the column's recorded
    /// range lies wholly below `query_min` or above `query_max`. Returns
    /// `true` otherwise, and for a column the index does not cover.
    pub fn may_contain_range(&self, col_name: &str, query_min: u64, query_max: u64) -> (r: bool)
        ensures
            r == range_may_overlap(self.entries@, col_name@, query_min, query_max),
    {
        let n = self.entries.len();
        let mut i: usize = 0;
        proof {
            assert(self.entries@.subrange(0, n as int) == self.entries@);
        }
        while i < n
            invariant
                n == self.entries@.len(),
                0 <= i <= n,
                find_entry(self.entries@, col_name@) == find_entry(
                    self.entries@.subrange(i as int, n as int),
                    col_name@,
                ),
            decreases n - i,
        {
            let ghost rest = self.entries@.subrange(i as int, n as int);
            proof {
                assert(rest.drop_first() == self.entries@.subrange(i + 1, n as int));
            }
            let e = &self.entries[i];
            if e.col_name.as_str().eq(col_name) {
                return !(e.max_val < query_min || e.min_val > query_max);
            }
            i = i + 1;
        }
        true
    }

    /// Serialize the index: for each entry, col_idx (2B) + min (8B) +
    /// max (8B), little-endian.
    pub fn to_bytes(&self) -> (r: Vec<u8>)
        ensures
            r@.len() == MINMAX_ENTRY_SIZE * self.entries@.len(),
            forall|i: int|
                0 <= i < self.entries@.len() ==> r@.subrange(
                    MINMAX_ENTRY_SIZE * i,
                    MINMAX_ENTRY_SIZE * i + MINMAX_ENTRY_SIZE,
                ) == entry_bytes(
                    #[trigger] self.entries@[i].col_idx,
                    self.entries@[i].min_val,
                    self.entries@[i].max_val,
                ),
    {
        let n = self.entries.len();
        let mut out: Vec<u8> = Vec::new();
        let mut i: usize = 0;
        while i < n
            invariant
                n == self.entries@.len(),
                0 <= i <= n,
                out@.len() == MINMAX_ENTRY_SIZE * i,
                forall|j: int|
                    0 <= j < i ==> out@.subrange(
                        MINMAX_ENTRY_SIZE * j,
                        MINMAX_ENTRY_SIZE * j + MINMAX_ENTRY_SIZE,
                    ) == entry_bytes(
                        #[trigger] self.entries@[j].col_idx,
                        self.entries@[j].min_val,
                        self.entries@[j].max_val,
                    ),
            decreases n - i,
        {
            let e = &self.entries[i];
            let ghost before = out@;
            let mut a = u16_to_le_bytes(e.col_idx);
            let mut b = u64_to_le_bytes(e.min_val);
            let mut c = u64_to_le_bytes(e.max_val);
            proof {
                lemma_auto_spec_u64_to_from_le_bytes();
            }
            out.append(&mut a);
            out.append(&mut b);
            out.append(&mut c);
            proof {
                assert(out@ == before + entry_bytes(e.col_idx, e.min_val, e.max_val));
                assert forall|j: int| 0 <= j < i + 1 implies out@.subrange(
                    MINMAX_ENTRY_SIZE * j,
                    MINMAX_ENTRY_SIZE * j + MINMAX_ENTRY_SIZE,
                ) == entry_bytes(
                    #[trigger] self.entries@[j].col_idx,
                    self.entries@[j].min_val,
                    self.entries@[j].max_val,
                ) by {
                    if j < i {
                        assert(out@.subrange(MINMAX_ENTRY_SIZE * j, MINMAX_ENTRY_SIZE * j + MINMAX_ENTRY_SIZE)
                            =~= before.subrange(MINMAX_ENTRY_SIZE * j, MINMAX_ENTRY_SIZE * j + MINMAX_ENTRY_SIZE));
                    } else {
                        assert(out@.subrange(MINMAX_ENTRY_SIZE * j, MINMAX_ENTRY_SIZE * j + MINMAX_ENTRY_SIZE)
                            =~= entry_bytes(e.col_idx, e.min_val, e.max_val));
                    }
                }
            }
            i = i + 1;
        }
        out
    }

    /// Deserialize `num_columns` entries from bytes.
    ///
    /// Fails with `InvalidPartFile` when `data` is shorter than
    /// `18 * num_columns` bytes. Column names are not serialized; the
    /// entries come back with empty names.
    pub fn from_bytes(data: &[u8], num_columns: u32) -> (r: Result<MinMaxIndex, RutSeriError>)
        ensures
            match r {
                Ok(idx) => {
                    &&& data@.len() >= MINMAX_ENTRY_SIZE * num_columns
                    &&& idx.entries@.len() == num_columns
                    &&& forall|i: int|
                        0 <= i < num_columns ==> {
                            let e = #[trigger] idx.entries@[i];
                            &&& (e.col_idx, e.min_val, e.max_val) == parsed_entry(data@, i)
                            &&& e.col_name@.len() == 0
                        }
                },
                Err(e) => data@.len() < MINMAX_ENTRY_SIZE * num_columns && e is InvalidPartFile,
            },
    {
        let n = num_columns as usize;
        let len = data.len();
        if (len as u64) < 18u64 * (num_columns as u64) {
            return Err(RutSeriError::InvalidPartFile("MinMax index section is too short".to_owned()));
        }
        let mut entries: Vec<MinMaxEntry> = Vec::new();
        let mut i: usize = 0;
        while i < n
            invariant
                n == num_columns,
                len == data@.len(),
                data@.len() >= MINMAX_ENTRY_SIZE * n,
                0 <= i <= n,
                entries@.len() == i,
                forall|j: int|
                    0 <= j < i ==> {
                        let e = #[trigger] entries@[j];
                        &&& (e.col_idx, e.min_val, e.max_val) == parsed_entry(data@, j)
                        &&& e.col_name@.len() == 0
                    },
            decreases n - i,
        {
            assert(18 * i + 18 <= 18 * n);
            let off = 18 * i;
            let col_idx = u16_from_le_bytes(slice_subrange(data, off, off + 2));
            let min_val = u64_from_le_bytes(slice_subrange(data, off + 2, off + 10));
            let max_val = u64_from_le_bytes(slice_subrange(data, off + 10, off + 18));
            entries.push(MinMaxEntry { col_idx, col_name: String::new(), min_val, max_val });
            i = i + 1;
        }
        Ok(MinMaxIndex { entries })
    }
}

/// Reading back a serialized index gives every entry's column index and
/// range.
pub proof fn lemma_minmax_roundtrip(entries: Seq<MinMaxEntry>, bytes: Seq<u8>)
    requires
        bytes.len() == MINMAX_ENTRY_SIZE * entries.len(),
        forall|i: int|
            0 <= i < entries.len() ==> bytes.subrange(
                MINMAX_ENTRY_SIZE * i,
                MINMAX_ENTRY_SIZE * i + MINMAX_ENTRY_SIZE,
            ) == entry_bytes(#[trigger] entries[i].col_idx, entries[i].min_val, entries[i].max_val),
    ensures
        forall|i: int|
            0 <= i < entries.len() ==> parsed_entry(bytes, i) == (
                #[trigger] entries[i].col_idx,
                entries[i].min_val,
                entries[i].max_val,
            ),
{
    lemma_auto_spec_u16_to_from_le_bytes();
    lemma_auto_spec_u64_to_from_le_bytes();
    assert forall|i: int| 0 <= i < entries.len() implies parsed_entry(bytes, i) == (
        #[trigger] entries[i].col_idx,
        entries[i].min_val,
        entries[i].max_val,
    ) by {
        let off = MINMAX_ENTRY_SIZE * i;
        let chunk = bytes.subrange(off, off + 18);
        let e = entries[i];
        assert(chunk == entry_bytes(e.col_idx, e.min_val, e.max_val));
        assert(bytes.subrange(off, off + 2) =~= chunk.subrange(0, 2));
        assert(bytes.subrange(off + 2, off + 10) =~= chunk.subrange(2, 10));
        assert(bytes.subrange(off + 10, off + 18) =~= chunk.subrange(10, 18));
        assert(chunk.subrange(0, 2) =~= spec_u16_to_le_bytes(e.col_idx));
        assert(chunk.subrange(2, 10) =~= spec_u64_to_le_bytes(e.min_val));
        assert(chunk.subrange(10, 18) =~= spec_u64_to_le_bytes(e.max_val));
    }
}

} // verus!
