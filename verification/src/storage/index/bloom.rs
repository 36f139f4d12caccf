//! Bloom filters: per-column equality-predicate pruning.
//!
//! A filter is a bit array of `8 * bits.len()` bits probed at `k`
//! positions per value, by double hashing: position `i` of value `v` is
//! `(h1 + i * h2) mod m` (wrapping u64 arithmetic), with `h1` and `h2` the
//! XXH64 digests of `v` under two seeds. A filter never answers "absent"
//! for a value that was inserted.
use vstd::bytes::*;
use vstd::prelude::*;
use vstd::slice::{slice_subrange, slice_to_vec};
use vstd::utf8::{decode_utf8, encode_utf8, valid_utf8};

use crate::common::error::RutSeriError;
use crate::common::hash::{push_all, xxh64_hash, xxh64_of};
use crate::common::types::string_from_utf8;

verus! {

/// Seed of the second hash of the double-hashing scheme.
pub const BLOOM_SECOND_SEED: u64 = 0x9E37_79B9_7F4A_7C15;

/// The largest bit array, in bytes, whose bit count fits a u64.
pub const MAX_BLOOM_BYTES: u64 = 0x1FFF_FFFF_FFFF_FFFF;

/// Whether bit `k` (0..8) of `byte` is set.
pub open spec fn byte_has_bit(byte: u8, k: u64) -> bool {
    byte & (1u8 << (k as u8)) != 0
}

/// Whether bit `p` of the bit array is set (bit `p % 8` of byte `p / 8`).
pub open spec fn bit_is_set(bits: Seq<u8>, p: u64) -> bool {
    byte_has_bit(bits[(p / 8) as int], p % 8)
}

/// Probe position `i` of a value with digests `h1`, `h2` in `m` bits.
pub open spec fn probe_position(h1: u64, h2: u64, i: u64, m: u64) -> u64
    recommends
        m > 0,
{
    h1.wrapping_add(i.wrapping_mul(h2)) % m
}

/// Probe position `i` of `value` in a filter of `m` bits.
pub open spec fn value_position(value: Seq<u8>, i: u64, m: u64) -> u64 {
    probe_position(xxh64_of(value, 0), xxh64_of(value, BLOOM_SECOND_SEED), i, m)
}

/// Whether `p` is one of the first `k` probe positions of `value`.
pub open spec fn is_probe_of(value: Seq<u8>, k: u64, m: u64, p: u64) -> bool {
    exists|i: u64| i < k && value_position(value, i, m) == p
}

/// A single Bloom filter for one column.
#[derive(Debug, Clone)]
pub struct BloomFilter {
    /// Column name this filter covers.
    pub col_name: String,
    /// The bit array.
    bits: Vec<u8>,
    /// Number of hash functions (k).
    num_hashes: u32,
}

impl BloomFilter {
    /// The bit array.
    pub closed spec fn bit_bytes(&self) -> Seq<u8> {
        self.bits@
    }

    /// The characters of the covered column's name.
    pub closed spec fn column_name(&self) -> Seq<char> {
        self.col_name@
    }

    /// Number of probe positions per value.
    pub closed spec fn hash_count(&self) -> u32 {
        self.num_hashes
    }

    /// Number of bits of the filter.
    pub open spec fn bit_count(&self) -> u64 {
        (8 * self.bit_bytes().len()) as u64
    }

    /// The filter's shape is sound: a non-empty bit array whose bit count
    /// fits a u64.
    pub open spec fn wf(&self) -> bool {
        &&& 1 <= self.bit_bytes().len() <= MAX_BLOOM_BYTES
    }

    /// Whether `value` may be in the set: all its probe bits are set.
    pub open spec fn may_contain_spec(&self, value: Seq<u8>) -> bool {
        forall|i: u64|
            i < self.hash_count() ==> bit_is_set(
                self.bit_bytes(),
                #[trigger] value_position(value, i, self.bit_count()),
            )
    }

    /// `after` is `self` with the probe bits of `value` set, and nothing
    /// else changed.
    pub closed spec fn inserted(&self, after: BloomFilter, value: Seq<u8>) -> bool {
        &&& after.col_name == self.col_name
        &&& after.hash_count() == self.hash_count()
        &&& after.bit_bytes().len() == self.bit_bytes().len()
        &&& forall|p: u64|
            p < self.bit_count() ==> (#[trigger] bit_is_set(after.bit_bytes(), p) <==> (bit_is_set(
                self.bit_bytes(),
                p,
            ) || is_probe_of(value, self.hash_count() as u64, self.bit_count(), p)))
    }

    /// An empty filter of `num_bytes` bytes (8 bits each) probed at
    /// `num_hashes` positions per value.
    ///
    /// The sizing from an expected item count and a false-positive rate is
    /// done by the caller.
    pub fn with_size(col_name: String, num_bytes: usize, num_hashes: u32) -> (r: BloomFilter)
        requires
            1 <= num_bytes <= MAX_BLOOM_BYTES,
        ensures
            r.wf(),
            r.column_name() == col_name@,
            r.hash_count() == num_hashes,
            r.bit_bytes() == Seq::new(num_bytes as nat, |i: int| 0u8),
    {
        let bits = vec![0u8; num_bytes];
        proof {
            assert(bits@ =~= Seq::new(num_bytes as nat, |i: int| 0u8));
        }
        BloomFilter { col_name, bits, num_hashes }
    }

    /// Insert a value into the Bloom filter.
    pub fn insert(&mut self, value: &[u8])
        requires
            old(self).wf(),
        ensures
            final(self).wf(),
            old(self).inserted(*final(self), value@),
    {
        let m: u64 = (self.bits.len() as u64) * 8;
        let h1 = xxh64_hash(value, 0);
        let h2 = xxh64_hash(value, BLOOM_SECOND_SEED);
        let k = self.num_hashes as u64;
        let ghost start = self.bits@;
        let mut i: u64 = 0;
        while i < k
            invariant
                self.wf(),
                m == self.bit_count(),
                k == self.hash_count(),
                h1 == xxh64_of(value@, 0),
                h2 == xxh64_of(value@, BLOOM_SECOND_SEED),
                self.bits@.len() == start.len(),
                0 <= i <= k,
                self.col_name == old(self).col_name,
                self.num_hashes == old(self).num_hashes,
                start == old(self).bits@,
                forall|p: u64|
                    p < m ==> (#[trigger] bit_is_set(self.bits@, p) <==> (bit_is_set(start, p)
                        || exists|j: u64| j < i && value_position(value@, j, m) == p)),
            decreases k - i,
        {
            let pos = h1.wrapping_add(i.wrapping_mul(h2)) % m;
            let ghost before = self.bits@;
            set_bit(&mut self.bits, pos);
            proof {
                assert forall|p: u64| p < m implies (#[trigger] bit_is_set(self.bits@, p) <==> (
                bit_is_set(start, p) || exists|j: u64| j < i + 1 && value_position(value@, j, m) == p))
                    by {
                    if p == pos {
                        assert(value_position(value@, i, m) == p);
                    } else {
                        assert(bit_is_set(self.bits@, p) == bit_is_set(before, p));
                        if exists|j: u64| j < i + 1 && value_position(value@, j, m) == p {
                            let j = choose|j: u64| j < i + 1 && value_position(value@, j, m) == p;
                            assert(j < i);
                        }
                    }
                }
            }
            i = i + 1;
        }
    }

    /// Whether the filter's shape is sound (`wf`): its bit array is
    /// non-empty and its bit count fits a u64.
    pub fn is_well_formed(&self) -> (r: bool)
        ensures
            r == self.wf(),
    {
        1 <= self.bits.len() && (self.bits.len() as u64) <= MAX_BLOOM_BYTES
    }

    /// Whether a value may be in the set.
    ///
    /// Returns `false` if the value is definitely not present (skip the
    /// Part), `true` if it might be present.
    pub fn may_contain(&self, value: &[u8]) -> (r: bool)
        requires
            self.wf(),
        ensures
            r == self.may_contain_spec(value@),
    {
        let m: u64 = (self.bits.len() as u64) * 8;
        let h1 = xxh64_hash(value, 0);
        let h2 = xxh64_hash(value, BLOOM_SECOND_SEED);
        let k = self.num_hashes as u64;
        let mut i: u64 = 0;
        while i < k
            invariant
                self.wf(),
                m == self.bit_count(),
                k == self.hash_count(),
                h1 == xxh64_of(value@, 0),
                h2 == xxh64_of(value@, BLOOM_SECOND_SEED),
                0 <= i <= k,
                forall|j: u64| j < i ==> bit_is_set(self.bits@, #[trigger] value_position(value@, j, m)),
            decreases k - i,
        {
            let pos = h1.wrapping_add(i.wrapping_mul(h2)) % m;
            if !get_bit(&self.bits, pos) {
                assert(value_position(value@, i, m) == pos);
                return false;
            }
            i = i + 1;
        }
        true
    }

    /// Serialize the filter: the hash count (4B LE), then the bit array.
    pub fn to_bytes(&self) -> (r: Vec<u8>)
        ensures
            r@ == spec_u32_to_le_bytes(self.hash_count()) + self.bit_bytes(),
    {
        let mut out = u32_to_le_bytes(self.num_hashes);
        let n = self.bits.len();
        let ghost head = out@;
        let mut i: usize = 0;
        while i < n
            invariant
                n == self.bits@.len(),
                0 <= i <= n,
                out@ == head + self.bits@.subrange(0, i as int),
            decreases n - i,
        {
            out.push(self.bits[i]);
            proof {
                assert(self.bits@.subrange(0, i + 1) == self.bits@.subrange(0, i as int).push(self.bits@[i as int]));
            }
            i = i + 1;
        }
        proof {
            assert(self.bits@.subrange(0, n as int) == self.bits@);
        }
        out
    }

    /// Deserialize a filter written by `to_bytes`.
    ///
    /// Fails with `InvalidPartFile` unless there is a 4-byte hash count
    /// followed by a bit array of 1 to `MAX_BLOOM_BYTES` bytes.
    pub fn from_bytes(col_name: String, data: &[u8]) -> (r: Result<BloomFilter, RutSeriError>)
        ensures
            match r {
                Ok(f) => {
                    &&& 5 <= data@.len() <= 4 + MAX_BLOOM_BYTES
                    &&& f.wf()
                    &&& f.column_name() == col_name@
                    &&& f.hash_count() == spec_u32_from_le_bytes(data@.subrange(0, 4))
                    &&& f.bit_bytes() == data@.subrange(4, data@.len() as int)
                },
                Err(e) => !(5 <= data@.len() <= 4 + MAX_BLOOM_BYTES) && e is InvalidPartFile,
            },
    {
        let len = data.len();
        if len < 5 || (len - 4) as u64 > MAX_BLOOM_BYTES {
            return Err(RutSeriError::InvalidPartFile("Bloom filter section has an invalid size".to_owned()));
        }
        let num_hashes = u32_from_le_bytes(slice_subrange(data, 0, 4));
        let mut bits: Vec<u8> = Vec::new();
        let mut i: usize = 4;
        while i < len
            invariant
                len == data@.len(),
                4 <= i <= len,
                bits@ == data@.subrange(4, i as int),
            decreases len - i,
        {
            bits.push(data[i]);
            proof {
                assert(data@.subrange(4, i + 1) == data@.subrange(4, i as int).push(data@[i as int]));
            }
            i = i + 1;
        }
        Ok(BloomFilter { col_name, bits, num_hashes })
    }
}

/// Whether bit `pos` of the array is set.
fn get_bit(bits: &Vec<u8>, pos: u64) -> (r: bool)
    requires
        pos < 8 * bits@.len(),
    ensures
        r == bit_is_set(bits@, pos),
{
    let len = bits.len();
    proof {
        lemma_bit_address(pos, bits@.len());
    }
    let idx = (pos / 8) as usize;
    assert(idx as int == (pos / 8) as int);
    let byte = bits[idx];
    let k = (pos % 8) as u8;
    byte & (1u8 << k) != 0
}

/// The byte index `p / 8` of an in-range bit lies inside the array, and
/// its bit index fits a u8.
proof fn lemma_bit_address(p: u64, len: nat)
    requires
        p < 8 * len,
    ensures
        (p / 8) < len,
        (p % 8) < 8,
        ((p % 8) as u8) as u64 == p % 8,
{
}

/// Sets bit `pos` of the array and no other.
fn set_bit(bits: &mut Vec<u8>, pos: u64)
    requires
        pos < 8 * old(bits)@.len(),
    ensures
        final(bits)@.len() == old(bits)@.len(),
        bit_is_set(final(bits)@, pos),
        forall|p: u64|
            p != pos && p < 8 * old(bits)@.len() ==> #[trigger] bit_is_set(final(bits)@, p)
                == bit_is_set(old(bits)@, p),
{
    let len = bits.len();
    proof {
        lemma_bit_address(pos, old(bits)@.len());
    }
    let idx = (pos / 8) as usize;
    assert(idx as int == (pos / 8) as int);
    let k = (pos % 8) as u8;
    let old_byte = bits[idx];
    let new_byte = old_byte | (1u8 << k);
    bits.set(idx, new_byte);
    proof {
        assert(new_byte & (1u8 << k) != 0) by (bit_vector)
            requires
                new_byte == old_byte | (1u8 << k),
                k < 8,
        ;
        assert(bits@[idx as int] == new_byte);
        assert(bit_is_set(bits@, pos));
        assert forall|p: u64| p != pos && p < 8 * old(bits)@.len() implies #[trigger] bit_is_set(
            bits@,
            p,
        ) == bit_is_set(old(bits)@, p) by {
            lemma_bit_address(p, old(bits)@.len());
            if p / 8 == pos / 8 {
                let j = (p % 8) as u8;
                assert(p % 8 != pos % 8);
                assert(j != k);
                lemma_other_bit_unchanged(old_byte, k, j);
            } else {
                assert(bits@[(p / 8) as int] == old(bits)@[(p / 8) as int]);
            }
        }
    }
}

proof fn lemma_other_bit_unchanged(b: u8, k: u8, j: u8)
    requires
        k < 8,
        j < 8,
        j != k,
    ensures
        ((b | (1u8 << k)) & (1u8 << j) != 0) == (b & (1u8 << j) != 0),
{
    assert(((b | (1u8 << k)) & (1u8 << j) != 0) == (b & (1u8 << j) != 0)) by (bit_vector)
        requires
            k < 8,
            j < 8,
            j != k,
    ;
}

/// No false negatives: once a value is inserted, the filter answers that
/// it may be present.
pub proof fn lemma_inserted_value_may_be_contained(before: BloomFilter, after: BloomFilter, value: Seq<u8>)
    requires
        before.wf(),
        before.inserted(after, value),
    ensures
        after.may_contain_spec(value),
{
    assert forall|i: u64| i < after.hash_count() implies bit_is_set(
        after.bit_bytes(),
        #[trigger] value_position(value, i, after.bit_count()),
    ) by {
        let m = before.bit_count();
        assert(value_position(value, i, m) < m);
        assert(is_probe_of(value, before.hash_count() as u64, m, value_position(value, i, m)));
    }
}

/// Inserting never loses a value: whatever the filter may contain before
/// an insert, it may still contain after it.
pub proof fn lemma_insert_keeps_members(
    before: BloomFilter,
    after: BloomFilter,
    inserted: Seq<u8>,
    other: Seq<u8>,
)
    requires
        before.wf(),
        before.inserted(after, inserted),
        before.may_contain_spec(other),
    ensures
        after.may_contain_spec(other),
{
    assert forall|i: u64| i < after.hash_count() implies bit_is_set(
        after.bit_bytes(),
        #[trigger] value_position(other, i, after.bit_count()),
    ) by {
        let m = before.bit_count();
        assert(bit_is_set(before.bit_bytes(), value_position(other, i, m)));
    }
}

/// No false negatives after any number of inserts: along a chain of
/// inserts from a sound filter, the last filter may contain every value
/// inserted on the way.
pub proof fn lemma_inserted_values_stay(filters: Seq<BloomFilter>, values: Seq<Seq<u8>>)
    requires
        filters.len() == values.len() + 1,
        filters[0].wf(),
        forall|i: int| 0 <= i < values.len() ==> (#[trigger] filters[i]).inserted(filters[i + 1], values[i]),
    ensures
        filters.last().wf(),
        forall|j: int| 0 <= j < values.len() ==> filters.last().may_contain_spec(#[trigger] values[j]),
    decreases values.len(),
{
    if values.len() > 0 {
        let n = values.len();
        let fs = filters.drop_last();
        let vs = values.drop_last();
        assert forall|i: int| 0 <= i < vs.len() implies (#[trigger] fs[i]).inserted(fs[i + 1], vs[i]) by {
            assert(fs[i] == filters[i] && fs[i + 1] == filters[i + 1] && vs[i] == values[i]);
        }
        lemma_inserted_values_stay(fs, vs);
        let prev = filters[n - 1];
        assert(fs.last() == prev);
        assert(prev.inserted(filters[n as int], values[n - 1]));
        assert forall|j: int| 0 <= j < values.len() implies filters.last().may_contain_spec(#[trigger] values[j]) by {
            if j == n - 1 {
                lemma_inserted_value_may_be_contained(prev, filters.last(), values[j]);
            } else {
                assert(vs[j] == values[j]);
                lemma_insert_keeps_members(prev, filters.last(), values[n - 1], values[j]);
            }
        }
    }
}

/// Reading back a serialized filter gives the same filter.
pub proof fn lemma_bloom_roundtrip(f: BloomFilter, bytes: Seq<u8>, g: BloomFilter)
    requires
        f.wf(),
        bytes == spec_u32_to_le_bytes(f.hash_count()) + f.bit_bytes(),
        g.hash_count() == spec_u32_from_le_bytes(bytes.subrange(0, 4)),
        g.bit_bytes() == bytes.subrange(4, bytes.len() as int),
    ensures
        g.hash_count() == f.hash_count(),
        g.bit_bytes() == f.bit_bytes(),
        5 <= bytes.len() <= 4 + MAX_BLOOM_BYTES,
{
    lemma_auto_spec_u32_to_from_le_bytes();
    assert(bytes.subrange(0, 4) =~= spec_u32_to_le_bytes(f.hash_count()));
    assert(bytes.subrange(4, bytes.len() as int) =~= f.bit_bytes());
}


// ── Filter sets ──────────────────────────────────────────────────────

/// What a serialized filter carries: column name, hash count, bit array.
pub type FilterView = (Seq<char>, u32, Seq<u8>);

/// The view of a filter.
pub open spec fn filter_view(f: BloomFilter) -> FilterView {
    (f.column_name(), f.hash_count(), f.bit_bytes())
}

/// One filter's block in a serialized set: name length (8B) + name
/// (UTF-8) + filter length (8B) + the filter's `to_bytes`.
pub open spec fn filter_block(f: BloomFilter) -> Seq<u8> {
    let nb = encode_utf8(f.column_name());
    let fb = spec_u32_to_le_bytes(f.hash_count()) + f.bit_bytes();
    spec_u64_to_le_bytes(nb.len() as u64) + nb + spec_u64_to_le_bytes(fb.len() as u64) + fb
}

/// The blocks of `fs`, in order.
pub open spec fn filter_blocks(fs: Seq<BloomFilter>) -> Seq<u8>
    decreases fs.len(),
{
    if fs.len() == 0 {
        Seq::empty()
    } else {
        filter_block(fs[0]) + filter_blocks(fs.drop_first())
    }
}

/// A serialized set: the filter count (8B) and then the blocks.
pub open spec fn set_bytes(fs: Seq<BloomFilter>) -> Seq<u8> {
    spec_u64_to_le_bytes(fs.len() as u64) + filter_blocks(fs)
}

/// The filter a block at the start of `d` holds, and the block's length.
pub open spec fn parse_block(d: Seq<u8>) -> Option<(FilterView, int)> {
    if d.len() < 8 {
        None
    } else {
        let nlen = spec_u64_from_le_bytes(d.subrange(0, 8)) as int;
        if d.len() < nlen + 16 {
            None
        } else {
            let nb = d.subrange(8, 8 + nlen);
            let flen = spec_u64_from_le_bytes(d.subrange(8 + nlen, 16 + nlen)) as int;
            if !valid_utf8(nb) || d.len() < 16 + nlen + flen || flen < 5 || flen > 4 + MAX_BLOOM_BYTES {
                None
            } else {
                let fb = d.subrange(16 + nlen, 16 + nlen + flen);
                Some(
                    (
                        (decode_utf8(nb), spec_u32_from_le_bytes(fb.subrange(0, 4)), fb.subrange(4, flen)),
                        16 + nlen + flen,
                    ),
                )
            }
        }
    }
}

/// The `count` filters that `d` holds, block after block, with nothing
/// left over.
pub open spec fn parse_blocks(d: Seq<u8>, count: nat) -> Option<Seq<FilterView>>
    decreases count,
{
    if count == 0 {
        if d.len() == 0 {
            Some(Seq::empty())
        } else {
            None
        }
    } else {
        match parse_block(d) {
            None => None,
            Some((f, used)) => match parse_blocks(d.subrange(used, d.len() as int), (count - 1) as nat) {
                None => None,
                Some(rest) => Some(seq![f] + rest),
            },
        }
    }
}

/// The filters a serialized set holds.
pub open spec fn parse_set(d: Seq<u8>) -> Option<Seq<FilterView>> {
    if d.len() < 8 {
        None
    } else {
        parse_blocks(d.subrange(8, d.len() as int), spec_u64_from_le_bytes(d.subrange(0, 8)) as nat)
    }
}

/// `prefix` followed by what `rest` holds, if it holds anything.
pub open spec fn prepend_views(prefix: Seq<FilterView>, rest: Option<Seq<FilterView>>) -> Option<Seq<FilterView>> {
    match rest {
        None => None,
        Some(r) => Some(prefix + r),
    }
}

/// A collection of Bloom filters for all indexed columns in a Part.
#[derive(Debug, Clone)]
pub struct BloomFilterSet {
    pub filters: Vec<BloomFilter>,
}

/// The first filter for column `name`, if any.
pub open spec fn find_filter(fs: Seq<BloomFilter>, name: Seq<char>) -> Option<BloomFilter>
    decreases fs.len(),
{
    if fs.len() == 0 {
        None
    } else if fs[0].column_name() == name {
        Some(fs[0])
    } else {
        find_filter(fs.drop_first(), name)
    }
}

impl BloomFilterSet {
    /// An empty set.
    pub fn new() -> (r: BloomFilterSet)
        ensures
            r.filters@.len() == 0,
    {
        BloomFilterSet { filters: Vec::new() }
    }

    /// Add a filter for a column.
    pub fn add(&mut self, filter: BloomFilter)
        ensures
            final(self).filters@ == old(self).filters@.push(filter),
    {
        self.filters.push(filter);
    }

    /// The filter for a specific column; `None` if the column is not
    /// indexed.
    pub fn get(&self, col_name: &str) -> (r: Option<&BloomFilter>)
        ensures
            match r {
                Some(f) => find_filter(self.filters@, col_name@) == Some(*f),
                None => find_filter(self.filters@, col_name@) is None,
            },
    {
        let n = self.filters.len();
        let mut i: usize = 0;
        proof {
            assert(self.filters@.subrange(0, n as int) == self.filters@);
        }
        while i < n
            invariant
                n == self.filters@.len(),
                0 <= i <= n,
                find_filter(self.filters@, col_name@) == find_filter(
                    self.filters@.subrange(i as int, n as int),
                    col_name@,
                ),
            decreases n - i,
        {
            proof {
                assert(self.filters@.subrange(i as int, n as int).drop_first() == self.filters@.subrange(
                    i + 1,
                    n as int,
                ));
            }
            let f = &self.filters[i];
            if f.col_name.as_str().eq(col_name) {
                return Some(f);
            }
            i = i + 1;
        }
        None
    }

    /// Serialize all filters: their count (8B), then per filter its name
    /// length, name, byte length and bytes.
    pub fn to_bytes(&self) -> (r: Vec<u8>)
        ensures
            r@ == set_bytes(self.filters@),
    {
        let n = self.filters.len();
        let mut out = u64_to_le_bytes(n as u64);
        let ghost head = out@;
        let mut i: usize = 0;
        while i < n
            invariant
                n == self.filters@.len(),
                0 <= i <= n,
                head == spec_u64_to_le_bytes(n as u64),
                out@ == head + filter_blocks(self.filters@.take(i as int)),
            decreases n - i,
        {
            let f = &self.filters[i];
            let ghost before = out@;
            let name = f.col_name.as_str().as_bytes();
            let fb = f.to_bytes();
            let mut a = u64_to_le_bytes(name.len() as u64);
            out.append(&mut a);
            push_all(&mut out, name);
            let mut b = u64_to_le_bytes(fb.len() as u64);
            out.append(&mut b);
            push_all(&mut out, fb.as_slice());
            proof {
                assert(out@ == before + filter_block(*f));
                lemma_blocks_take_push(self.filters@, i as int);
            }
            i = i + 1;
        }
        proof {
            assert(self.filters@.take(n as int) == self.filters@);
        }
        out
    }

    /// Deserialize a set written by `to_bytes`; fails with
    /// `InvalidPartFile` on anything else.
    pub fn from_bytes(data: &[u8]) -> (r: Result<BloomFilterSet, RutSeriError>)
        ensures
            match r {
                Ok(s) => parse_set(data@) == Some(s.filters@.map_values(|f: BloomFilter| filter_view(f)))
                    && forall|i: int| 0 <= i < s.filters@.len() ==> (#[trigger] s.filters@[i]).wf(),
                Err(e) => parse_set(data@) is None && e is InvalidPartFile,
            },
    {
        let len = data.len();
        if len < 8 {
            return Err(RutSeriError::InvalidPartFile("Bloom filter set is too short".to_owned()));
        }
        let count = u64_from_le_bytes(slice_subrange(data, 0, 8));
        let mut filters: Vec<BloomFilter> = Vec::new();
        let mut pos: usize = 8;
        let mut i: u64 = 0;
        proof {
            assert(filters@.map_values(|f: BloomFilter| filter_view(f)) =~= Seq::<FilterView>::empty());
        }
        while i < count
            invariant
                len == data@.len(),
                8 <= len,
                count == spec_u64_from_le_bytes(data@.subrange(0, 8)),
                8 <= pos <= len,
                i <= count,
                parse_set(data@) == prepend_views(
                    filters@.map_values(|f: BloomFilter| filter_view(f)),
                    parse_blocks(data@.subrange(pos as int, len as int), (count - i) as nat),
                ),
                forall|j: int| 0 <= j < filters@.len() ==> (#[trigger] filters@[j]).wf(),
            decreases count - i,
        {
            let ghost rest = data@.subrange(pos as int, len as int);
            match parse_one_filter(data, pos) {
                None => {
                    return Err(RutSeriError::InvalidPartFile("malformed Bloom filter block".to_owned()));
                },
                Some((f, next)) => {
                    proof {
                        let used = next - pos;
                        assert(rest.subrange(used, rest.len() as int) =~= data@.subrange(next as int, len as int));
                        let old_views = filters@.map_values(|f: BloomFilter| filter_view(f));
                        assert(filters@.push(f).map_values(|f: BloomFilter| filter_view(f)) =~= old_views
                            + seq![filter_view(f)]);
                        match parse_blocks(data@.subrange(next as int, len as int), (count - i - 1) as nat) {
                            None => {},
                            Some(t) => {
                                assert(old_views + (seq![filter_view(f)] + t) =~= (old_views + seq![filter_view(f)]) + t);
                            },
                        }
                    }
                    filters.push(f);
                    pos = next;
                },
            }
            i = i + 1;
        }
        if pos != len {
            return Err(RutSeriError::InvalidPartFile("trailing bytes after Bloom filters".to_owned()));
        }
        proof {
            assert(data@.subrange(pos as int, len as int).len() == 0);
        }
        Ok(BloomFilterSet { filters })
    }
}

/// Parses the filter block that starts at `pos`; `None` where
/// `parse_block` finds none.
fn parse_one_filter(data: &[u8], pos: usize) -> (r: Option<(BloomFilter, usize)>)
    requires
        pos <= data@.len(),
    ensures
        match parse_block(data@.subrange(pos as int, data@.len() as int)) {
            None => r is None,
            Some((v, used)) => r matches Some((f, next)) && filter_view(f) == v && next == pos + used
                && f.wf(),
        },
{
    let len = data.len();
    let ghost d = data@.subrange(pos as int, len as int);
    let rem = len - pos;
    if rem < 8 {
        return None;
    }
    let nlen = u64_from_le_bytes(slice_subrange(data, pos, pos + 8));
    proof {
        assert(data@.subrange(pos as int, pos + 8) =~= d.subrange(0, 8));
    }
    if nlen > (rem - 8) as u64 || (rem - 8) as u64 - nlen < 8 {
        return None;
    }
    let nl = nlen as usize;
    let name_start = pos + 8;
    let name_end = name_start + nl;
    let flen = u64_from_le_bytes(slice_subrange(data, name_end, name_end + 8));
    proof {
        assert(data@.subrange(name_end as int, name_end + 8) =~= d.subrange(8 + nlen, 16 + nlen));
    }
    let body_start = name_end + 8;
    if flen > (len - body_start) as u64 || flen < 5 || flen > 4 + MAX_BLOOM_BYTES {
        return None;
    }
    let body_end = body_start + flen as usize;
    let name_bytes = slice_to_vec(slice_subrange(data, name_start, name_end));
    proof {
        assert(name_bytes@ =~= d.subrange(8, 8 + nlen));
    }
    let name = match string_from_utf8(name_bytes) {
        Some(s) => s,
        None => {
            return None;
        },
    };
    let body = slice_subrange(data, body_start, body_end);
    proof {
        assert(body@ =~= d.subrange(16 + nlen, 16 + nlen + flen));
    }
    match BloomFilter::from_bytes(name, body) {
        Ok(f) => Some((f, body_end)),
        Err(_) => None,
    }
}

proof fn lemma_blocks_take_push(fs: Seq<BloomFilter>, i: int)
    requires
        0 <= i < fs.len(),
    ensures
        filter_blocks(fs.take(i + 1)) == filter_blocks(fs.take(i)) + filter_block(fs[i]),
    decreases i,
{
    if i == 0 {
        assert(fs.take(1).drop_first() =~= Seq::<BloomFilter>::empty());
        assert(fs.take(0) =~= Seq::<BloomFilter>::empty());
    } else {
        lemma_blocks_take_push(fs.drop_first(), i - 1);
        assert(fs.take(i + 1).drop_first() =~= fs.drop_first().take(i));
        assert(fs.take(i).drop_first() =~= fs.drop_first().take(i - 1));
        assert(fs.take(i + 1)[0] == fs[0]);
        assert(fs.take(i)[0] == fs[0]);
    }
}

/// A single block reads back as the filter it was written from, whatever
/// follows it.
proof fn lemma_parse_block_of_filter(f: BloomFilter, rest: Seq<u8>)
    requires
        f.wf(),
        encode_utf8(f.column_name()).len() <= u64::MAX,
    ensures
        parse_block(filter_block(f) + rest) == Some((filter_view(f), filter_block(f).len() as int)),
        (filter_block(f) + rest).subrange(filter_block(f).len() as int, (filter_block(f) + rest).len() as int)
            == rest,
{
    broadcast use vstd::utf8::encode_utf8_valid_utf8, vstd::utf8::encode_utf8_decode_utf8;
    lemma_auto_spec_u64_to_from_le_bytes();
    lemma_auto_spec_u32_to_from_le_bytes();
    let nb = encode_utf8(f.column_name());
    let fb = spec_u32_to_le_bytes(f.hash_count()) + f.bit_bytes();
    let d = filter_block(f) + rest;
    let nlen = nb.len() as int;
    let flen = fb.len() as int;
    assert(d.subrange(0, 8) =~= spec_u64_to_le_bytes(nb.len() as u64));
    assert(d.subrange(8, 8 + nlen) =~= nb);
    assert(d.subrange(8 + nlen, 16 + nlen) =~= spec_u64_to_le_bytes(fb.len() as u64));
    assert(d.subrange(16 + nlen, 16 + nlen + flen) =~= fb);
    assert(fb.subrange(0, 4) =~= spec_u32_to_le_bytes(f.hash_count()));
    assert(fb.subrange(4, flen) =~= f.bit_bytes());
    assert(d.subrange(filter_block(f).len() as int, d.len() as int) =~= rest);
}

proof fn lemma_parse_blocks_of_filters(fs: Seq<BloomFilter>)
    requires
        forall|i: int| 0 <= i < fs.len() ==> (#[trigger] fs[i]).wf(),
        forall|i: int| 0 <= i < fs.len() ==> encode_utf8((#[trigger] fs[i]).column_name()).len() <= u64::MAX,
    ensures
        parse_blocks(filter_blocks(fs), fs.len()) == Some(fs.map_values(|f: BloomFilter| filter_view(f))),
    decreases fs.len(),
{
    if fs.len() == 0 {
        assert(fs.map_values(|f: BloomFilter| filter_view(f)) =~= Seq::<FilterView>::empty());
    } else {
        let tail = fs.drop_first();
        assert forall|i: int| 0 <= i < tail.len() implies (#[trigger] tail[i]).wf() by {
            assert(tail[i] == fs[i + 1]);
        }
        assert forall|i: int| 0 <= i < tail.len() implies encode_utf8((#[trigger] tail[i]).column_name()).len()
            <= u64::MAX by {
            assert(tail[i] == fs[i + 1]);
        }
        lemma_parse_blocks_of_filters(tail);
        lemma_parse_block_of_filter(fs[0], filter_blocks(tail));
        assert(fs.map_values(|f: BloomFilter| filter_view(f)) =~= seq![filter_view(fs[0])]
            + tail.map_values(|f: BloomFilter| filter_view(f)));
    }
}

/// Reading back a serialized set gives every filter back: its column
/// name, hash count and bits.
pub proof fn lemma_filter_set_roundtrip(fs: Seq<BloomFilter>)
    requires
        fs.len() <= u64::MAX,
        forall|i: int| 0 <= i < fs.len() ==> (#[trigger] fs[i]).wf(),
        forall|i: int| 0 <= i < fs.len() ==> encode_utf8((#[trigger] fs[i]).column_name()).len() <= u64::MAX,
    ensures
        parse_set(set_bytes(fs)) == Some(fs.map_values(|f: BloomFilter| filter_view(f))),
{
    lemma_auto_spec_u64_to_from_le_bytes();
    let b = set_bytes(fs);
    assert(b.subrange(0, 8) =~= spec_u64_to_le_bytes(fs.len() as u64));
    assert(b.subrange(8, b.len() as int) =~= filter_blocks(fs));
    lemma_parse_blocks_of_filters(fs);
}

} // verus!
