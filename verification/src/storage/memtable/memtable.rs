//! MemTable: in-memory sorted write buffer for a single shard.
//!
//! Rows are keyed by `(timestamp, tag_hash)`, the fields of `MemKey` in
//! their order, so iteration is sorted by time and then by series.
//! Duplicate keys overwrite (last write wins).
use std::collections::BTreeMap;
use vstd::prelude::*;

use crate::common::hash::{push_all, xxh64_hash, xxh64_of};
use crate::common::shard_key::tag_pair_bytes;
use crate::common::types::{MemKey, Row, TagSet, Timestamp};
use vstd::utf8::{encode_scalar, encode_utf8, encode_utf8_decode_utf8};

verus! {

broadcast use vstd::std_specs::btree::group_btree_axioms, vstd::laws_cmp::group_laws_cmp;

/// The bytes added to the size estimate per inserted row:
/// `size_of::<MemKey>()` (16) plus a rough 128 for the row.
pub const ROW_SIZE_ESTIMATE: usize = 144;

/// Whether `s` lists the entries of `tags` by strictly ascending key:
/// each listed pair is an entry, each key is listed, keys ascend.
pub open spec fn lists_in_order(tags: Map<Seq<char>, Seq<char>>, s: Seq<(Seq<char>, Seq<char>)>) -> bool {
    &&& forall|i: int| 0 <= i < s.len() ==> tags.contains_key((#[trigger] s[i]).0) && tags[s[i].0] == s[i].1
    &&& forall|k: Seq<char>| #[trigger] tags.contains_key(k) ==> exists|i: int| 0 <= i < s.len() && s[i].0 == k
    &&& forall|i: int, j: int| 0 <= i < j < s.len() ==> text_less(s[i].0, s[j].0)
}

/// The tag entries of a tag set in ascending key order (the order
/// `BTreeMap::iter` yields them), each as characters of key and value;
/// `lemma_lists_in_order_unique` shows there is one such list.
pub open spec fn tag_entries_in_order(tags: Map<Seq<char>, Seq<char>>) -> Seq<(Seq<char>, Seq<char>)> {
    choose|s: Seq<(Seq<char>, Seq<char>)>| lists_in_order(tags, s)
}

/// Whether `a` comes before `b` in the order of `str`: lexicographic by
/// character (which is the order of their UTF-8 bytes).
pub open spec fn text_less(a: Seq<char>, b: Seq<char>) -> bool
    decreases a.len(),
{
    if a.len() == 0 {
        b.len() > 0
    } else if b.len() == 0 {
        false
    } else if a[0] != b[0] {
        (a[0] as u32) < (b[0] as u32)
    } else {
        text_less(a.drop_first(), b.drop_first())
    }
}

/// The entries of `tags` as owned pairs, in the order `BTreeMap::iter`
/// yields them: every entry of the map once, by ascending key.
#[verifier::external_body]
pub(crate) fn tag_entries(tags: &TagSet) -> (r: Vec<(String, String)>)
    ensures
        forall|i: int|
            0 <= i < r@.len() ==> tags.deep_view().contains_key((#[trigger] r@[i]).0@) && tags.deep_view()[r@[i].0@]
                == r@[i].1@,
        forall|k: Seq<char>|
            #[trigger] tags.deep_view().contains_key(k) ==> exists|i: int| 0 <= i < r@.len() && r@[i].0@ == k,
        forall|i: int, j: int| 0 <= i < j < r@.len() ==> text_less(r@[i].0@, r@[j].0@),
{
    tags.iter().map(|(k, v)| (k.clone(), v.clone())).collect()
}

/// No text comes before itself.
proof fn lemma_text_less_irreflexive(a: Seq<char>)
    ensures
        !text_less(a, a),
    decreases a.len(),
{
    if a.len() > 0 {
        lemma_text_less_irreflexive(a.drop_first());
    }
}

/// Of two texts, at most one comes before the other.
proof fn lemma_text_less_asymmetric(a: Seq<char>, b: Seq<char>)
    ensures
        !(text_less(a, b) && text_less(b, a)),
    decreases a.len(),
{
    if a.len() > 0 && b.len() > 0 && a[0] == b[0] {
        lemma_text_less_asymmetric(a.drop_first(), b.drop_first());
    }
}

/// A tag set has one list of its entries in ascending key order.
pub proof fn lemma_lists_in_order_unique(
    tags: Map<Seq<char>, Seq<char>>,
    a: Seq<(Seq<char>, Seq<char>)>,
    b: Seq<(Seq<char>, Seq<char>)>,
)
    requires
        lists_in_order(tags, a),
        lists_in_order(tags, b),
    ensures
        a == b,
    decreases a.len(),
{
    if a.len() == 0 {
        if b.len() > 0 {
            assert(tags.contains_key(b[0].0));
        }
        assert(a =~= b);
    } else {
        assert(tags.contains_key(a[0].0));
        assert(b.len() > 0);
        let k = a[0].0;
        let j = choose|j: int| 0 <= j < b.len() && b[j].0 == k;
        assert(tags.contains_key(b[0].0));
        let i = choose|i: int| 0 <= i < a.len() && a[i].0 == b[0].0;
        if j > 0 && i > 0 {
            lemma_text_less_asymmetric(a[0].0, b[0].0);
            assert(false);
        }
        assert(b[0].0 == k);
        assert(a[0] == b[0]);
        let t = tags.remove(k);
        let a2 = a.drop_first();
        let b2 = b.drop_first();
        assert forall|x: int, y: int| 0 <= x < y < a.len() implies a[x].0 != a[y].0 by {
            lemma_text_less_irreflexive(a[x].0);
        }
        assert forall|x: int, y: int| 0 <= x < y < b.len() implies b[x].0 != b[y].0 by {
            lemma_text_less_irreflexive(b[x].0);
        }
        assert(lists_in_order(t, a2)) by {
            assert forall|q: int| 0 <= q < a2.len() implies t.contains_key((#[trigger] a2[q]).0) && t[a2[q].0] == a2[q].1 by {
                assert(a2[q] == a[q + 1]);
            }
            assert forall|kk: Seq<char>| #[trigger] t.contains_key(kk) implies exists|q: int| 0 <= q < a2.len() && a2[q].0 == kk by {
                let q = choose|q: int| 0 <= q < a.len() && a[q].0 == kk;
                assert(a2[q - 1] == a[q]);
            }
            assert forall|x: int, y: int| 0 <= x < y < a2.len() implies text_less(a2[x].0, a2[y].0) by {
                assert(a2[x] == a[x + 1] && a2[y] == a[y + 1]);
            }
        }
        assert(lists_in_order(t, b2)) by {
            assert forall|q: int| 0 <= q < b2.len() implies t.contains_key((#[trigger] b2[q]).0) && t[b2[q].0] == b2[q].1 by {
                assert(b2[q] == b[q + 1]);
            }
            assert forall|kk: Seq<char>| #[trigger] t.contains_key(kk) implies exists|q: int| 0 <= q < b2.len() && b2[q].0 == kk by {
                let q = choose|q: int| 0 <= q < b.len() && b[q].0 == kk;
                assert(b2[q - 1] == b[q]);
            }
            assert forall|x: int, y: int| 0 <= x < y < b2.len() implies text_less(b2[x].0, b2[y].0) by {
                assert(b2[x] == b[x + 1] && b2[y] == b[y + 1]);
            }
        }
        lemma_lists_in_order_unique(t, a2, b2);
        assert(a =~= b) by {
            assert forall|x: int| 0 <= x < a.len() implies a[x] == b[x] by {
                if x > 0 {
                    assert(a[x] == a2[x - 1] && b[x] == b2[x - 1]);
                }
            }
        }
    }
}

/// The hash input of a tag set: `key=value\0` for every entry, in key
/// order.
pub open spec fn tag_hash_input(entries: Seq<(Seq<char>, Seq<char>)>) -> Seq<u8>
    decreases entries.len(),
{
    if entries.len() == 0 {
        Seq::empty()
    } else {
        tag_hash_input(entries.drop_last()) + tag_pair_bytes(entries.last().0, entries.last().1)
    }
}

/// The series hash of a tag set: XXH64 (seed 0) of its hash input.
pub open spec fn tag_hash_of(tags: Map<Seq<char>, Seq<char>>) -> u64 {
    xxh64_of(tag_hash_input(tag_entries_in_order(tags)), 0)
}

/// The MemTable key of a row.
pub open spec fn row_key(row: Row) -> (Timestamp, u64) {
    (row.timestamp, tag_hash_of(row.tags.deep_view()))
}

/// `m` after inserting `rows` one after the other.
pub open spec fn insert_rows(m: Map<(Timestamp, u64), Row>, rows: Seq<Row>) -> Map<(Timestamp, u64), Row>
    decreases rows.len(),
{
    if rows.len() == 0 {
        m
    } else {
        insert_rows(m, rows.drop_last()).insert(row_key(rows.last()), rows.last())
    }
}

/// The series hash of a tag set, built from its entries in key order (which
/// exist for every tag set, so the series laws apply to it).
pub fn compute_tag_hash(tags: &TagSet) -> (r: u64)
    ensures
        r == tag_hash_of(tags.deep_view()),
        lists_in_order(tags.deep_view(), tag_entries_in_order(tags.deep_view())),
{
    let entries = tag_entries(tags);
    let ghost views = entries@.map_values(|p: (String, String)| (p.0@, p.1@));
    let n = entries.len();
    let mut input: Vec<u8> = Vec::new();
    let mut i: usize = 0;
    while i < n
        invariant
            n == entries@.len(),
            views == entries@.map_values(|p: (String, String)| (p.0@, p.1@)),
            0 <= i <= n,
            input@ == tag_hash_input(views.subrange(0, i as int)),
        decreases n - i,
    {
        let (k, v) = &entries[i];
        push_all(&mut input, k.as_str().as_bytes());
        input.push(61u8);
        push_all(&mut input, v.as_str().as_bytes());
        input.push(0u8);
        proof {
            assert(views.subrange(0, i + 1).drop_last() == views.subrange(0, i as int));
            assert(views[i as int] == (k@, v@));
        }
        i = i + 1;
    }
    proof {
        assert(views.subrange(0, n as int) == views);
        let m = tags.deep_view();
        assert(lists_in_order(m, views)) by {
            assert forall|k: Seq<char>| #[trigger] m.contains_key(k) implies exists|i: int|
                0 <= i < views.len() && views[i].0 == k by {
                let i = choose|i: int| 0 <= i < entries@.len() && entries@[i].0@ == k;
                assert(views[i].0 == k);
            }
        }
        lemma_lists_in_order_unique(m, views, tag_entries_in_order(m));
    }
    xxh64_hash(input.as_slice(), 0)
}

/// A frozen, read-only copy of a MemTable, for queries.
#[derive(Debug, Clone)]
pub struct MemTableSnapshot {
    /// Sorted rows, keyed by `(timestamp, tag_hash)`.
    pub data: BTreeMap<(Timestamp, u64), Row>,
    /// Table name for this snapshot.
    pub table: String,
}

/// In-memory sorted write buffer for a single shard.
pub struct MemTable {
    /// The sorted rows, keyed by `(timestamp, tag_hash)`.
    data: BTreeMap<(Timestamp, u64), Row>,
    /// Approximate memory usage in bytes.
    estimated_bytes: usize,
    /// Table name this MemTable belongs to.
    table: String,
}

impl MemTable {
    /// The rows by key.
    pub closed spec fn contents(&self) -> Map<(Timestamp, u64), Row> {
        self.data@
    }

    /// The size estimate in bytes.
    pub closed spec fn size_estimate(&self) -> nat {
        self.estimated_bytes as nat
    }

    /// The table name.
    pub closed spec fn table_name(&self) -> Seq<char> {
        self.table@
    }

    /// A new empty MemTable for a table.
    pub fn new(table: String) -> (r: MemTable)
        ensures
            r.contents() == Map::<(Timestamp, u64), Row>::empty(),
            r.contents().dom().finite(),
            r.size_estimate() == 0,
            r.table_name() == table@,
    {
        MemTable { data: BTreeMap::new(), estimated_bytes: 0, table }
    }

    /// Insert rows, each under `(timestamp, hash of its tags)`; a row whose
    /// key is already present replaces the earlier row (last write wins).
    /// Every row adds `ROW_SIZE_ESTIMATE` bytes to the size estimate.
    pub fn insert(&mut self, rows: Vec<Row>)
        requires
            old(self).size_estimate() + ROW_SIZE_ESTIMATE * rows@.len() <= usize::MAX,
        ensures
            final(self).contents() == insert_rows(old(self).contents(), rows@),
            final(self).contents().dom().finite(),
            final(self).size_estimate() == old(self).size_estimate() + ROW_SIZE_ESTIMATE * rows@.len(),
            final(self).table_name() == old(self).table_name(),
    {
        let ghost all = rows@;
        let ghost n = rows@.len();
        for row in it: rows
            invariant
                n == all.len(),
                it.seq() == all,
                self.data@ == insert_rows(old(self).contents(), all.subrange(0, it.index() as int)),
                self.estimated_bytes == old(self).size_estimate() + ROW_SIZE_ESTIMATE * it.index(),
                old(self).size_estimate() + ROW_SIZE_ESTIMATE * n <= usize::MAX,
                self.table@ == old(self).table_name(),
        {
            let ghost i = it.index();
            proof {
                assert(row == all[i as int]);
                assert(all.subrange(0, i + 1).drop_last() == all.subrange(0, i as int));
                assert(all.subrange(0, i + 1).last() == row);
            }
            let tag_hash = compute_tag_hash(&row.tags);
            let key = MemKey { timestamp: row.timestamp, tag_hash };
            self.estimated_bytes = self.estimated_bytes + ROW_SIZE_ESTIMATE;
            self.data.insert((key.timestamp, key.tag_hash), row);
        }
        proof {
            assert(all.subrange(0, n as int) == all);
        }
    }

    /// Current approximate memory usage in bytes.
    pub fn size_bytes(&self) -> (r: usize)
        ensures
            r == self.size_estimate(),
    {
        self.estimated_bytes
    }

    /// Number of rows currently in the MemTable.
    pub fn len(&self) -> (r: usize)
        ensures
            r == self.contents().len(),
            self.contents().dom().finite(),
    {
        self.data.len()
    }

    /// Whether the MemTable has no rows.
    pub fn is_empty(&self) -> (r: bool)
        ensures
            r == (self.contents().len() == 0),
            self.contents().dom().finite(),
    {
        self.data.is_empty()
    }

    /// A frozen copy of the rows for queries; the MemTable keeps
    /// accepting writes.
    pub fn snapshot(&self) -> (r: MemTableSnapshot)
        ensures
            r.data@ == self.contents(),
            r.table@ == self.table_name(),
    {
        MemTableSnapshot { data: self.data.clone(), table: self.table.clone() }
    }

    /// Clear all data; called after a successful flush.
    pub fn clear(&mut self)
        ensures
            final(self).contents() == Map::<(Timestamp, u64), Row>::empty(),
            final(self).contents().dom().finite(),
            final(self).size_estimate() == 0,
            final(self).table_name() == old(self).table_name(),
    {
        self.data.clear();
        self.estimated_bytes = 0;
    }
}

/// Last write wins: inserting two rows with the same timestamp and the
/// same tags keeps only the later one under their key.
pub proof fn lemma_last_write_wins(m: Map<(Timestamp, u64), Row>, first: Row, second: Row)
    requires
        first.timestamp == second.timestamp,
        first.tags.deep_view() == second.tags.deep_view(),
    ensures
        insert_rows(m, seq![first, second]) == m.insert(row_key(second), second),
        insert_rows(m, seq![first, second])[row_key(first)] == second,
{
    assert(seq![first, second].drop_last() =~= seq![first]);
    assert(seq![first].drop_last() =~= Seq::<Row>::empty());
    assert(insert_rows(m, Seq::<Row>::empty()) == m);
    assert(insert_rows(m, seq![first]) == m.insert(row_key(first), first));
    assert(row_key(first) == row_key(second));
    assert(insert_rows(m, seq![first, second]) == m.insert(row_key(first), first).insert(row_key(second), second));
    assert(insert_rows(m, seq![first, second]) =~= m.insert(row_key(second), second));
}

// ── Distinct series stay apart ───────────────────────────────────────

/// Whether a tag pair can be told apart in a hash input: its key holds no
/// `=` and no NUL, its value no NUL.
pub open spec fn plain_pair(p: (Seq<char>, Seq<char>)) -> bool {
    &&& !p.0.contains('=')
    &&& !p.0.contains('\0')
    &&& !p.1.contains('\0')
}

/// Whether every tag of a tag set can be told apart in a hash input.
pub open spec fn plain_tags(tags: Map<Seq<char>, Seq<char>>) -> bool {
    forall|k: Seq<char>| #[trigger] tags.contains_key(k) ==> plain_pair((k, tags[k]))
}

/// The characters `key=value\0` of each pair, in order.
spec fn tag_text(entries: Seq<(Seq<char>, Seq<char>)>) -> Seq<char>
    decreases entries.len(),
{
    if entries.len() == 0 {
        Seq::empty()
    } else {
        tag_text(entries.drop_last()) + entries.last().0 + seq!['='] + entries.last().1 + seq!['\0']
    }
}

proof fn lemma_encode_utf8_concat(x: Seq<char>, y: Seq<char>)
    ensures
        encode_utf8(x + y) == encode_utf8(x) + encode_utf8(y),
    decreases x.len(),
{
    if x.len() == 0 {
        assert(x + y =~= y);
        assert(encode_utf8(x) =~= Seq::<u8>::empty());
        assert(encode_utf8(x) + encode_utf8(y) =~= encode_utf8(y));
    } else {
        assert((x + y).drop_first() =~= x.drop_first() + y);
        assert((x + y)[0] == x[0]);
        lemma_encode_utf8_concat(x.drop_first(), y);
        assert(encode_utf8(x + y) =~= encode_utf8(x) + encode_utf8(y));
    }
}

proof fn lemma_encode_ascii_marks()
    ensures
        encode_utf8(seq!['=']) == seq![61u8],
        encode_utf8(seq!['\0']) == seq![0u8],
{
    let eq = seq!['='];
    let nul = seq!['\0'];
    assert(eq.drop_first() =~= Seq::<char>::empty());
    assert(nul.drop_first() =~= Seq::<char>::empty());
    assert(('=' as u32) == 61u32);
    assert(('\0' as u32) == 0u32);
    assert((61u32 & 0x7Fu32) as u8 == 61u8) by (bit_vector);
    assert((0u32 & 0x7Fu32) as u8 == 0u8) by (bit_vector);
    assert(eq[0] == '=');
    assert(nul[0] == '\0');
    assert(encode_scalar(61u32) =~= seq![61u8]);
    assert(encode_scalar(0u32) =~= seq![0u8]);
    assert(encode_utf8(Seq::<char>::empty()) =~= Seq::<u8>::empty());
    assert(encode_utf8(eq) =~= encode_scalar(61u32) + encode_utf8(Seq::<char>::empty()));
    assert(encode_utf8(eq) =~= seq![61u8]);
    assert(encode_utf8(nul) =~= encode_scalar(0u32) + encode_utf8(Seq::<char>::empty()));
    assert(encode_utf8(nul) =~= seq![0u8]);
}

/// The hash input is the UTF-8 encoding of the text `key=value\0...`.
proof fn lemma_input_is_encoded_text(entries: Seq<(Seq<char>, Seq<char>)>)
    ensures
        tag_hash_input(entries) == encode_utf8(tag_text(entries)),
    decreases entries.len(),
{
    if entries.len() == 0 {
        assert(encode_utf8(Seq::<char>::empty()) =~= Seq::<u8>::empty());
    } else {
        let rest = entries.drop_last();
        let (k, v) = entries.last();
        lemma_input_is_encoded_text(rest);
        lemma_encode_ascii_marks();
        let t = tag_text(rest);
        lemma_encode_utf8_concat(t, k);
        lemma_encode_utf8_concat(t + k, seq!['=']);
        lemma_encode_utf8_concat(t + k + seq!['='], v);
        lemma_encode_utf8_concat(t + k + seq!['='] + v, seq!['\0']);
        assert(tag_hash_input(entries) =~= encode_utf8(tag_text(entries)));
    }
}

/// The text of plain pairs gives the pairs back.
proof fn lemma_tag_text_injective(a: Seq<(Seq<char>, Seq<char>)>, b: Seq<(Seq<char>, Seq<char>)>)
    requires
        forall|i: int| 0 <= i < a.len() ==> plain_pair(#[trigger] a[i]),
        forall|i: int| 0 <= i < b.len() ==> plain_pair(#[trigger] b[i]),
        tag_text(a) == tag_text(b),
    ensures
        a == b,
    decreases a.len(),
{
    if a.len() == 0 || b.len() == 0 {
        if a.len() > 0 {
            assert(tag_text(a).len() > 0);
        }
        if b.len() > 0 {
            assert(tag_text(b).len() > 0);
        }
        assert(a =~= b);
    } else {
        let t = tag_text(a);
        let n = t.len();
        let (ka, va) = a.last();
        let (kb, vb) = b.last();
        let x = tag_text(a.drop_last());
        let y = tag_text(b.drop_last());
        assert(plain_pair(a[a.len() - 1]));
        assert(plain_pair(b[b.len() - 1]));
        assert(t == x + ka + seq!['='] + va + seq!['\0']);
        assert(t == y + kb + seq!['='] + vb + seq!['\0']);
        // The text before the last pair has the same length on both sides.
        assert(x.len() == y.len()) by {
            if x.len() < y.len() {
                lemma_text_ends_with_nul(b.drop_last());
                let i = y.len() - 1;
                assert(t[i] == y[i]);
                assert(t[i] == '\0');
                if i < x.len() + ka.len() {
                    assert(t[i] == ka[i - x.len()]);
                    assert(ka.contains(t[i]));
                } else if i == x.len() + ka.len() {
                    assert(t[i] == '=');
                } else {
                    assert(t[i] == va[i - x.len() - ka.len() - 1]);
                    assert(va.contains(t[i]));
                }
            } else if y.len() < x.len() {
                lemma_text_ends_with_nul(a.drop_last());
                let i = x.len() - 1;
                assert(t[i] == x[i]);
                assert(t[i] == '\0');
                if i < y.len() + kb.len() {
                    assert(t[i] == kb[i - y.len()]);
                    assert(kb.contains(t[i]));
                } else if i == y.len() + kb.len() {
                    assert(t[i] == '=');
                } else {
                    assert(t[i] == vb[i - y.len() - kb.len() - 1]);
                    assert(vb.contains(t[i]));
                }
            }
        }
        assert(x =~= t.subrange(0, x.len() as int));
        assert(y =~= t.subrange(0, y.len() as int));
        let m = t.subrange(x.len() as int, n - 1);
        assert(m =~= ka + seq!['='] + va);
        assert(m =~= kb + seq!['='] + vb);
        // The first `=` ends the key.
        assert(ka.len() == kb.len()) by {
            if ka.len() < kb.len() {
                assert(m[ka.len() as int] == '=');
                assert(m[ka.len() as int] == kb[ka.len() as int]);
                assert(kb.contains('='));
            } else if kb.len() < ka.len() {
                assert(m[kb.len() as int] == '=');
                assert(m[kb.len() as int] == ka[kb.len() as int]);
                assert(ka.contains('='));
            }
        }
        assert(ka =~= m.subrange(0, ka.len() as int));
        assert(kb =~= m.subrange(0, kb.len() as int));
        assert(va =~= m.subrange(ka.len() as int + 1, m.len() as int));
        assert(vb =~= m.subrange(kb.len() as int + 1, m.len() as int));
        assert forall|i: int| 0 <= i < a.drop_last().len() implies plain_pair(#[trigger] a.drop_last()[i]) by {
            assert(a.drop_last()[i] == a[i]);
        }
        assert forall|i: int| 0 <= i < b.drop_last().len() implies plain_pair(#[trigger] b.drop_last()[i]) by {
            assert(b.drop_last()[i] == b[i]);
        }
        lemma_tag_text_injective(a.drop_last(), b.drop_last());
        assert(a =~= a.drop_last().push(a.last()));
        assert(b =~= b.drop_last().push(b.last()));
    }
}

/// A non-empty text ends with NUL.
proof fn lemma_text_ends_with_nul(e: Seq<(Seq<char>, Seq<char>)>)
    requires
        e.len() > 0,
    ensures
        tag_text(e).len() > 0,
        tag_text(e)[tag_text(e).len() - 1] == '\0',
{
}

/// The hash input determines the pairs: two lists of plain pairs with the
/// same hash input are the same list.
pub proof fn lemma_tag_hash_input_injective(a: Seq<(Seq<char>, Seq<char>)>, b: Seq<(Seq<char>, Seq<char>)>)
    requires
        forall|i: int| 0 <= i < a.len() ==> plain_pair(#[trigger] a[i]),
        forall|i: int| 0 <= i < b.len() ==> plain_pair(#[trigger] b[i]),
        tag_hash_input(a) == tag_hash_input(b),
    ensures
        a == b,
{
    lemma_input_is_encoded_text(a);
    lemma_input_is_encoded_text(b);
    encode_utf8_decode_utf8(tag_text(a));
    encode_utf8_decode_utf8(tag_text(b));
    lemma_tag_text_injective(a, b);
}

/// Distinct series stay apart: two different tag sets (of plain tags) have
/// different hash inputs, so rows of one timestamp and different series get
/// the same MemTable key only through a collision of XXH64 itself.
pub proof fn lemma_distinct_series_distinct_input(t1: Map<Seq<char>, Seq<char>>, t2: Map<Seq<char>, Seq<char>>)
    requires
        plain_tags(t1),
        plain_tags(t2),
        lists_in_order(t1, tag_entries_in_order(t1)),
        lists_in_order(t2, tag_entries_in_order(t2)),
        t1 != t2,
    ensures
        tag_hash_input(tag_entries_in_order(t1)) != tag_hash_input(tag_entries_in_order(t2)),
{
    let s1 = tag_entries_in_order(t1);
    let s2 = tag_entries_in_order(t2);
    if tag_hash_input(s1) == tag_hash_input(s2) {
        assert forall|i: int| 0 <= i < s1.len() implies plain_pair(#[trigger] s1[i]) by {
            assert(t1.contains_key(s1[i].0));
        }
        assert forall|i: int| 0 <= i < s2.len() implies plain_pair(#[trigger] s2[i]) by {
            assert(t2.contains_key(s2[i].0));
        }
        lemma_tag_hash_input_injective(s1, s2);
        assert forall|k: Seq<char>| t1.contains_key(k) <==> t2.contains_key(k) by {
            if t1.contains_key(k) {
                let i = choose|i: int| 0 <= i < s1.len() && s1[i].0 == k;
                assert(t2.contains_key(s2[i].0));
            }
            if t2.contains_key(k) {
                let i = choose|i: int| 0 <= i < s2.len() && s2[i].0 == k;
                assert(t1.contains_key(s1[i].0));
            }
        }
        assert forall|k: Seq<char>| t1.contains_key(k) implies t1[k] == t2[k] by {
            let i = choose|i: int| 0 <= i < s1.len() && s1[i].0 == k;
            assert(t1[s1[i].0] == s1[i].1);
            assert(t2[s2[i].0] == s2[i].1);
        }
        assert(t1 =~= t2);
    }
}

/// Two rows with one timestamp that no row held before: with the same
/// tags, the MemTable grows by one and keeps the later row; with tag sets
/// that hash apart, it grows by two and keeps both; every earlier row stays.
pub proof fn lemma_insert_same_timestamp(m: Map<(Timestamp, u64), Row>, first: Row, second: Row)
    requires
        m.dom().finite(),
        first.timestamp == second.timestamp,
        forall|k: (Timestamp, u64)| #[trigger] m.contains_key(k) ==> k.0 != first.timestamp,
    ensures
        insert_rows(m, seq![first, second]).dom().finite(),
        first.tags.deep_view() == second.tags.deep_view() ==> insert_rows(m, seq![first, second]).len() == m.len() + 1
            && insert_rows(m, seq![first, second])[row_key(second)] == second,
        tag_hash_of(first.tags.deep_view()) != tag_hash_of(second.tags.deep_view()) ==> insert_rows(
            m,
            seq![first, second],
        ).len() == m.len() + 2 && insert_rows(m, seq![first, second])[row_key(first)] == first
            && insert_rows(m, seq![first, second])[row_key(second)] == second,
        forall|k: (Timestamp, u64)| #[trigger] m.contains_key(k) ==> insert_rows(m, seq![first, second]).contains_key(k)
            && insert_rows(m, seq![first, second])[k] == m[k],
{
    assert(seq![first, second].drop_last() =~= seq![first]);
    assert(seq![first].drop_last() =~= Seq::<Row>::empty());
    let one = m.insert(row_key(first), first);
    let two = one.insert(row_key(second), second);
    assert(insert_rows(m, Seq::<Row>::empty()) == m);
    assert(insert_rows(m, seq![first]) == one);
    assert(seq![first, second].last() == second);
    assert(insert_rows(m, seq![first, second]) == two);
    assert(!m.contains_key(row_key(first)));
    assert(!m.contains_key(row_key(second)));
    assert(one.len() == m.len() + 1);
    if row_key(first) == row_key(second) {
        assert(two.len() == one.len());
    } else {
        assert(!one.contains_key(row_key(second)));
        assert(two.len() == one.len() + 1);
    }
}

/// Every inserted row can be found under its key unless a later row of the
/// same batch has the same key.
pub proof fn lemma_inserted_row_present(m: Map<(Timestamp, u64), Row>, rows: Seq<Row>, i: int)
    requires
        0 <= i < rows.len(),
        forall|j: int| i < j < rows.len() ==> row_key(#[trigger] rows[j]) != row_key(rows[i]),
    ensures
        insert_rows(m, rows).contains_key(row_key(rows[i])),
        insert_rows(m, rows)[row_key(rows[i])] == rows[i],
    decreases rows.len(),
{
    if i < rows.len() - 1 {
        let init = rows.drop_last();
        assert forall|j: int| i < j < init.len() implies row_key(#[trigger] init[j]) != row_key(init[i]) by {
            assert(init[j] == rows[j]);
        }
        lemma_inserted_row_present(m, init, i);
        assert(row_key(rows.last()) != row_key(rows[i]));
    }
}

} // verus!
