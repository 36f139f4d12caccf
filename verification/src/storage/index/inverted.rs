//! Inverted index: tag key → tag value → the Parts that hold that pair.
//!
//! The index lives inside each table of the Catalog
//! (`TableCatalog::inverted_index`); the functions here keep its logic
//! apart from the Catalog's persistence.
use crate::common::strmap::{
    lemma_absent_key, lemma_first_entry_is_view, lemma_push_absent,
    lemma_related_values, lemma_update_first, StrMap,
};
use crate::common::types::{PartId, Row};
use crate::storage::memtable::memtable::tag_entries;
use vstd::prelude::*;

verus! {

/// Tag value → Part IDs, for one tag key.
pub type Postings = StrMap<Vec<PartId>>;

/// Tag key → tag value → Part IDs.
pub type InvertedIndex = StrMap<Postings>;

/// What an inverted index stands for.
pub type IndexView = Map<Seq<char>, Map<Seq<char>, Seq<PartId>>>;

/// The map of tag value to Part IDs that a postings list stands for.
pub open spec fn postings_view(p: Postings) -> Map<Seq<char>, Seq<PartId>> {
    p.view_map().map_values(|ids: Vec<PartId>| ids@)
}

/// The map that an inverted index stands for.
pub open spec fn index_view(idx: InvertedIndex) -> IndexView {
    idx.view_map().map_values(|p: Postings| postings_view(p))
}

/// The values indexed under `key` (none when the key is not indexed).
pub open spec fn values_of(view: IndexView, key: Seq<char>) -> Map<Seq<char>, Seq<PartId>> {
    if view.contains_key(key) {
        view[key]
    } else {
        Map::empty()
    }
}

/// The Part IDs under `key = value` (none when the pair is not indexed).
pub open spec fn lookup_spec(view: IndexView, key: Seq<char>, value: Seq<char>) -> Seq<PartId> {
    let vals = values_of(view, key);
    if vals.contains_key(value) {
        vals[value]
    } else {
        Seq::empty()
    }
}

/// The index with `id` appended to the IDs under `key = value`.
pub open spec fn with_posting(view: IndexView, key: Seq<char>, value: Seq<char>, id: PartId) -> IndexView {
    view.insert(key, values_of(view, key).insert(value, lookup_spec(view, key, value).push(id)))
}

/// The index with `id` appended under each pair of `entries`, in order.
pub open spec fn with_postings(view: IndexView, entries: Seq<(String, String)>, id: PartId) -> IndexView
    decreases entries.len(),
{
    if entries.len() == 0 {
        view
    } else {
        let last = entries.last();
        with_posting(with_postings(view, entries.drop_last(), id), last.0@, last.1@, id)
    }
}

/// `ids` with every occurrence of `id` taken out, the rest in order.
pub open spec fn without_id(ids: Seq<PartId>, id: PartId) -> Seq<PartId>
    decreases ids.len(),
{
    if ids.len() == 0 {
        ids
    } else {
        let rest = without_id(ids.drop_last(), id);
        if ids.last() == id {
            rest
        } else {
            rest.push(ids.last())
        }
    }
}

/// The index with `id` taken out of every list; every key and value stays.
pub open spec fn without_part(view: IndexView, id: PartId) -> IndexView {
    view.map_values(
        |vals: Map<Seq<char>, Seq<PartId>>| vals.map_values(|ids: Seq<PartId>| without_id(ids, id)),
    )
}

/// Appends `id` to the IDs under `value`, creating the list if needed.
fn push_posting(postings: &mut Postings, value: String, id: PartId)
    ensures
        postings_view(*final(postings)) == postings_view(*old(postings)).insert(
            value@,
            (if postings_view(*old(postings)).contains_key(value@) {
                postings_view(*old(postings))[value@]
            } else {
                Seq::empty()
            }).push(id),
        ),
{
    let ghost old_e = postings.entries@;
    let ghost vg = value;
    match postings.position(value.as_str()) {
        Some(i) => {
            proof {
                lemma_first_entry_is_view(old_e, value@, i as int);
            }
            let (k, mut ids) = postings.entries.remove(i);
            ids.push(id);
            let ghost kg = k;
            let ghost ig = ids;
            postings.entries.insert(i, (k, ids));
            proof {
                assert(postings.entries@ =~= old_e.update(i as int, (kg, ig)));
                lemma_update_first(old_e, vg@, i as int, kg, ig);
                assert(postings_view(*postings) =~= postings_view(*old(postings)).insert(
                    vg@,
                    old_e[i as int].1@.push(id),
                ));
            }
        },
        None => {
            proof {
                lemma_absent_key(old_e, value@);
            }
            let mut ids: Vec<PartId> = Vec::new();
            ids.push(id);
            let ghost ig = ids;
            postings.entries.push((value, ids));
            proof {
                lemma_push_absent(old_e, vg, ig);
                assert(ig@ =~= Seq::<PartId>::empty().push(id));
                assert(postings_view(*postings) =~= postings_view(*old(postings)).insert(
                    vg@,
                    Seq::<PartId>::empty().push(id),
                ));
            }
        },
    }
}

/// Appends `id` to the IDs under `key = value`.
fn add_posting(index: &mut InvertedIndex, key: String, value: String, id: PartId)
    ensures
        index_view(*final(index)) == with_posting(index_view(*old(index)), key@, value@, id),
{
    let ghost old_e = index.entries@;
    let ghost kg = key;
    let ghost vg = value;
    match index.position(key.as_str()) {
        Some(i) => {
            proof {
                lemma_first_entry_is_view(old_e, key@, i as int);
            }
            let (k, mut postings) = index.entries.remove(i);
            let ghost before = postings;
            push_posting(&mut postings, value, id);
            let ghost k2 = k;
            let ghost p2 = postings;
            index.entries.insert(i, (k, postings));
            proof {
                assert(index.entries@ =~= old_e.update(i as int, (k2, p2)));
                lemma_update_first(old_e, kg@, i as int, k2, p2);
                assert(before == old_e[i as int].1);
                assert(index_view(*old(index))[kg@] == postings_view(before));
                assert(index_view(*index) =~= index_view(*old(index)).insert(kg@, postings_view(p2)));
                assert(postings_view(p2) =~= values_of(index_view(*old(index)), kg@).insert(
                    vg@,
                    lookup_spec(index_view(*old(index)), kg@, vg@).push(id),
                ));
            }
        },
        None => {
            proof {
                lemma_absent_key(old_e, key@);
            }
            let mut postings: Postings = StrMap::new();
            let ghost fresh = postings;
            push_posting(&mut postings, value, id);
            let ghost p2 = postings;
            index.entries.push((key, postings));
            proof {
                lemma_push_absent(old_e, kg, p2);
                assert(postings_view(fresh) =~= Map::empty());
                assert(index_view(*index) =~= index_view(*old(index)).insert(kg@, postings_view(p2)));
                assert(postings_view(p2) =~= values_of(index_view(*old(index)), kg@).insert(
                    vg@,
                    lookup_spec(index_view(*old(index)), kg@, vg@).push(id),
                ));
            }
        },
    }
}

/// Merges the tag pairs found in a Part into the index: `part_id` is
/// appended under each `(tag_key, tag_value)` of `tag_entries`, in order.
pub fn merge_entries(index: &mut InvertedIndex, part_id: PartId, tag_entries: Vec<(String, String)>)
    ensures
        index_view(*final(index)) == with_postings(index_view(*old(index)), tag_entries@, part_id),
{
    let ghost all = tag_entries@;
    let ghost n = all.len();
    for entry in it: tag_entries
        invariant
            it.seq() == all,
            n == all.len(),
            index_view(*index) == with_postings(
                index_view(*old(index)),
                all.subrange(0, it.index() as int),
                part_id,
            ),
    {
        let ghost i = it.index();
        proof {
            assert(entry == all[i as int]);
            assert(all.subrange(0, i + 1).drop_last() == all.subrange(0, i as int));
            assert(all.subrange(0, i + 1).last() == entry);
        }
        let (key, value) = entry;
        add_posting(index, key, value, part_id);
    }
    proof {
        assert(all.subrange(0, n as int) == all);
    }
}

/// `ids` with every occurrence of `part_id` taken out, the rest in order.
fn without_part_ids(ids: Vec<PartId>, part_id: &PartId) -> (r: Vec<PartId>)
    ensures
        r@ == without_id(ids@, *part_id),
{
    let ghost all = ids@;
    let mut kept: Vec<PartId> = Vec::new();
    for id in it: ids
        invariant
            it.seq() == all,
            kept@ == without_id(all.subrange(0, it.index() as int), *part_id),
    {
        let ghost i = it.index();
        proof {
            assert(id == all[i as int]);
            assert(all.subrange(0, i + 1).drop_last() == all.subrange(0, i as int));
            assert(all.subrange(0, i + 1).last() == id);
        }
        if id != *part_id {
            kept.push(id);
        }
    }
    proof {
        assert(all.subrange(0, all.len() as int) == all);
    }
    kept
}

/// A postings list with `part_id` taken out of every list.
fn postings_without(postings: Postings, part_id: &PartId) -> (r: Postings)
    ensures
        postings_view(r) == postings_view(postings).map_values(|ids: Seq<PartId>| without_id(ids, *part_id)),
{
    let ghost all = postings.entries@;
    let mut out: Vec<(String, Vec<PartId>)> = Vec::new();
    for entry in it: postings.entries
        invariant
            it.seq() == all,
            out@.len() == it.index(),
            forall|j: int|
                0 <= j < it.index() ==> (#[trigger] out@[j]).0@ == all[j].0@ && out@[j].1@
                    == without_id(all[j].1@, *part_id),
    {
        let ghost i = it.index();
        proof {
            assert(entry == all[i as int]);
        }
        let (value, ids) = entry;
        let kept = without_part_ids(ids, part_id);
        out.push((value, kept));
    }
    let r = StrMap { entries: out };
    proof {
        let rel = |a: Vec<PartId>, b: Vec<PartId>| b@ == without_id(a@, *part_id);
        assert forall|j: int| 0 <= j < all.len() implies (#[trigger] r.entries@[j]).0@ == all[j].0@
            && rel(all[j].1, r.entries@[j].1) by {}
        lemma_related_values(all, r.entries@, rel);
        assert(postings_view(r) =~= postings_view(postings).map_values(
            |ids: Seq<PartId>| without_id(ids, *part_id),
        ));
    }
    r
}

/// Removes a Part from every list of the index. Every tag key and value
/// stays indexed, with `part_id` taken out of its list.
pub fn remove_part(index: &mut InvertedIndex, part_id: &PartId)
    ensures
        index_view(*final(index)) == without_part(index_view(*old(index)), *part_id),
{
    let mut taken: Vec<(String, Postings)> = Vec::new();
    std::mem::swap(&mut taken, &mut index.entries);
    let ghost all = taken@;
    proof {
        assert(all == old(index).entries@);
    }
    let mut out: Vec<(String, Postings)> = Vec::new();
    for entry in it: taken
        invariant
            it.seq() == all,
            out@.len() == it.index(),
            forall|j: int|
                0 <= j < it.index() ==> (#[trigger] out@[j]).0@ == all[j].0@ && postings_view(
                    out@[j].1,
                ) == postings_view(all[j].1).map_values(
                    |ids: Seq<PartId>| without_id(ids, *part_id),
                ),
    {
        let ghost i = it.index();
        proof {
            assert(entry == all[i as int]);
        }
        let (key, postings) = entry;
        let cleaned = postings_without(postings, part_id);
        out.push((key, cleaned));
    }
    index.entries = out;
    proof {
        let rel = |a: Postings, b: Postings|
            postings_view(b) == postings_view(a).map_values(
                |ids: Seq<PartId>| without_id(ids, *part_id),
            );
        assert forall|j: int| 0 <= j < all.len() implies (#[trigger] index.entries@[j]).0@
            == all[j].0@ && rel(all[j].1, index.entries@[j].1) by {}
        lemma_related_values(all, index.entries@, rel);
        assert(index_view(*index) =~= without_part(index_view(*old(index)), *part_id));
    }
}

/// The Part IDs indexed under `tag_key = tag_value`; empty when the key or
/// the value is not indexed.
pub fn lookup(index: &InvertedIndex, tag_key: &str, tag_value: &str) -> (r: Vec<PartId>)
    ensures
        r@ == lookup_spec(index_view(*index), tag_key@, tag_value@),
{
    match index.get(tag_key) {
        None => Vec::new(),
        Some(postings) => match postings.get(tag_value) {
            None => Vec::new(),
            Some(ids) => {
                let mut out: Vec<PartId> = Vec::new();
                let n = ids.len();
                let mut i: usize = 0;
                while i < n
                    invariant
                        n == ids@.len(),
                        0 <= i <= n,
                        out@ == ids@.subrange(0, i as int),
                    decreases n - i,
                {
                    out.push(ids[i].clone());
                    proof {
                        assert(ids@.subrange(0, i + 1) =~= ids@.subrange(0, i as int).push(ids@[i as int]));
                    }
                    i = i + 1;
                }
                proof {
                    assert(ids@.subrange(0, n as int) =~= ids@);
                }
                out
            },
        },
    }
}

/// The texts of a list of tag pairs.
pub open spec fn pair_views(v: Seq<(String, String)>) -> Seq<(Seq<char>, Seq<char>)> {
    v.map_values(|p: (String, String)| (p.0@, p.1@))
}

/// Whether some row carries tag `key = value`.
pub open spec fn rows_carry(rows: Seq<Row>, key: Seq<char>, value: Seq<char>) -> bool {
    exists|i: int|
        0 <= i < rows.len() && (#[trigger] rows[i]).tags.deep_view().contains_key(key)
            && rows[i].tags.deep_view()[key] == value
}

/// Whether `v` holds the pair `(key, value)`.
fn holds_pair(v: &Vec<(String, String)>, key: &str, value: &str) -> (r: bool)
    ensures
        r == pair_views(v@).contains((key@, value@)),
{
    let n = v.len();
    let mut i: usize = 0;
    while i < n
        invariant
            n == v@.len(),
            0 <= i <= n,
            forall|j: int| 0 <= j < i ==> (#[trigger] pair_views(v@)[j]) != (key@, value@),
        decreases n - i,
    {
        if v[i].0.as_str().eq(key) && v[i].1.as_str().eq(value) {
            proof {
                assert(pair_views(v@)[i as int] == (key@, value@));
            }
            return true;
        }
        i = i + 1;
    }
    false
}

/// The distinct `(tag_key, tag_value)` pairs that the rows carry, each
/// once, in order of first appearance (a row's tags by ascending key): what
/// indexing a Part records for it.
pub fn collect_tag_pairs(rows: &[Row]) -> (r: Vec<(String, String)>)
    ensures
        pair_views(r@).no_duplicates(),
        forall|k: Seq<char>, v: Seq<char>| #[trigger] pair_views(r@).contains((k, v)) <==> rows_carry(rows@, k, v),
{
    let mut out: Vec<(String, String)> = Vec::new();
    let n = rows.len();
    let mut i: usize = 0;
    while i < n
        invariant
            n == rows@.len(),
            0 <= i <= n,
            pair_views(out@).no_duplicates(),
            forall|k: Seq<char>, v: Seq<char>|
                #[trigger] pair_views(out@).contains((k, v)) <==> rows_carry(rows@.subrange(0, i as int), k, v),
        decreases n - i,
    {
        let entries = tag_entries(&rows[i].tags);
        let ghost row = rows@[i as int];
        let m = entries.len();
        let mut j: usize = 0;
        while j < m
            invariant
                n == rows@.len(),
                i < n,
                row == rows@[i as int],
                m == entries@.len(),
                0 <= j <= m,
                forall|t: int|
                    0 <= t < m ==> row.tags.deep_view().contains_key((#[trigger] entries@[t]).0@)
                        && row.tags.deep_view()[entries@[t].0@] == entries@[t].1@,
                forall|k: Seq<char>|
                    #[trigger] row.tags.deep_view().contains_key(k) ==> exists|t: int| 0 <= t < m && entries@[t].0@ == k,
                pair_views(out@).no_duplicates(),
                forall|k: Seq<char>, v: Seq<char>|
                    #[trigger] pair_views(out@).contains((k, v)) <==> (rows_carry(rows@.subrange(0, i as int), k, v)
                        || exists|t: int| 0 <= t < j && entries@[t].0@ == k && entries@[t].1@ == v),
            decreases m - j,
        {
            let key = &entries[j].0;
            let value = &entries[j].1;
            let ghost before = out@;
            if !holds_pair(&out, key.as_str(), value.as_str()) {
                out.push((key.clone(), value.clone()));
                proof {
                    assert(pair_views(out@) =~= pair_views(before).push((key@, value@)));
                }
            }
            proof {
                assert forall|k: Seq<char>, v: Seq<char>|
                    #[trigger] pair_views(out@).contains((k, v)) <==> (rows_carry(rows@.subrange(0, i as int), k, v)
                        || exists|t: int| 0 <= t < j + 1 && entries@[t].0@ == k && entries@[t].1@ == v) by {
                    if exists|t: int| 0 <= t < j + 1 && entries@[t].0@ == k && entries@[t].1@ == v {
                        let t = choose|t: int| 0 <= t < j + 1 && entries@[t].0@ == k && entries@[t].1@ == v;
                        if t < j {
                            assert(pair_views(before).contains((k, v)));
                            let w = choose|w: int| 0 <= w < pair_views(before).len() && pair_views(before)[w] == (k, v);
                            assert(pair_views(out@)[w] == (k, v));
                        } else {
                            assert(k == key@ && v == value@);
                            if pair_views(before).contains((k, v)) {
                                let w = choose|w: int| 0 <= w < pair_views(before).len() && pair_views(before)[w] == (k, v);
                                assert(pair_views(out@)[w] == (k, v));
                            } else {
                                assert(pair_views(out@)[pair_views(out@).len() - 1] == (k, v));
                            }
                        }
                    }
                    if pair_views(out@).contains((k, v)) && !pair_views(before).contains((k, v)) {
                        assert(k == key@ && v == value@);
                    }
                    if pair_views(before).contains((k, v)) {
                        let w = choose|w: int| 0 <= w < pair_views(before).len() && pair_views(before)[w] == (k, v);
                        assert(pair_views(out@)[w] == (k, v));
                    }
                }
            }
            j = j + 1;
        }
        proof {
            let pre = rows@.subrange(0, i as int);
            let next = rows@.subrange(0, i + 1);
            assert forall|k: Seq<char>, v: Seq<char>| rows_carry(next, k, v) <==> (rows_carry(pre, k, v) || exists|t: int|
                0 <= t < m && entries@[t].0@ == k && entries@[t].1@ == v) by {
                if rows_carry(next, k, v) {
                    let w = choose|w: int|
                        0 <= w < next.len() && (#[trigger] next[w]).tags.deep_view().contains_key(k)
                            && next[w].tags.deep_view()[k] == v;
                    if w < i {
                        assert(pre[w] == next[w]);
                    } else {
                        assert(next[w] == row);
                        let t = choose|t: int| 0 <= t < m && entries@[t].0@ == k;
                    }
                }
                if rows_carry(pre, k, v) {
                    let w = choose|w: int|
                        0 <= w < pre.len() && (#[trigger] pre[w]).tags.deep_view().contains_key(k)
                            && pre[w].tags.deep_view()[k] == v;
                    assert(next[w] == pre[w]);
                }
                if exists|t: int| 0 <= t < m && entries@[t].0@ == k && entries@[t].1@ == v {
                    let t = choose|t: int| 0 <= t < m && entries@[t].0@ == k && entries@[t].1@ == v;
                    assert(next[i as int] == row);
                    assert(rows_carry(next, k, v));
                }
            }
        }
        i = i + 1;
    }
    proof {
        assert(rows@.subrange(0, n as int) =~= rows@);
    }
    out
}

/// How many pairs of `entries` are `key = value`.
pub open spec fn pair_count(entries: Seq<(String, String)>, key: Seq<char>, value: Seq<char>) -> nat
    decreases entries.len(),
{
    if entries.len() == 0 {
        0
    } else {
        let last = entries.last();
        pair_count(entries.drop_last(), key, value) + if last.0@ == key && last.1@ == value {
            1nat
        } else {
            0nat
        }
    }
}

/// `n` copies of `id`.
pub open spec fn copies(id: PartId, n: nat) -> Seq<PartId> {
    Seq::new(n, |i: int| id)
}

/// Appending under one pair changes the list of that pair alone.
pub proof fn lemma_with_posting_lookup(
    view: IndexView,
    key: Seq<char>,
    value: Seq<char>,
    id: PartId,
    k: Seq<char>,
    v: Seq<char>,
)
    ensures
        lookup_spec(with_posting(view, key, value, id), k, v) == if key == k && value == v {
            lookup_spec(view, k, v).push(id)
        } else {
            lookup_spec(view, k, v)
        },
{
}

/// Merging a Part's tag pairs leaves each list as it was, followed by one
/// copy of the Part's ID for each time its pair occurs among the entries:
/// a merge only appends, and every merged pair then finds the Part.
pub proof fn lemma_merge_appends(
    view: IndexView,
    entries: Seq<(String, String)>,
    id: PartId,
    k: Seq<char>,
    v: Seq<char>,
)
    ensures
        lookup_spec(with_postings(view, entries, id), k, v) == lookup_spec(view, k, v) + copies(
            id,
            pair_count(entries, k, v),
        ),
    decreases entries.len(),
{
    if entries.len() == 0 {
        assert(lookup_spec(view, k, v) + copies(id, 0) =~= lookup_spec(view, k, v));
    } else {
        let rest = entries.drop_last();
        let last = entries.last();
        lemma_merge_appends(view, rest, id, k, v);
        lemma_with_posting_lookup(with_postings(view, rest, id), last.0@, last.1@, id, k, v);
        if last.0@ == k && last.1@ == v {
            assert(lookup_spec(view, k, v) + copies(id, pair_count(entries, k, v)) =~= (
            lookup_spec(view, k, v) + copies(id, pair_count(rest, k, v))).push(id));
        }
    }
}

/// After a merge, every pair among the entries finds the merged Part.
pub proof fn lemma_merged_pair_found(
    view: IndexView,
    entries: Seq<(String, String)>,
    id: PartId,
    j: int,
)
    requires
        0 <= j < entries.len(),
    ensures
        lookup_spec(with_postings(view, entries, id), entries[j].0@, entries[j].1@).contains(id),
    decreases entries.len(),
{
    let k = entries[j].0@;
    let v = entries[j].1@;
    let rest = entries.drop_last();
    let last = entries.last();
    lemma_with_posting_lookup(with_postings(view, rest, id), last.0@, last.1@, id, k, v);
    if j == entries.len() - 1 {
        let r = lookup_spec(with_postings(view, entries, id), k, v);
        assert(r[r.len() - 1] == id);
    } else {
        assert(rest[j] == entries[j]);
        lemma_merged_pair_found(view, rest, id, j);
        let r0 = lookup_spec(with_postings(view, rest, id), k, v);
        let w = choose|i: int| 0 <= i < r0.len() && r0[i] == id;
        let r = lookup_spec(with_postings(view, entries, id), k, v);
        assert(r[w] == id);
    }
}

/// What `without_id` keeps: no occurrence of `id`, and every other ID of
/// the list.
pub proof fn lemma_without_id(ids: Seq<PartId>, id: PartId)
    ensures
        forall|i: int|
            0 <= i < without_id(ids, id).len() ==> #[trigger] without_id(ids, id)[i]
                != id,
        forall|x: PartId| #[trigger]
            ids.contains(x) && x != id ==> without_id(ids, id).contains(x),
    decreases ids.len(),
{
    if ids.len() > 0 {
        let rest = ids.drop_last();
        lemma_without_id(rest, id);
        let r = without_id(ids, id);
        let r0 = without_id(rest, id);
        assert forall|x: PartId| #[trigger] ids.contains(x) && x != id implies r.contains(x) by {
            let w = choose|i: int| 0 <= i < ids.len() && ids[i] == x;
            if w == ids.len() - 1 {
                assert(r[r.len() - 1] == x);
            } else {
                assert(rest[w] == x);
                assert(rest.contains(x));
                let w0 = choose|i: int| 0 <= i < r0.len() && r0[i] == x;
                assert(r[w0] == x);
            }
        }
    }
}

/// Taking out an ID that a list does not hold leaves the list as it is.
pub proof fn lemma_without_absent_id(ids: Seq<PartId>, id: PartId)
    requires
        !ids.contains(id),
    ensures
        without_id(ids, id) == ids,
    decreases ids.len(),
{
    if ids.len() > 0 {
        let rest = ids.drop_last();
        assert(!rest.contains(id)) by {
            if rest.contains(id) {
                let i = choose|i: int| 0 <= i < rest.len() && rest[i] == id;
                assert(ids[i] == id);
            }
        }
        lemma_without_absent_id(rest, id);
        assert(ids[ids.len() - 1] != id);
        assert(rest.push(ids.last()) =~= ids);
    }
}

/// Taking a Part out of an index that lists it nowhere leaves the index as
/// it is.
pub proof fn lemma_without_part_absent(view: IndexView, id: PartId)
    requires
        forall|k: Seq<char>, v: Seq<char>| !(#[trigger] lookup_spec(view, k, v)).contains(id),
    ensures
        without_part(view, id) == view,
{
    let w = without_part(view, id);
    assert forall|k: Seq<char>| #[trigger] view.contains_key(k) implies w[k] == view[k] by {
        let vals = view[k];
        assert forall|v: Seq<char>| #[trigger] vals.contains_key(v) implies without_id(vals[v], id) == vals[v] by {
            assert(lookup_spec(view, k, v) == vals[v]);
            lemma_without_absent_id(vals[v], id);
        }
        assert(w[k] =~= vals);
    }
    assert(w =~= view);
}

/// After a Part is removed, a lookup never gives its ID, and gives every
/// other ID it gave before.
pub proof fn lemma_removed_part_not_found(view: IndexView, id: PartId, k: Seq<char>, v: Seq<char>)
    ensures
        lookup_spec(without_part(view, id), k, v) == without_id(lookup_spec(view, k, v), id),
        forall|i: int|
            0 <= i < lookup_spec(without_part(view, id), k, v).len() ==> (#[trigger] lookup_spec(
                without_part(view, id),
                k,
                v,
            )[i]) != id,
        forall|x: PartId| #[trigger]
            lookup_spec(view, k, v).contains(x) && x != id ==> lookup_spec(
                without_part(view, id),
                k,
                v,
            ).contains(x),
{
    assert(without_id(Seq::<PartId>::empty(), id) =~= Seq::<PartId>::empty());
    lemma_without_id(lookup_spec(view, k, v), id);
}

/// After the tag pairs of a Part are merged in, a lookup of any of those
/// pairs finds the Part; with the pairs `collect_tag_pairs` gives, that is
/// every pair a row of the Part carries.
pub proof fn lemma_pair_indexed(
    view: IndexView,
    entries: Seq<(String, String)>,
    id: PartId,
    k: Seq<char>,
    v: Seq<char>,
)
    requires
        pair_views(entries).contains((k, v)),
    ensures
        lookup_spec(with_postings(view, entries, id), k, v).contains(id),
{
    let j = choose|j: int| 0 <= j < pair_views(entries).len() && pair_views(entries)[j] == (k, v);
    assert(entries[j].0@ == k && entries[j].1@ == v);
    lemma_merged_pair_found(view, entries, id, j);
}

} // verus!
