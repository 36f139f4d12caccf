//! Query planner: from a parsed query to the list of Parts to scan, pruned
//! by the indexes, cheapest first.
//!
//! 1. Inverted index: equality on a tag gives the exact list of Parts
//!    holding that pair.
//! 2. Min/Max index: a range filter skips a Part whose recorded range of
//!    the column lies wholly outside the filter's range.
//! 3. Bloom filters: equality on a string skips a Part whose filter of the
//!    column definitely lacks the value.
//! 4. What survives is scanned, reading only the projected columns.
//!
//! Reading the index sections of the surviving Parts' files lies between
//! steps 1 and 2 and is the caller's part; the decisions are here.
use crate::common::types::{string_views, PartId, PartMeta};
use crate::storage::catalog::catalog::{lemma_recorded_pair_found, parts_without, Catalog};
use crate::storage::index::bloom::{find_filter, lemma_inserted_value_may_be_contained, BloomFilter, BloomFilterSet};
use crate::storage::index::inverted::{
    index_view, lookup, lookup_spec, with_postings, without_part, IndexView, InvertedIndex,
};
use crate::storage::index::minmax::{find_entry, range_may_overlap, MinMaxEntry, MinMaxIndex};
use super::ast::{Filter, LiteralValue, OrderBy, Projection, SelectQuery};
use vstd::prelude::*;
use vstd::utf8::encode_utf8;

verus! {

/// A physical execution plan produced by the planner.
#[derive(Debug)]
pub struct PhysicalPlan {
    /// The query, for the executor's reference.
    pub query: SelectQuery,
    /// The Parts that survived all index pruning; the executor reads these.
    pub parts_to_scan: Vec<PartScanPlan>,
    /// Whether to also scan the MemTable snapshot.
    pub scan_memtable: bool,
}

/// Plan for scanning a single Part file.
#[derive(Debug)]
pub struct PartScanPlan {
    /// Path to the `.rpart` file.
    pub path: String,
    /// Part metadata.
    pub meta: PartMeta,
    /// Column names to read; empty means all columns.
    pub projected_columns: Vec<String>,
}

// ── Projection ───────────────────────────────────────────────────────

/// The columns a projection list names, in order: a column's name, an
/// aggregate's column; a wildcard names none.
pub open spec fn projection_columns(ps: Seq<Projection>) -> Seq<Seq<char>>
    decreases ps.len(),
{
    if ps.len() == 0 {
        Seq::empty()
    } else {
        let rest = projection_columns(ps.drop_last());
        match ps.last() {
            Projection::Column(name) => rest.push(name@),
            Projection::Agg(agg) => rest.push(agg.column@),
            Projection::Star => rest,
        }
    }
}

/// The column a filter tests.
pub open spec fn filter_column(f: Filter) -> Seq<char> {
    match f {
        Filter::GreaterThan { column, .. } => column@,
        Filter::LessThan { column, .. } => column@,
        Filter::Equals { column, .. } => column@,
        Filter::Between { column, .. } => column@,
    }
}

/// The column of an ORDER BY item.
pub open spec fn order_column(o: OrderBy) -> Seq<char> {
    o.column@
}

/// Every column a query mentions, in order: the projection's, then the
/// filters', the GROUP BY and the ORDER BY columns.
pub open spec fn mentioned_columns(q: SelectQuery) -> Seq<Seq<char>> {
    projection_columns(q.projection@) + q.filters@.map_values(|f: Filter| filter_column(f))
        + string_views(q.group_by@) + q.order_by@.map_values(|o: OrderBy| order_column(o))
}

/// Whether the query reads every column: it projects nothing (`SELECT *`
/// is the empty list) or holds a wildcard.
pub open spec fn reads_all_columns(q: SelectQuery) -> bool {
    q.projection@.len() == 0 || exists|i: int| 0 <= i < q.projection@.len() && #[trigger] q.projection@[i] is Star
}

/// `s` with every repeated item dropped, each item at its first place.
pub open spec fn distinct_in_order(s: Seq<Seq<char>>) -> Seq<Seq<char>>
    decreases s.len(),
{
    if s.len() == 0 {
        s
    } else {
        let d = distinct_in_order(s.drop_last());
        if d.contains(s.last()) {
            d
        } else {
            d.push(s.last())
        }
    }
}

/// The columns the executor reads: none listed (meaning all) when the
/// query reads every column, else each mentioned column once.
pub open spec fn projected_columns(q: SelectQuery) -> Seq<Seq<char>> {
    if reads_all_columns(q) {
        Seq::empty()
    } else {
        distinct_in_order(mentioned_columns(q))
    }
}

/// Appends `name` to `out` unless `out` already holds it.
fn push_distinct(out: &mut Vec<String>, name: &String)
    ensures
        string_views(final(out)@) == (if string_views(old(out)@).contains(name@) {
            string_views(old(out)@)
        } else {
            string_views(old(out)@).push(name@)
        }),
{
    let n = out.len();
    let mut i: usize = 0;
    while i < n
        invariant
            n == out@.len(),
            0 <= i <= n,
            forall|j: int| 0 <= j < i ==> (#[trigger] out@[j])@ != name@,
        decreases n - i,
    {
        if out[i].as_str().eq(name.as_str()) {
            proof {
                assert(string_views(out@)[i as int] == name@);
            }
            return;
        }
        i = i + 1;
    }
    proof {
        assert forall|j: int| 0 <= j < string_views(out@).len() implies string_views(out@)[j] != name@ by {
            assert(string_views(out@)[j] == out@[j]@);
        }
    }
    let ghost before = out@;
    out.push(name.clone());
    proof {
        assert(string_views(out@) =~= string_views(before).push(name@));
    }
}

/// Every column that a query mentions, in order, repeats included.
fn mention_list(query: &SelectQuery) -> (r: Vec<String>)
    ensures
        string_views(r@) == mentioned_columns(*query),
{
    let mut out: Vec<String> = Vec::new();
    let ps = &query.projection;
    let mut i: usize = 0;
    while i < ps.len()
        invariant
            0 <= i <= ps@.len(),
            string_views(out@) == projection_columns(ps@.subrange(0, i as int)),
        decreases ps@.len() - i,
    {
        let ghost before = out@;
        proof {
            assert(ps@.subrange(0, i + 1).drop_last() =~= ps@.subrange(0, i as int));
        }
        match &ps[i] {
            Projection::Column(name) => {
                out.push(name.clone());
                proof {
                    assert(string_views(out@) =~= string_views(before).push(name@));
                }
            },
            Projection::Agg(agg) => {
                out.push(agg.column.clone());
                proof {
                    assert(string_views(out@) =~= string_views(before).push(agg.column@));
                }
            },
            Projection::Star => {},
        }
        i = i + 1;
    }
    proof {
        assert(ps@.subrange(0, ps@.len() as int) =~= ps@);
    }
    let ghost head = string_views(out@);
    let fs = &query.filters;
    let mut i: usize = 0;
    while i < fs.len()
        invariant
            0 <= i <= fs@.len(),
            string_views(out@) == head + fs@.subrange(0, i as int).map_values(|f: Filter| filter_column(f)),
        decreases fs@.len() - i,
    {
        let ghost before = out@;
        let column = match &fs[i] {
            Filter::GreaterThan { column, .. } => column,
            Filter::LessThan { column, .. } => column,
            Filter::Equals { column, .. } => column,
            Filter::Between { column, .. } => column,
        };
        out.push(column.clone());
        proof {
            assert(fs@.subrange(0, i + 1).map_values(|f: Filter| filter_column(f)) =~= fs@.subrange(
                0,
                i as int,
            ).map_values(|f: Filter| filter_column(f)).push(filter_column(fs@[i as int])));
            assert(string_views(out@) =~= string_views(before).push(column@));
        }
        i = i + 1;
    }
    proof {
        assert(fs@.subrange(0, fs@.len() as int) =~= fs@);
    }
    let ghost head = string_views(out@);
    let gs = &query.group_by;
    let mut i: usize = 0;
    while i < gs.len()
        invariant
            0 <= i <= gs@.len(),
            string_views(out@) == head + string_views(gs@.subrange(0, i as int)),
        decreases gs@.len() - i,
    {
        let ghost before = out@;
        out.push(gs[i].clone());
        proof {
            assert(string_views(gs@.subrange(0, i + 1)) =~= string_views(gs@.subrange(0, i as int)).push(
                gs@[i as int]@,
            ));
            assert(string_views(out@) =~= string_views(before).push(gs@[i as int]@));
        }
        i = i + 1;
    }
    proof {
        assert(gs@.subrange(0, gs@.len() as int) =~= gs@);
    }
    let ghost head = string_views(out@);
    let os = &query.order_by;
    let mut i: usize = 0;
    while i < os.len()
        invariant
            0 <= i <= os@.len(),
            string_views(out@) == head + os@.subrange(0, i as int).map_values(|o: OrderBy| order_column(o)),
        decreases os@.len() - i,
    {
        let ghost before = out@;
        out.push(os[i].column.clone());
        proof {
            assert(os@.subrange(0, i + 1).map_values(|o: OrderBy| order_column(o)) =~= os@.subrange(
                0,
                i as int,
            ).map_values(|o: OrderBy| order_column(o)).push(order_column(os@[i as int])));
            assert(string_views(out@) =~= string_views(before).push(os@[i as int].column@));
        }
        i = i + 1;
    }
    proof {
        assert(os@.subrange(0, os@.len() as int) =~= os@);
    }
    out
}

/// The column names to read from the Part files: each column that the
/// projection, the filters, GROUP BY and ORDER BY mention, once, in order
/// of first mention; empty (meaning all columns) for a query that projects
/// nothing or holds a wildcard.
pub fn extract_projected_columns(query: &SelectQuery) -> (r: Vec<String>)
    ensures
        string_views(r@) == projected_columns(*query),
{
    let ps = &query.projection;
    if ps.len() == 0 {
        return Vec::new();
    }
    let mut i: usize = 0;
    while i < ps.len()
        invariant
            ps@ == query.projection@,
            0 <= i <= ps@.len(),
            forall|j: int| 0 <= j < i ==> !(#[trigger] ps@[j] is Star),
        decreases ps@.len() - i,
    {
        if let Projection::Star = &ps[i] {
            proof {
                assert(query.projection@[i as int] is Star);
                assert(reads_all_columns(*query));
            }
            return Vec::new();
        }
        i = i + 1;
    }
    let mentions = mention_list(query);
    let ghost m = string_views(mentions@);
    let mut out: Vec<String> = Vec::new();
    let mut i: usize = 0;
    while i < mentions.len()
        invariant
            m == string_views(mentions@),
            0 <= i <= mentions@.len(),
            string_views(out@) == distinct_in_order(m.subrange(0, i as int)),
        decreases mentions@.len() - i,
    {
        proof {
            assert(m.subrange(0, i + 1).drop_last() =~= m.subrange(0, i as int));
            assert(m.subrange(0, i + 1).last() == mentions@[i as int]@);
        }
        push_distinct(&mut out, &mentions[i]);
        i = i + 1;
    }
    proof {
        assert(m.subrange(0, m.len() as int) =~= m);
    }
    out
}

// ── Stage 1: the inverted index ──────────────────────────────────────

/// The Part IDs an equality filter allows by the inverted index: for
/// `column = 'text'` on a column the index holds as a tag key, the IDs
/// indexed under that pair; no restriction (`None`) for any other filter.
pub open spec fn inverted_ids(view: IndexView, f: Filter) -> Option<Seq<PartId>> {
    match f {
        Filter::Equals { column, value } => match value {
            LiteralValue::Str(text) => if view.contains_key(column@) {
                Some(lookup_spec(view, column@, text@))
            } else {
                None
            },
            _ => None,
        },
        _ => None,
    }
}

/// Whether the Part `id` passes every restriction that the filters put on
/// it through the inverted index.
pub open spec fn passes_inverted(view: IndexView, filters: Seq<Filter>, id: PartId) -> bool {
    forall|i: int|
        0 <= i < filters.len() ==> match inverted_ids(view, #[trigger] filters[i]) {
            Some(ids) => ids.contains(id),
            None => true,
        }
}

/// The Parts of `parts` that pass the inverted index, in order.
pub open spec fn inverted_survivors(view: IndexView, filters: Seq<Filter>, parts: Seq<PartMeta>) -> Seq<PartMeta>
    decreases parts.len(),
{
    if parts.len() == 0 {
        parts
    } else {
        let rest = inverted_survivors(view, filters, parts.drop_last());
        if passes_inverted(view, filters, parts.last().id) {
            rest.push(parts.last())
        } else {
            rest
        }
    }
}

/// A copy of a Part's metadata.
fn copy_meta(m: &PartMeta) -> (r: PartMeta)
    ensures
        r == *m,
{
    PartMeta {
        id: m.id,
        path: m.path.clone(),
        min_ts: m.min_ts,
        max_ts: m.max_ts,
        size_bytes: m.size_bytes,
        row_count: m.row_count,
        created_at: m.created_at,
    }
}

/// The restriction of one filter, read from the index.
fn filter_ids(index: &InvertedIndex, f: &Filter) -> (r: Option<Vec<PartId>>)
    ensures
        match inverted_ids(index_view(*index), *f) {
            Some(ids) => r matches Some(v) && v@ == ids,
            None => r is None,
        },
{
    match f {
        Filter::Equals { column, value } => match value {
            LiteralValue::Str(text) => match index.get(column.as_str()) {
                None => None,
                Some(_) => Some(lookup(index, column.as_str(), text.as_str())),
            },
            _ => None,
        },
        _ => None,
    }
}

/// Whether `ids` holds `id`.
fn ids_contain(ids: &Vec<PartId>, id: PartId) -> (r: bool)
    ensures
        r == ids@.contains(id),
{
    let n = ids.len();
    let mut i: usize = 0;
    while i < n
        invariant
            n == ids@.len(),
            0 <= i <= n,
            forall|j: int| 0 <= j < i ==> ids@[j] != id,
        decreases n - i,
    {
        if ids[i] == id {
            return true;
        }
        i = i + 1;
    }
    false
}

/// Whether `c` is the restriction `o` in executable form.
pub open spec fn restriction_is(c: Option<Vec<PartId>>, o: Option<Seq<PartId>>) -> bool {
    match o {
        Some(ids) => c matches Some(v) && v@ == ids,
        None => c is None,
    }
}

/// Whether `id` passes every restriction of `cs`.
fn passes_all(cs: &Vec<Option<Vec<PartId>>>, id: PartId) -> (r: bool)
    ensures
        r == forall|j: int| 0 <= j < cs@.len() ==> match #[trigger] cs@[j] {
            Some(v) => v@.contains(id),
            None => true,
        },
{
    let n = cs.len();
    let mut i: usize = 0;
    while i < n
        invariant
            n == cs@.len(),
            0 <= i <= n,
            forall|j: int| 0 <= j < i ==> match #[trigger] cs@[j] {
                Some(v) => v@.contains(id),
                None => true,
            },
        decreases n - i,
    {
        if let Some(v) = &cs[i] {
            if !ids_contain(v, id) {
                return false;
            }
        }
        i = i + 1;
    }
    true
}

/// The Parts of the query's table that the inverted index lets through,
/// in the order they were added: a Part is kept when, for each equality
/// filter `column = 'text'` whose column the table's index holds as a tag
/// key, the index lists the Part under that pair. Other filters keep every
/// Part here; an unknown table has no Parts.
pub fn candidate_parts(query: &SelectQuery, catalog: &Catalog) -> (r: Vec<PartMeta>)
    ensures
        r@ == inverted_survivors(catalog.index_of(query.table@), query.filters@, catalog.parts_of(query.table@)),
{
    let ghost view = catalog.index_of(query.table@);
    let ghost all = catalog.parts_of(query.table@);
    let tc = match catalog.tables.get(query.table.as_str()) {
        None => {
            proof {
                assert(all.len() == 0);
                assert(inverted_survivors(view, query.filters@, all) == all);
            }
            return Vec::new();
        },
        Some(tc) => tc,
    };
    assert(index_view(tc.inverted_index) == view);
    assert(tc.parts@ == all);
    let fs = &query.filters;
    let mut cs: Vec<Option<Vec<PartId>>> = Vec::new();
    let mut i: usize = 0;
    while i < fs.len()
        invariant
            index_view(tc.inverted_index) == view,
            0 <= i <= fs@.len(),
            cs@.len() == i,
            forall|j: int| 0 <= j < i ==> restriction_is(#[trigger] cs@[j], inverted_ids(view, fs@[j])),
        decreases fs@.len() - i,
    {
        let c = filter_ids(&tc.inverted_index, &fs[i]);
        cs.push(c);
        i = i + 1;
    }
    let parts = &tc.parts;
    let mut out: Vec<PartMeta> = Vec::new();
    let mut k: usize = 0;
    while k < parts.len()
        invariant
            parts@ == all,
            fs@ == query.filters@,
            cs@.len() == fs@.len(),
            forall|j: int| 0 <= j < fs@.len() ==> restriction_is(#[trigger] cs@[j], inverted_ids(view, fs@[j])),
            0 <= k <= parts@.len(),
            out@ == inverted_survivors(view, fs@, all.subrange(0, k as int)),
        decreases parts@.len() - k,
    {
        let p = &parts[k];
        let keep = passes_all(&cs, p.id);
        proof {
            assert(all.subrange(0, k + 1).drop_last() =~= all.subrange(0, k as int));
            assert(all.subrange(0, k + 1).last() == *p);
            if keep {
                assert forall|i: int| 0 <= i < fs@.len() implies match inverted_ids(view, #[trigger] fs@[i]) {
                    Some(ids) => ids.contains(p.id),
                    None => true,
                } by {
                    assert(restriction_is(cs@[i], inverted_ids(view, fs@[i])));
                }
            } else {
                let j = choose|j: int| 0 <= j < cs@.len() && !match #[trigger] cs@[j] {
                    Some(v) => v@.contains(p.id),
                    None => true,
                };
                assert(restriction_is(cs@[j], inverted_ids(view, fs@[j])));
                assert(!passes_inverted(view, fs@, p.id));
            }
        }
        if keep {
            out.push(copy_meta(p));
        }
        k = k + 1;
    }
    proof {
        assert(all.subrange(0, all.len() as int) =~= all);
    }
    out
}

// ── Stages 2 and 3: the Min/Max index and the Bloom filters ──────────

/// The u64 code of a literal in the Min/Max index: an integer's raw bits,
/// a float's IEEE-754 bits, 0 or 1 for a boolean. A string has none: the
/// index records strings by hash, which keeps no order.
pub open spec fn literal_code(v: LiteralValue) -> Option<u64> {
    match v {
        LiteralValue::Int(i) => Some(i as u64),
        LiteralValue::Float(bits) => Some(bits),
        LiteralValue::Bool(b) => Some(if b { 1u64 } else { 0u64 }),
        LiteralValue::Str(_) => None,
    }
}

/// The closed range of codes that a range filter asks for, with its
/// column: `> v` and `>= v` ask for `[v, u64::MAX]`, `< v` and `<= v` for
/// `[0, v]`, `BETWEEN lo AND hi` for `[lo, hi]`. The bound itself is kept
/// either way, so a strict bound alone skips no Part. Equality, and a
/// literal without a code, give no range.
pub open spec fn filter_range(f: Filter) -> Option<(Seq<char>, u64, u64)> {
    match f {
        Filter::GreaterThan { column, value, .. } => match literal_code(value) {
            Some(c) => Some((column@, c, u64::MAX)),
            None => None,
        },
        Filter::LessThan { column, value, .. } => match literal_code(value) {
            Some(c) => Some((column@, 0u64, c)),
            None => None,
        },
        Filter::Between { column, low, high } => match (literal_code(low), literal_code(high)) {
            (Some(lo), Some(hi)) => Some((column@, lo, hi)),
            _ => None,
        },
        Filter::Equals { .. } => None,
    }
}

/// Whether the Min/Max index lets a Part through one filter: the column's
/// recorded range meets the filter's range, or the filter has no range.
pub open spec fn minmax_admits(entries: Seq<MinMaxEntry>, f: Filter) -> bool {
    match filter_range(f) {
        Some((column, lo, hi)) => range_may_overlap(entries, column, lo, hi),
        None => true,
    }
}

/// Whether the Bloom filters let a Part through one filter: for
/// `column = 'text'`, the column's filter, if the Part has one of sound
/// shape, may hold the UTF-8 bytes of the text; any other filter passes.
pub open spec fn bloom_admits(filters: Option<Seq<BloomFilter>>, f: Filter) -> bool {
    match f {
        Filter::Equals { column, value } => match value {
            LiteralValue::Str(text) => match filters {
                Some(fs) => match find_filter(fs, column@) {
                    Some(bf) => bf.wf() ==> bf.may_contain_spec(encode_utf8(text@)),
                    None => true,
                },
                None => true,
            },
            _ => true,
        },
        _ => true,
    }
}

/// The filters of a Part's Bloom section, if it has one.
pub open spec fn bloom_filters(bloom: Option<BloomFilterSet>) -> Option<Seq<BloomFilter>> {
    match bloom {
        Some(set) => Some(set.filters@),
        None => None,
    }
}

/// Whether a Part's indexes let it through every filter of a query.
pub open spec fn indexes_admit(filters: Seq<Filter>, minmax: MinMaxIndex, bloom: Option<BloomFilterSet>) -> bool {
    forall|i: int|
        0 <= i < filters.len() ==> minmax_admits(minmax.entries@, #[trigger] filters[i]) && bloom_admits(
            bloom_filters(bloom),
            filters[i],
        )
}

/// The code of a literal, if it has one.
fn code_of(v: &LiteralValue) -> (r: Option<u64>)
    ensures
        r == literal_code(*v),
{
    match v {
        LiteralValue::Int(i) => Some(*i as u64),
        LiteralValue::Float(bits) => Some(*bits),
        LiteralValue::Bool(b) => Some(if *b { 1u64 } else { 0u64 }),
        LiteralValue::Str(_) => None,
    }
}

/// Whether one filter lets the Part through its Min/Max index.
fn minmax_check(minmax: &MinMaxIndex, f: &Filter) -> (r: bool)
    ensures
        r == minmax_admits(minmax.entries@, *f),
{
    match f {
        Filter::GreaterThan { column, value, .. } => match code_of(value) {
            Some(c) => minmax.may_contain_range(column.as_str(), c, u64::MAX),
            None => true,
        },
        Filter::LessThan { column, value, .. } => match code_of(value) {
            Some(c) => minmax.may_contain_range(column.as_str(), 0, c),
            None => true,
        },
        Filter::Between { column, low, high } => match (code_of(low), code_of(high)) {
            (Some(lo), Some(hi)) => minmax.may_contain_range(column.as_str(), lo, hi),
            _ => true,
        },
        Filter::Equals { .. } => true,
    }
}

/// Whether one filter lets the Part through its Bloom filters.
fn bloom_check(bloom: &Option<BloomFilterSet>, f: &Filter) -> (r: bool)
    ensures
        r == bloom_admits(bloom_filters(*bloom), *f),
{
    match f {
        Filter::Equals { column, value } => match value {
            LiteralValue::Str(text) => match bloom {
                Some(set) => match set.get(column.as_str()) {
                    Some(bf) => {
                        if bf.is_well_formed() {
                            bf.may_contain(text.as_str().as_bytes())
                        } else {
                            true
                        }
                    },
                    None => true,
                },
                None => true,
            },
            _ => true,
        },
        _ => true,
    }
}

/// Whether a candidate Part may hold rows that match the query, by its
/// own indexes: `false` when its Min/Max index shows that a range filter's
/// range misses the column's recorded range, or when its Bloom filter for
/// the column of an equality filter on a string definitely lacks the
/// value; `true` otherwise.
pub fn part_may_match(query: &SelectQuery, minmax: &MinMaxIndex, bloom: &Option<BloomFilterSet>) -> (r: bool)
    ensures
        r == indexes_admit(query.filters@, *minmax, *bloom),
{
    let fs = &query.filters;
    let mut i: usize = 0;
    while i < fs.len()
        invariant
            fs@ == query.filters@,
            0 <= i <= fs@.len(),
            forall|j: int|
                0 <= j < i ==> minmax_admits(minmax.entries@, #[trigger] fs@[j]) && bloom_admits(
                    bloom_filters(*bloom),
                    fs@[j],
                ),
        decreases fs@.len() - i,
    {
        if !minmax_check(minmax, &fs[i]) || !bloom_check(bloom, &fs[i]) {
            return false;
        }
        i = i + 1;
    }
    true
}

// ── Stage 4: the plan ────────────────────────────────────────────────

/// A candidate Part with the index sections read from its file.
#[derive(Debug)]
pub struct CandidateIndexes {
    /// Path to the Part's `.rpart` file.
    pub path: String,
    /// The Part's metadata, from the Catalog.
    pub meta: PartMeta,
    /// The Part's Min/Max index.
    pub minmax: MinMaxIndex,
    /// The Part's Bloom filters, if it has a Bloom section.
    pub bloom: Option<BloomFilterSet>,
}

/// The candidates whose indexes let them through, in order.
pub open spec fn index_survivors(filters: Seq<Filter>, cands: Seq<CandidateIndexes>) -> Seq<CandidateIndexes>
    decreases cands.len(),
{
    if cands.len() == 0 {
        cands
    } else {
        let rest = index_survivors(filters, cands.drop_last());
        let c = cands.last();
        if indexes_admit(filters, c.minmax, c.bloom) {
            rest.push(c)
        } else {
            rest
        }
    }
}

/// Whether a scan plan is that of candidate `c` for a query: its path and
/// metadata, and the query's projected columns.
pub open spec fn scans(p: PartScanPlan, c: CandidateIndexes, q: SelectQuery) -> bool {
    &&& p.path == c.path
    &&& p.meta == c.meta
    &&& string_views(p.projected_columns@) == projected_columns(q)
}

/// A copy of a list of strings.
fn copy_strings(v: &Vec<String>) -> (r: Vec<String>)
    ensures
        r@ == v@,
{
    let mut out: Vec<String> = Vec::new();
    let n = v.len();
    let mut i: usize = 0;
    while i < n
        invariant
            n == v@.len(),
            0 <= i <= n,
            out@ == v@.subrange(0, i as int),
        decreases n - i,
    {
        out.push(v[i].clone());
        proof {
            assert(v@.subrange(0, i + 1) =~= v@.subrange(0, i as int).push(v@[i as int]));
        }
        i = i + 1;
    }
    proof {
        assert(v@.subrange(0, n as int) =~= v@);
    }
    out
}

/// The plan of a query from its candidate Parts (those that the inverted
/// index let through, with their index sections read): every candidate
/// whose Min/Max index and Bloom filters let it through is scanned, in
/// order, reading the query's projected columns; the MemTable snapshot is
/// always scanned too, since it holds the rows not yet flushed.
pub fn build_plan(query: SelectQuery, candidates: Vec<CandidateIndexes>) -> (r: PhysicalPlan)
    ensures
        r.query == query,
        r.scan_memtable,
        r.parts_to_scan@.len() == index_survivors(query.filters@, candidates@).len(),
        forall|i: int|
            0 <= i < r.parts_to_scan@.len() ==> scans(
                #[trigger] r.parts_to_scan@[i],
                index_survivors(query.filters@, candidates@)[i],
                query,
            ),
{
    let columns = extract_projected_columns(&query);
    let ghost all = candidates@;
    let mut out: Vec<PartScanPlan> = Vec::new();
    let mut k: usize = 0;
    while k < candidates.len()
        invariant
            candidates@ == all,
            string_views(columns@) == projected_columns(query),
            0 <= k <= all.len(),
            out@.len() == index_survivors(query.filters@, all.subrange(0, k as int)).len(),
            forall|i: int|
                0 <= i < out@.len() ==> scans(
                    #[trigger] out@[i],
                    index_survivors(query.filters@, all.subrange(0, k as int))[i],
                    query,
                ),
        decreases all.len() - k,
    {
        let c = &candidates[k];
        proof {
            assert(all.subrange(0, k + 1).drop_last() =~= all.subrange(0, k as int));
            assert(all.subrange(0, k + 1).last() == *c);
        }
        if part_may_match(&query, &c.minmax, &c.bloom) {
            let plan = PartScanPlan { path: c.path.clone(), meta: copy_meta(&c.meta), projected_columns: copy_strings(&columns) };
            out.push(plan);
        }
        k = k + 1;
    }
    proof {
        assert(all.subrange(0, all.len() as int) =~= all);
    }
    PhysicalPlan { query, parts_to_scan: out, scan_memtable: true }
}

// ── Laws ─────────────────────────────────────────────────────────────

/// The inverted stage keeps exactly the table's Parts that pass it: a Part
/// is among the survivors if and only if it is among the Parts and the
/// index lets its ID through every filter.
pub proof fn lemma_survivor_iff(view: IndexView, filters: Seq<Filter>, parts: Seq<PartMeta>, p: PartMeta)
    ensures
        inverted_survivors(view, filters, parts).contains(p) <==> parts.contains(p) && passes_inverted(
            view,
            filters,
            p.id,
        ),
    decreases parts.len(),
{
    if parts.len() > 0 {
        let rest = parts.drop_last();
        lemma_survivor_iff(view, filters, rest, p);
        assert(parts =~= rest.push(parts.last()));
        if parts.contains(p) && p != parts.last() {
            let i = choose|i: int| 0 <= i < parts.len() && parts[i] == p;
            assert(rest[i] == p);
        }
        if rest.contains(p) {
            let i = choose|i: int| 0 <= i < rest.len() && rest[i] == p;
            assert(parts[i] == p);
        }
        let s = inverted_survivors(view, filters, rest);
        if passes_inverted(view, filters, parts.last().id) {
            assert(s.push(parts.last())[s.len() as int] == parts.last());
            if s.contains(p) {
                let i = choose|i: int| 0 <= i < s.len() && s[i] == p;
                assert(s.push(parts.last())[i] == p);
            }
            if s.push(parts.last()).contains(p) && p != parts.last() {
                let i = choose|i: int| 0 <= i < s.len() + 1 && s.push(parts.last())[i] == p;
                assert(s[i] == p);
            }
        }
    }
}

/// No false negatives through the inverted index: once the tag pairs of a
/// Part are recorded (`Catalog::update_inverted`), a query whose equality
/// filters on strings each ask for one of those pairs keeps the Part among
/// its candidates.
pub proof fn lemma_indexed_part_is_candidate(
    before: Catalog,
    after: Catalog,
    table: Seq<char>,
    meta: PartMeta,
    tag_entries: Seq<(String, String)>,
    filters: Seq<Filter>,
)
    requires
        after.tables_view() == before.tables_view().insert(
            table,
            (before.parts_of(table), with_postings(before.index_of(table), tag_entries, meta.id)),
        ),
        before.parts_of(table).contains(meta),
        forall|i: int|
            0 <= i < filters.len() ==> match #[trigger] filters[i] {
                Filter::Equals { column, value } => match value {
                    LiteralValue::Str(text) => exists|j: int|
                        0 <= j < tag_entries.len() && #[trigger] tag_entries[j].0@ == column@ && tag_entries[j].1@
                            == text@,
                    _ => true,
                },
                _ => true,
            },
    ensures
        inverted_survivors(after.index_of(table), filters, after.parts_of(table)).contains(meta),
{
    let view = after.index_of(table);
    assert forall|i: int| 0 <= i < filters.len() implies match inverted_ids(view, #[trigger] filters[i]) {
        Some(ids) => ids.contains(meta.id),
        None => true,
    } by {
        match filters[i] {
            Filter::Equals { column, value } => match value {
                LiteralValue::Str(text) => {
                    let j = choose|j: int|
                        0 <= j < tag_entries.len() && #[trigger] tag_entries[j].0@ == column@ && tag_entries[j].1@
                            == text@;
                    lemma_recorded_pair_found(before, after, table, meta.id, tag_entries, j);
                },
                _ => {},
            },
            _ => {},
        }
    }
    assert(after.parts_of(table) == before.parts_of(table));
    lemma_survivor_iff(view, filters, after.parts_of(table), meta);
}

/// Min/Max pruning is sound: when a Part's recorded range for the column
/// of a range filter holds a value that satisfies the filter, the index
/// lets the Part through. Values are compared as the index records them:
/// an integer by its raw bits, a float by its IEEE-754 bits, a boolean as
/// 0 or 1 (a string range is never pruned).
pub proof fn lemma_minmax_pruning_sound(entries: Seq<MinMaxEntry>, f: Filter, v: u64)
    requires
        find_entry(entries, filter_column(f)) matches Some(e) && e.min_val <= v <= e.max_val,
        ({
            let code = |x: LiteralValue|
                match x {
                    LiteralValue::Int(i) => Some(i as u64),
                    LiteralValue::Float(b) => Some(b),
                    LiteralValue::Bool(b) => Some(if b { 1u64 } else { 0u64 }),
                    LiteralValue::Str(_) => None::<u64>,
                };
            match f {
                Filter::GreaterThan { value, inclusive, .. } => code(value) matches Some(c) ==> if inclusive {
                    v >= c
                } else {
                    v > c
                },
                Filter::LessThan { value, inclusive, .. } => code(value) matches Some(c) ==> if inclusive {
                    v <= c
                } else {
                    v < c
                },
                Filter::Between { low, high, .. } => (code(low) is Some && code(high) is Some) ==> code(low)->0 <= v
                    && v <= code(high)->0,
                Filter::Equals { .. } => true,
            }
        }),
    ensures
        minmax_admits(entries, f),
{
}

/// A column the Min/Max index does not cover never prunes a Part.
pub proof fn lemma_minmax_unindexed_column_kept(entries: Seq<MinMaxEntry>, f: Filter)
    requires
        find_entry(entries, filter_column(f)) is None,
    ensures
        minmax_admits(entries, f),
{
}

/// The Min/Max index does prune: a Part whose recorded range for the
/// filter's column lies wholly below the bound of `> c` or `>= c`, wholly
/// above the bound of `< c` or `<= c`, or wholly outside `[lo, hi]` of a
/// BETWEEN, is skipped by that filter.
pub proof fn lemma_minmax_prunes_disjoint(entries: Seq<MinMaxEntry>, f: Filter)
    requires
        find_entry(entries, filter_column(f)) matches Some(e) && ({
            let code = |x: LiteralValue|
                match x {
                    LiteralValue::Int(i) => Some(i as u64),
                    LiteralValue::Float(b) => Some(b),
                    LiteralValue::Bool(b) => Some(if b { 1u64 } else { 0u64 }),
                    LiteralValue::Str(_) => None::<u64>,
                };
            match f {
                Filter::GreaterThan { value, .. } => code(value) matches Some(c) && e.max_val < c,
                Filter::LessThan { value, .. } => code(value) matches Some(c) && e.min_val > c,
                Filter::Between { low, high, .. } => code(low) matches Some(lo) && code(high) matches Some(hi)
                    && (e.max_val < lo || e.min_val > hi),
                Filter::Equals { .. } => false,
            }
        }),
    ensures
        !minmax_admits(entries, f),
{
}

/// Every Part left by taking out `id` carries another ID.
pub proof fn lemma_parts_without_drops(parts: Seq<PartMeta>, id: PartId)
    ensures
        forall|i: int| 0 <= i < parts_without(parts, id).len() ==> (#[trigger] parts_without(parts, id)[i]).id != id,
    decreases parts.len(),
{
    if parts.len() > 0 {
        let rest = parts_without(parts.drop_last(), id);
        lemma_parts_without_drops(parts.drop_last(), id);
        if parts.last().id != id {
            assert forall|i: int| 0 <= i < rest.len() + 1 implies (#[trigger] rest.push(parts.last())[i]).id != id by {
                if i < rest.len() {
                    assert(rest.push(parts.last())[i] == rest[i]);
                }
            }
        }
    }
}

/// A Part taken out of the Catalog (`Catalog::remove_part`) is never again
/// a candidate of any query on its table.
pub proof fn lemma_removed_part_not_candidate(
    before: Catalog,
    after: Catalog,
    table: Seq<char>,
    id: PartId,
    filters: Seq<Filter>,
)
    requires
        after.tables_view() == before.tables_view().insert(
            table,
            (parts_without(before.parts_of(table), id), without_part(before.index_of(table), id)),
        ),
    ensures
        forall|i: int|
            0 <= i < inverted_survivors(after.index_of(table), filters, after.parts_of(table)).len() ==> (
            #[trigger] inverted_survivors(after.index_of(table), filters, after.parts_of(table))[i]).id != id,
{
    let parts = after.parts_of(table);
    let s = inverted_survivors(after.index_of(table), filters, parts);
    lemma_parts_without_drops(before.parts_of(table), id);
    assert forall|i: int| 0 <= i < s.len() implies (#[trigger] s[i]).id != id by {
        lemma_survivor_iff(after.index_of(table), filters, parts, s[i]);
        assert(s.contains(s[i]));
        let j = choose|j: int| 0 <= j < parts.len() && parts[j] == s[i];
        assert(parts[j].id != id);
    }
}

/// No false negatives through a Bloom filter: once a string's bytes are
/// inserted into the filter of a column, an equality filter on that
/// column and string lets the Part through.
pub proof fn lemma_inserted_value_admitted(
    filters: Seq<BloomFilter>,
    before: BloomFilter,
    after: BloomFilter,
    column: String,
    text: String,
)
    requires
        before.wf(),
        before.inserted(after, encode_utf8(text@)),
        find_filter(filters, column@) == Some(after),
    ensures
        bloom_admits(
            Some(filters),
            Filter::Equals { column: column, value: LiteralValue::Str(text) },
        ),
{
    lemma_inserted_value_may_be_contained(before, after, encode_utf8(text@));
}

/// `distinct_in_order` keeps every item and repeats none.
pub proof fn lemma_distinct_in_order(s: Seq<Seq<char>>)
    ensures
        forall|x: Seq<char>| #[trigger] distinct_in_order(s).contains(x) <==> s.contains(x),
        forall|i: int, j: int|
            0 <= i < j < distinct_in_order(s).len() ==> #[trigger] distinct_in_order(s)[i]
                != #[trigger] distinct_in_order(s)[j],
    decreases s.len(),
{
    if s.len() > 0 {
        let rest = s.drop_last();
        lemma_distinct_in_order(rest);
        let d = distinct_in_order(rest);
        assert(s =~= rest.push(s.last()));
        assert forall|x: Seq<char>| #[trigger] distinct_in_order(s).contains(x) <==> s.contains(x) by {
            if s.contains(x) && x != s.last() {
                let i = choose|i: int| 0 <= i < s.len() && s[i] == x;
                assert(rest[i] == x);
            }
            if rest.contains(x) {
                let i = choose|i: int| 0 <= i < rest.len() && rest[i] == x;
                assert(s[i] == x);
            }
            if !d.contains(s.last()) {
                assert(d.push(s.last())[d.len() as int] == s.last());
                if d.contains(x) {
                    let i = choose|i: int| 0 <= i < d.len() && d[i] == x;
                    assert(d.push(s.last())[i] == x);
                }
                if d.push(s.last()).contains(x) && x != s.last() {
                    let i = choose|i: int| 0 <= i < d.len() + 1 && d.push(s.last())[i] == x;
                    assert(d[i] == x);
                }
            }
        }
    }
}

/// The executor reads what the query needs: unless it reads every column,
/// the projected columns are exactly the columns the query mentions, each
/// listed once.
pub proof fn lemma_projection_covers_mentions(q: SelectQuery)
    ensures
        !reads_all_columns(q) ==> forall|c: Seq<char>|
            #[trigger] projected_columns(q).contains(c) <==> mentioned_columns(q).contains(c),
        forall|i: int, j: int|
            0 <= i < j < projected_columns(q).len() ==> #[trigger] projected_columns(q)[i]
                != #[trigger] projected_columns(q)[j],
{
    lemma_distinct_in_order(mentioned_columns(q));
}

} // verus!
