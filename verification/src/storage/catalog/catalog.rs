//! Local Catalog: the registry of committed Part files of one shard.
//!
//! Per table it holds the list of `PartMeta` records and the inverted
//! index (tag key → tag value → Part IDs), and for the whole shard a
//! version counter that every mutation increments.
//!
//! Writing the catalog to disk and reading it back is the caller's part;
//! this module holds the in-memory registry and its rules.
use crate::common::strmap::{
    entries_view,    lemma_absent_key, lemma_first_entry_is_view, lemma_push_absent, lemma_update_first, StrMap,
};
use crate::common::types::{PartId, PartMeta};
use crate::storage::index::inverted::{
    index_view, lemma_merged_pair_found, lemma_removed_part_not_found, lemma_without_part_absent, lookup, lookup_spec,
    merge_entries, with_postings, without_part, IndexView, InvertedIndex,
};
use vstd::prelude::*;

verus! {

/// The persisted Catalog structure for a single shard.
#[derive(Debug, Clone)]
pub struct Catalog {
    /// Monotonically increasing version counter, incremented on every
    /// mutation (add or remove a Part, update the index).
    pub version: u64,
    /// Table name → the Parts and the index of that table.
    pub tables: StrMap<TableCatalog>,
}

/// Per-table catalog data.
#[derive(Debug, Clone)]
pub struct TableCatalog {
    /// All committed Parts of this table.
    pub parts: Vec<PartMeta>,
    /// Inverted index: tag key → tag value → Part IDs.
    pub inverted_index: InvertedIndex,
}

/// What one table's entry stands for: its Parts and its index.
pub open spec fn table_view(tc: TableCatalog) -> (Seq<PartMeta>, IndexView) {
    (tc.parts@, index_view(tc.inverted_index))
}

/// `parts` without the Parts whose ID is `id`, the rest in order.
pub open spec fn parts_without(parts: Seq<PartMeta>, id: PartId) -> Seq<PartMeta>
    decreases parts.len(),
{
    if parts.len() == 0 {
        parts
    } else {
        let rest = parts_without(parts.drop_last(), id);
        if parts.last().id == id {
            rest
        } else {
            rest.push(parts.last())
        }
    }
}

/// The view of a table list once `(k, tc)` is put back at position `i`.
pub open spec fn put_back_view(
    entries: Seq<(String, TableCatalog)>,
    i: int,
    k: String,
    tc: TableCatalog,
) -> Map<Seq<char>, (Seq<PartMeta>, IndexView)> {
    entries_view(entries.insert(i, (k, tc))).map_values(|t: TableCatalog| table_view(t))
}

impl Catalog {
    /// Table name → (Parts, index) of each table.
    pub open spec fn tables_view(&self) -> Map<Seq<char>, (Seq<PartMeta>, IndexView)> {
        self.tables.view_map().map_values(|tc: TableCatalog| table_view(tc))
    }

    /// The Parts of a table (none for an unknown table).
    pub open spec fn parts_of(&self, table: Seq<char>) -> Seq<PartMeta> {
        if self.tables_view().contains_key(table) {
            self.tables_view()[table].0
        } else {
            Seq::empty()
        }
    }

    /// The inverted index of a table (empty for an unknown table).
    pub open spec fn index_of(&self, table: Seq<char>) -> IndexView {
        if self.tables_view().contains_key(table) {
            self.tables_view()[table].1
        } else {
            Map::empty()
        }
    }

    /// A new, empty Catalog at version 0.
    pub fn new() -> (r: Catalog)
        ensures
            r.version == 0,
            r.tables_view() == Map::<Seq<char>, (Seq<PartMeta>, IndexView)>::empty(),
    {
        let r = Catalog { version: 0, tables: StrMap::new() };
        proof {
            assert(r.tables_view() =~= Map::<Seq<char>, (Seq<PartMeta>, IndexView)>::empty());
        }
        r
    }

    /// Takes the entry of `table` out of the list, creating an empty one
    /// for an unknown table; gives its position and the entry.
    fn take_table(&mut self, table: &str) -> (r: (usize, String, TableCatalog))
        ensures
            r.1@ == table@,
            r.0 <= final(self).tables.entries@.len(),
            final(self).version == old(self).version,
            table_view(r.2) == (old(self).parts_of(table@), old(self).index_of(table@)),
            forall|tc: TableCatalog|
                #[trigger] put_back_view(final(self).tables.entries@, r.0 as int, r.1, tc)
                    == old(self).tables_view().insert(table@, table_view(tc)),
    {
        let ghost old_e = self.tables.entries@;
        match self.tables.position(table) {
            Some(i) => {
                proof {
                    lemma_first_entry_is_view(old_e, table@, i as int);
                }
                let (k, tc) = self.tables.entries.remove(i);
                proof {
                    assert forall|tc2: TableCatalog|
                        #[trigger] put_back_view(self.tables.entries@, i as int, k, tc2)
                            == old(self).tables_view().insert(table@, table_view(tc2)) by {
                        assert(self.tables.entries@.insert(i as int, (k, tc2)) =~= old_e.update(
                            i as int,
                            (k, tc2),
                        ));
                        lemma_update_first(old_e, table@, i as int, k, tc2);
                        assert(put_back_view(self.tables.entries@, i as int, k, tc2)
                            =~= old(self).tables_view().insert(table@, table_view(tc2)));
                    }
                }
                (i, k, tc)
            },
            None => {
                proof {
                    lemma_absent_key(old_e, table@);
                }
                let k = table.to_owned();
                let tc = TableCatalog { parts: Vec::new(), inverted_index: StrMap::new() };
                let n = self.tables.entries.len();
                proof {
                    assert(index_view(tc.inverted_index) =~= Map::empty());
                    assert(tc.parts@ =~= Seq::<PartMeta>::empty());
                    assert forall|tc2: TableCatalog|
                        #[trigger] put_back_view(self.tables.entries@, n as int, k, tc2)
                            == old(self).tables_view().insert(table@, table_view(tc2)) by {
                        assert(self.tables.entries@.insert(n as int, (k, tc2)) =~= old_e.push(
                            (k, tc2),
                        ));
                        lemma_push_absent(old_e, k, tc2);
                        assert(put_back_view(self.tables.entries@, n as int, k, tc2)
                            =~= old(self).tables_view().insert(table@, table_view(tc2)));
                    }
                }
                (n, k, tc)
            },
        }
    }

    /// Registers a newly flushed Part file under `table`, creating the
    /// table's entry if needed, and increments the version.
    pub fn add_part(&mut self, table: &str, meta: PartMeta)
        requires
            old(self).version < u64::MAX,
        ensures
            final(self).version == old(self).version + 1,
            final(self).tables_view() == old(self).tables_view().insert(
                table@,
                (old(self).parts_of(table@).push(meta), old(self).index_of(table@)),
            ),
    {
        let (i, k, mut tc) = self.take_table(table);
        tc.parts.push(meta);
        let ghost g = put_back_view(self.tables.entries@, i as int, k, tc);
        self.tables.entries.insert(i, (k, tc));
        proof {
            assert(self.tables_view() == g);
        }
        self.version = self.version + 1;
    }

    /// Removes a Part (after a merge or a deletion): every Part of `table`
    /// with this ID leaves the table's list, the ID leaves every list of the
    /// table's inverted index (so no lookup gives it any more), and the
    /// version is incremented. An unknown table leaves the Catalog as it is,
    /// version included.
    pub fn remove_part(&mut self, table: &str, part_id: &PartId)
        requires
            old(self).tables_view().contains_key(table@) ==> old(self).version < u64::MAX,
        ensures
            old(self).tables_view().contains_key(table@) ==> {
                &&& final(self).version == old(self).version + 1
                &&& final(self).tables_view() == old(self).tables_view().insert(
                    table@,
                    (
                        parts_without(old(self).parts_of(table@), *part_id),
                        without_part(old(self).index_of(table@), *part_id),
                    ),
                )
                &&& forall|k: Seq<char>, v: Seq<char>|
                    !(#[trigger] lookup_spec(final(self).index_of(table@), k, v)).contains(*part_id)
            },
            !old(self).tables_view().contains_key(table@) ==> {
                &&& final(self).version == old(self).version
                &&& final(self).tables_view() == old(self).tables_view()
            },
    {
        match self.tables.position(table) {
            None => {
                proof {
                    lemma_absent_key(self.tables.entries@, table@);
                }
            },
            Some(pos) => {
                proof {
                    lemma_first_entry_is_view(self.tables.entries@, table@, pos as int);
                    assert(self.tables_view().contains_key(table@));
                }
                let (i, k, mut tc) = self.take_table(table);
                let ghost before = tc.parts@;
                let mut taken: Vec<PartMeta> = Vec::new();
                std::mem::swap(&mut taken, &mut tc.parts);
                let mut kept: Vec<PartMeta> = Vec::new();
                for p in it: taken
                    invariant
                        it.seq() == before,
                        kept@ == parts_without(before.subrange(0, it.index() as int), *part_id),
                {
                    let ghost j = it.index();
                    proof {
                        assert(p == before[j as int]);
                        assert(before.subrange(0, j + 1).drop_last() == before.subrange(0, j as int));
                        assert(before.subrange(0, j + 1).last() == p);
                    }
                    if p.id != *part_id {
                        kept.push(p);
                    }
                }
                proof {
                    assert(before.subrange(0, before.len() as int) == before);
                }
                tc.parts = kept;
                crate::storage::index::inverted::remove_part(&mut tc.inverted_index, part_id);
                let ghost g = put_back_view(self.tables.entries@, i as int, k, tc);
                self.tables.entries.insert(i, (k, tc));
                proof {
                    assert(self.tables_view() == g);
                    let w = without_part(old(self).index_of(table@), *part_id);
                    assert(self.index_of(table@) == w);
                    assert forall|k: Seq<char>, v: Seq<char>|
                        !(#[trigger] lookup_spec(self.index_of(table@), k, v)).contains(*part_id) by {
                        lemma_removed_part_not_found(old(self).index_of(table@), *part_id, k, v);
                        let l = lookup_spec(w, k, v);
                        if l.contains(*part_id) {
                            let x = choose|x: int| 0 <= x < l.len() && l[x] == *part_id;
                            assert(l[x] != *part_id);
                        }
                    }
                }
                self.version = self.version + 1;
            },
        }
    }

    /// The Parts of a table, in the order they were added; empty for an
    /// unknown table.
    pub fn list_parts(&self, table: &str) -> (r: Vec<&PartMeta>)
        ensures
            r@.len() == self.parts_of(table@).len(),
            forall|i: int| 0 <= i < r@.len() ==> *(#[trigger] r@[i]) == self.parts_of(table@)[i],
    {
        match self.tables.get(table) {
            None => Vec::new(),
            Some(tc) => {
                let mut out: Vec<&PartMeta> = Vec::new();
                let n = tc.parts.len();
                let mut i: usize = 0;
                while i < n
                    invariant
                        n == tc.parts@.len(),
                        0 <= i <= n,
                        out@.len() == i,
                        forall|j: int| 0 <= j < i ==> *(#[trigger] out@[j]) == tc.parts@[j],
                    decreases n - i,
                {
                    out.push(&tc.parts[i]);
                    i = i + 1;
                }
                out
            },
        }
    }

    /// Which Parts of `table` hold `tag_key = tag_value`, by the inverted
    /// index; empty when the table, the key or the value is not indexed.
    pub fn lookup_inverted(&self, table: &str, tag_key: &str, tag_value: &str) -> (r: Vec<PartId>)
        ensures
            r@ == lookup_spec(self.index_of(table@), tag_key@, tag_value@),
    {
        match self.tables.get(table) {
            None => Vec::new(),
            Some(tc) => lookup(&tc.inverted_index, tag_key, tag_value),
        }
    }

    /// Records the tag pairs found in a Part: `part_id` is appended under
    /// each `(tag_key, tag_value)` of `tag_entries` in the index of `table`
    /// (whose entry is created if needed), and the version is incremented.
    pub fn update_inverted(&mut self, table: &str, part_id: PartId, tag_entries: Vec<(String, String)>)
        requires
            old(self).version < u64::MAX,
        ensures
            final(self).version == old(self).version + 1,
            final(self).tables_view() == old(self).tables_view().insert(
                table@,
                (
                    old(self).parts_of(table@),
                    with_postings(old(self).index_of(table@), tag_entries@, part_id),
                ),
            ),
    {
        let (i, k, mut tc) = self.take_table(table);
        merge_entries(&mut tc.inverted_index, part_id, tag_entries);
        let ghost g = put_back_view(self.tables.entries@, i as int, k, tc);
        self.tables.entries.insert(i, (k, tc));
        proof {
            assert(self.tables_view() == g);
        }
        self.version = self.version + 1;
    }
}

/// Taking out an ID that no Part carries leaves the list as it is.
pub proof fn lemma_parts_without_absent(parts: Seq<PartMeta>, id: PartId)
    requires
        forall|i: int| 0 <= i < parts.len() ==> (#[trigger] parts[i]).id != id,
    ensures
        parts_without(parts, id) == parts,
    decreases parts.len(),
{
    if parts.len() > 0 {
        let rest = parts.drop_last();
        assert forall|i: int| 0 <= i < rest.len() implies (#[trigger] rest[i]).id != id by {
            assert(rest[i] == parts[i]);
        }
        lemma_parts_without_absent(rest, id);
        assert(parts.drop_last().push(parts.last()) =~= parts);
    }
}

/// Removing a Part right after adding it, when no Part of the table and no
/// list of its index had its ID, gives the table back its list of Parts and
/// its index, two versions on.
pub proof fn lemma_remove_undoes_add(
    before: Catalog,
    added: Catalog,
    removed: Catalog,
    table: Seq<char>,
    meta: PartMeta,
)
    requires
        forall|i: int|
            0 <= i < before.parts_of(table).len() ==> (#[trigger] before.parts_of(table)[i]).id
                != meta.id,
        forall|k: Seq<char>, v: Seq<char>| !(#[trigger] lookup_spec(before.index_of(table), k, v)).contains(meta.id),
        added.version == before.version + 1,
        added.tables_view() == before.tables_view().insert(
            table,
            (before.parts_of(table).push(meta), before.index_of(table)),
        ),
        removed.version == added.version + 1,
        removed.tables_view() == added.tables_view().insert(
            table,
            (parts_without(added.parts_of(table), meta.id), without_part(added.index_of(table), meta.id)),
        ),
    ensures
        removed.parts_of(table) == before.parts_of(table),
        removed.index_of(table) == before.index_of(table),
        removed.version == before.version + 2,
        forall|t: Seq<char>| t != table ==> #[trigger] removed.tables_view().contains_key(t)
            == before.tables_view().contains_key(t) && (removed.tables_view().contains_key(t)
            ==> removed.tables_view()[t] == before.tables_view()[t]),
{
    let parts = before.parts_of(table);
    lemma_parts_without_absent(parts, meta.id);
    assert(parts.push(meta).drop_last() =~= parts);
    assert(added.parts_of(table) == parts.push(meta));
    assert(parts_without(parts.push(meta), meta.id) == parts_without(parts, meta.id));
    assert(added.index_of(table) == before.index_of(table));
    lemma_without_part_absent(before.index_of(table), meta.id);
}

/// A Part whose tag pairs were recorded is found by a lookup of any of
/// those pairs.
pub proof fn lemma_recorded_pair_found(
    before: Catalog,
    after: Catalog,
    table: Seq<char>,
    part_id: PartId,
    tag_entries: Seq<(String, String)>,
    j: int,
)
    requires
        0 <= j < tag_entries.len(),
        after.tables_view() == before.tables_view().insert(
            table,
            (before.parts_of(table), with_postings(before.index_of(table), tag_entries, part_id)),
        ),
    ensures
        lookup_spec(after.index_of(table), tag_entries[j].0@, tag_entries[j].1@).contains(part_id),
        after.parts_of(table) == before.parts_of(table),
{
    lemma_merged_pair_found(before.index_of(table), tag_entries, part_id, j);
}

} // verus!
