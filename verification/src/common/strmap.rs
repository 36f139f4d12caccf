//! A small map keyed by strings, kept as a list of `(key, value)` entries.
//!
//! Keys are compared by content. Lookups find the first entry with a key;
//! its view maps each key to the value of that first entry.
use vstd::prelude::*;

verus! {

/// A map from strings to values, as a list of entries.
#[derive(Debug, Clone)]
pub struct StrMap<V> {
    pub entries: Vec<(String, V)>,
}

/// The map a list of entries stands for: each key to the value of its
/// first entry.
pub open spec fn entries_view<V>(e: Seq<(String, V)>) -> Map<Seq<char>, V>
    decreases e.len(),
{
    if e.len() == 0 {
        Map::empty()
    } else {
        entries_view(e.drop_first()).insert(e[0].0@, e[0].1)
    }
}

/// The position of the first entry with key `k`, if any.
pub open spec fn first_with_key<V>(e: Seq<(String, V)>, k: Seq<char>, i: int) -> bool {
    &&& 0 <= i < e.len()
    &&& e[i].0@ == k
    &&& forall|j: int| 0 <= j < i ==> (#[trigger] e[j]).0@ != k
}

impl<V> StrMap<V> {
    /// The map this list stands for.
    pub open spec fn view_map(&self) -> Map<Seq<char>, V> {
        entries_view(self.entries@)
    }

    /// An empty map.
    pub fn new() -> (r: StrMap<V>)
        ensures
            r.view_map() == Map::<Seq<char>, V>::empty(),
    {
        StrMap { entries: Vec::new() }
    }

    /// The position of the first entry with key `key`.
    pub fn position(&self, key: &str) -> (r: Option<usize>)
        ensures
            match r {
                Some(i) => first_with_key(self.entries@, key@, i as int),
                None => forall|j: int| 0 <= j < self.entries@.len() ==> (#[trigger] self.entries@[j]).0@ != key@,
            },
    {
        let n = self.entries.len();
        let mut i: usize = 0;
        while i < n
            invariant
                n == self.entries@.len(),
                0 <= i <= n,
                forall|j: int| 0 <= j < i ==> (#[trigger] self.entries@[j]).0@ != key@,
            decreases n - i,
        {
            if self.entries[i].0.as_str().eq(key) {
                return Some(i);
            }
            i = i + 1;
        }
        None
    }

    /// The value under `key`, if any.
    pub fn get(&self, key: &str) -> (r: Option<&V>)
        ensures
            match r {
                Some(v) => self.view_map().contains_key(key@) && self.view_map()[key@] == *v,
                None => !self.view_map().contains_key(key@),
            },
    {
        match self.position(key) {
            Some(i) => {
                proof {
                    lemma_first_entry_is_view(self.entries@, key@, i as int);
                }
                Some(&self.entries[i].1)
            },
            None => {
                proof {
                    lemma_absent_key(self.entries@, key@);
                }
                None
            },
        }
    }
}

impl<V> StrMap<V> {
    /// Puts `value` under `key`, replacing the value of that key if any.
    pub fn insert(&mut self, key: String, value: V)
        ensures
            final(self).view_map() == old(self).view_map().insert(key@, value),
    {
        let ghost e = self.entries@;
        match self.position(key.as_str()) {
            Some(i) => {
                proof {
                    lemma_update_first(e, key@, i as int, key, value);
                }
                self.entries.set(i, (key, value));
            },
            None => {
                proof {
                    lemma_absent_key(e, key@);
                    lemma_push_absent(e, key, value);
                }
                self.entries.push((key, value));
            },
        }
    }

    /// Removes `key` and its value; other keys keep theirs.
    pub fn remove(&mut self, key: &str)
        ensures
            final(self).view_map() == old(self).view_map().remove(key@),
    {
        let mut taken: Vec<(String, V)> = Vec::new();
        std::mem::swap(&mut taken, &mut self.entries);
        let ghost all = taken@;
        let mut kept: Vec<(String, V)> = Vec::new();
        for entry in it: taken
            invariant
                it.seq() == all,
                entries_view(kept@) == entries_view(all.subrange(0, it.index() as int)).remove(key@),
        {
            let ghost i = it.index();
            let ghost prefix = all.subrange(0, i as int);
            proof {
                assert(entry == all[i as int]);
                assert(all.subrange(0, i + 1) =~= prefix.push(entry));
            }
            if entry.0.as_str().eq(key) {
                proof {
                    lemma_push_view(prefix, entry.0, entry.1);
                    assert(entries_view(prefix.push(entry)).remove(key@) =~= entries_view(prefix).remove(key@));
                }
            } else {
                let ghost (k, v) = entry;
                proof {
                    lemma_push_view(prefix, k, v);
                    lemma_push_view(kept@, k, v);
                    assert(kept@.push(entry) == kept@.push((k, v)));
                    assert(entries_view(kept@.push(entry)) =~= entries_view(prefix.push(entry)).remove(key@));
                }
                kept.push(entry);
            }
        }
        proof {
            assert(all.subrange(0, all.len() as int) =~= all);
            assert(all == old(self).entries@);
        }
        self.entries = kept;
    }
}

/// Appending an entry adds its key with its value when the key is new,
/// and changes nothing otherwise (the earlier entry keeps the key).
pub proof fn lemma_push_view<V>(e: Seq<(String, V)>, key: String, v: V)
    ensures
        entries_view(e.push((key, v))) == if entries_view(e).contains_key(key@) {
            entries_view(e)
        } else {
            entries_view(e).insert(key@, v)
        },
    decreases e.len(),
{
    if !entries_view(e).contains_key(key@) {
        lemma_push_absent(e, key, v);
    } else if e.len() > 0 {
        let t = e.drop_first();
        lemma_push_view(t, key, v);
        assert(e.push((key, v)).drop_first() =~= t.push((key, v)));
        assert(e.push((key, v))[0] == e[0]);
        assert(entries_view(e.push((key, v))) =~= entries_view(e));
    }
}

/// Every key of the view has a first entry in the list.
pub proof fn lemma_view_key_has_first<V>(e: Seq<(String, V)>, k: Seq<char>)
    requires
        entries_view(e).contains_key(k),
    ensures
        exists|i: int| first_with_key(e, k, i),
    decreases e.len(),
{
    if e[0].0@ == k {
        assert(first_with_key(e, k, 0));
    } else {
        let t = e.drop_first();
        lemma_view_key_has_first(t, k);
        let i = choose|i: int| first_with_key(t, k, i);
        assert forall|j: int| 0 <= j < i + 1 implies (#[trigger] e[j]).0@ != k by {
            if j > 0 {
                assert(e[j] == t[j - 1]);
            }
        }
        assert(e[i + 1] == t[i]);
        assert(first_with_key(e, k, i + 1));
    }
}

/// The first entry with a key gives its value in the view.
pub proof fn lemma_first_entry_is_view<V>(e: Seq<(String, V)>, k: Seq<char>, i: int)
    requires
        first_with_key(e, k, i),
    ensures
        entries_view(e).contains_key(k),
        entries_view(e)[k] == e[i].1,
    decreases e.len(),
{
    if i > 0 {
        let t = e.drop_first();
        assert forall|j: int| 0 <= j < i - 1 implies (#[trigger] t[j]).0@ != k by {
            assert(t[j] == e[j + 1]);
        }
        lemma_first_entry_is_view(t, k, i - 1);
        assert(e[0].0@ != k);
    }
}

/// A key no entry carries is not in the view.
pub proof fn lemma_absent_key<V>(e: Seq<(String, V)>, k: Seq<char>)
    requires
        forall|j: int| 0 <= j < e.len() ==> (#[trigger] e[j]).0@ != k,
    ensures
        !entries_view(e).contains_key(k),
    decreases e.len(),
{
    if e.len() > 0 {
        let t = e.drop_first();
        assert forall|j: int| 0 <= j < t.len() implies (#[trigger] t[j]).0@ != k by {
            assert(t[j] == e[j + 1]);
        }
        lemma_absent_key(t, k);
        assert(e[0].0@ != k);
    }
}

/// Appending an entry for an absent key adds that key.
pub proof fn lemma_push_absent<V>(e: Seq<(String, V)>, key: String, v: V)
    requires
        !entries_view(e).contains_key(key@),
    ensures
        entries_view(e.push((key, v))) == entries_view(e).insert(key@, v),
    decreases e.len(),
{
    if e.len() == 0 {
        assert(e.push((key, v)).drop_first() =~= Seq::<(String, V)>::empty());
        assert(e.push((key, v))[0] == (key, v));
        assert(entries_view(Seq::<(String, V)>::empty()) == Map::<Seq<char>, V>::empty());
        assert(entries_view(e.push((key, v))) == entries_view(e.push((key, v)).drop_first()).insert(key@, v));
        assert(entries_view(e.push((key, v))) =~= entries_view(e).insert(key@, v));
    } else {
        let t = e.drop_first();
        assert(!entries_view(t).contains_key(key@) || entries_view(t).contains_key(key@));
        if entries_view(t).contains_key(key@) {
            assert(entries_view(e).contains_key(key@));
        }
        lemma_push_absent(t, key, v);
        assert(e.push((key, v)).drop_first() =~= t.push((key, v)));
        assert(e.push((key, v))[0] == e[0]);
        assert(e[0].0@ != key@);
        assert(entries_view(e.push((key, v))) == entries_view(t.push((key, v))).insert(e[0].0@, e[0].1));
        assert(entries_view(e.push((key, v))) =~= entries_view(e).insert(key@, v));
    }
}

/// Replacing the value of the first entry with a key replaces the key's
/// value in the view, and nothing else.
pub proof fn lemma_update_first<V>(e: Seq<(String, V)>, k: Seq<char>, i: int, key: String, v: V)
    requires
        first_with_key(e, k, i),
        key@ == k,
    ensures
        entries_view(e.update(i, (key, v))) == entries_view(e).insert(k, v),
    decreases e.len(),
{
    if i == 0 {
        assert(e.update(0, (key, v)).drop_first() =~= e.drop_first());
        assert(entries_view(e.update(i, (key, v))) =~= entries_view(e).insert(k, v));
    } else {
        let t = e.drop_first();
        assert forall|j: int| 0 <= j < i - 1 implies (#[trigger] t[j]).0@ != k by {
            assert(t[j] == e[j + 1]);
        }
        lemma_update_first(t, k, i - 1, key, v);
        assert(e.update(i, (key, v)).drop_first() =~= t.update(i - 1, (key, v)));
        assert(e[0].0@ != k);
        assert(entries_view(e.update(i, (key, v))) =~= entries_view(e).insert(k, v));
    }
}

/// Two lists whose entries carry the same keys in the same places, with
/// each pair of values in relation `r`, stand for maps with the same keys
/// whose values are pairwise in relation `r`.
pub proof fn lemma_related_values<V, W>(e: Seq<(String, V)>, f: Seq<(String, W)>, r: spec_fn(V, W) -> bool)
    requires
        e.len() == f.len(),
        forall|i: int| 0 <= i < e.len() ==> (#[trigger] f[i]).0@ == e[i].0@ && r(e[i].1, f[i].1),
    ensures
        entries_view(f).dom() == entries_view(e).dom(),
        forall|k: Seq<char>| #[trigger] entries_view(f).contains_key(k) ==> r(entries_view(e)[k], entries_view(f)[k]),
    decreases e.len(),
{
    if e.len() > 0 {
        let te = e.drop_first();
        let tf = f.drop_first();
        assert forall|i: int| 0 <= i < te.len() implies (#[trigger] tf[i]).0@ == te[i].0@ && r(te[i].1, tf[i].1) by {
            assert(tf[i] == f[i + 1]);
            assert(te[i] == e[i + 1]);
        }
        lemma_related_values(te, tf, r);
        assert(f[0].0@ == e[0].0@ && r(e[0].1, f[0].1));
        assert(entries_view(f).dom() =~= entries_view(e).dom());
    }
}

} // verus!
