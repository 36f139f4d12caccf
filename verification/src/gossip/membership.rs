//! Membership table: the liveness of each known node, for SWIM gossip.
//!
//! State machine per node: Alive → Suspect → Dead. Every node keeps its
//! own table; gossip messages carry updates, each with the incarnation
//! number of the node it describes, and an update older than what the
//! table holds is ignored.
use crate::common::strmap::{
    entries_view, first_with_key, lemma_first_entry_is_view, lemma_push_absent, lemma_absent_key,
    lemma_update_first, lemma_view_key_has_first, StrMap,
};
use crate::common::types::{NodeId, NodeInfo, NodeState};
use rand::seq::IteratorRandom;
use vstd::prelude::*;

verus! {

broadcast use vstd::seq_lib::group_seq_properties;

/// node_id → (NodeInfo, incarnation number)
pub type MemberMap = Map<Seq<char>, (NodeInfo, u64)>;

/// Whether a member is chosen: known, alive when `alive_only`, and not
/// the excluded node.
pub open spec fn selected(m: MemberMap, alive_only: bool, exclude: Option<Seq<char>>, k: Seq<char>) -> bool {
    &&& m.contains_key(k)
    &&& alive_only ==> m[k].0.state == NodeState::Alive
    &&& exclude matches Some(x) ==> k != x
}

/// The IDs of the chosen members.
pub open spec fn selected_ids(m: MemberMap, alive_only: bool, exclude: Option<Seq<char>>) -> Set<Seq<char>> {
    Set::new(|k: Seq<char>| selected(m, alive_only, exclude, k))
}

/// The alive members other than `self_id`: the peers gossip may contact.
pub open spec fn peer_ids(m: MemberMap, self_id: Seq<char>) -> Set<Seq<char>> {
    selected_ids(m, true, Some(self_id))
}

/// The alive members.
pub open spec fn alive_ids(m: MemberMap) -> Set<Seq<char>> {
    selected_ids(m, true, None)
}

/// The table after an update for `info` at `incarnation`: it takes the
/// update when it has no entry for the node or holds an incarnation no
/// newer than the update's, and ignores it otherwise.
pub open spec fn upserted(m: MemberMap, info: NodeInfo, incarnation: u64) -> MemberMap {
    let k = info.node_id@;
    if !m.contains_key(k) || incarnation >= m[k].1 {
        m.insert(k, (info, incarnation))
    } else {
        m
    }
}

/// The table with a known node's state set to `state`.
pub open spec fn with_state(m: MemberMap, k: Seq<char>, state: NodeState) -> MemberMap {
    if m.contains_key(k) {
        m.insert(k, (NodeInfo { state, ..m[k].0 }, m[k].1))
    } else {
        m
    }
}

/// The IDs of a list of `(id, state)` pairs.
pub open spec fn listed_ids(s: Seq<(String, NodeState)>) -> Seq<Seq<char>> {
    s.map_values(|p: (String, NodeState)| p.0@)
}

/// The texts of a list of strings.
pub open spec fn id_texts(s: Seq<String>) -> Seq<Seq<char>> {
    s.map_values(|x: String| x@)
}

/// One alive peer, picked at random (`IteratorRandom::choose` over the
/// list, with the thread's random generator): `None` exactly when the list
/// is empty, else one of its elements.
#[verifier::external_body]
fn choose_one(candidates: Vec<String>) -> (r: Option<String>)
    ensures
        r is None <==> candidates@.len() == 0,
        r matches Some(x) ==> candidates@.contains(x),
{
    candidates.into_iter().choose(&mut rand::rng())
}

/// `amount` peers picked at random (`IteratorRandom::choose_multiple`),
/// each element of the list at most once, in no stated order. The amount
/// is at most the list's length: `choose_multiple` reserves room for
/// `amount` items up front, which panics for an amount no list could hold.
#[verifier::external_body]
fn choose_several(candidates: Vec<String>, amount: usize) -> (r: Vec<String>)
    requires
        amount <= candidates@.len(),
    ensures
        r@.len() == amount,
        r@.to_multiset().subset_of(candidates@.to_multiset()),
{
    candidates.into_iter().choose_multiple(&mut rand::rng(), amount)
}

/// The membership table of one node.
pub struct MembershipTable {
    nodes: StrMap<(NodeInfo, u64)>,
}

impl MembershipTable {
    /// node_id → (NodeInfo, incarnation)
    pub closed spec fn members(&self) -> MemberMap {
        self.nodes.view_map()
    }

    /// An empty table.
    pub fn new() -> (r: MembershipTable)
        ensures
            r.members() == MemberMap::empty(),
    {
        MembershipTable { nodes: StrMap::new() }
    }

    /// Adds or updates a node; an update older than the held incarnation is
    /// ignored (see `upserted`).
    pub fn upsert(&mut self, info: NodeInfo, incarnation: u64)
        ensures
            final(self).members() == upserted(old(self).members(), info, incarnation),
    {
        let ghost e = self.nodes.entries@;
        let key = info.node_id.clone();
        match self.nodes.position(key.as_str()) {
            Some(i) => {
                proof {
                    lemma_first_entry_is_view(e, key@, i as int);
                }
                if incarnation >= self.nodes.entries[i].1.1 {
                    proof {
                        lemma_update_first(e, key@, i as int, key, (info, incarnation));
                    }
                    self.nodes.entries.set(i, (key, (info, incarnation)));
                }
            },
            None => {
                proof {
                    lemma_absent_key(e, key@);
                    lemma_push_absent(e, key, (info, incarnation));
                }
                self.nodes.entries.push((key, (info, incarnation)));
            },
        }
    }

    /// Sets the state of a known node; an unknown node is ignored.
    fn set_state(&mut self, node_id: &str, state: NodeState)
        ensures
            final(self).members() == with_state(old(self).members(), node_id@, state),
    {
        let ghost e = self.nodes.entries@;
        match self.nodes.position(node_id) {
            Some(i) => {
                proof {
                    lemma_first_entry_is_view(e, node_id@, i as int);
                }
                let (k, (info, inc)) = self.nodes.entries.remove(i);
                let updated = NodeInfo { state, ..info };
                let ghost kg = k;
                let ghost vg = (updated, inc);
                self.nodes.entries.insert(i, (k, (updated, inc)));
                proof {
                    assert(self.nodes.entries@ =~= e.update(i as int, (kg, vg)));
                    lemma_update_first(e, node_id@, i as int, kg, vg);
                }
            },
            None => {
                proof {
                    lemma_absent_key(e, node_id@);
                }
            },
        }
    }

    /// The state of a known node; `None` for an unknown one.
    pub fn state_of(&self, node_id: &str) -> (r: Option<NodeState>)
        ensures
            r == (if self.members().contains_key(node_id@) {
                Some(self.members()[node_id@].0.state)
            } else {
                None
            }),
    {
        match self.nodes.get(node_id) {
            Some(entry) => Some(entry.0.state),
            None => None,
        }
    }

    /// The incarnation held for a known node; `None` for an unknown one.
    pub fn incarnation_of(&self, node_id: &str) -> (r: Option<u64>)
        ensures
            r == (if self.members().contains_key(node_id@) {
                Some(self.members()[node_id@].1)
            } else {
                None
            }),
    {
        match self.nodes.get(node_id) {
            Some(entry) => Some(entry.1),
            None => None,
        }
    }

    /// Marks a known node as Suspect.
    pub fn mark_suspect(&mut self, node_id: &str)
        ensures
            final(self).members() == with_state(old(self).members(), node_id@, NodeState::Suspect),
    {
        self.set_state(node_id, NodeState::Suspect)
    }

    /// Marks a known node as Dead.
    pub fn mark_dead(&mut self, node_id: &str)
        ensures
            final(self).members() == with_state(old(self).members(), node_id@, NodeState::Dead),
    {
        self.set_state(node_id, NodeState::Dead)
    }

    /// Marks a known node as Alive (e.g. after an ACK).
    pub fn mark_alive(&mut self, node_id: &str)
        ensures
            final(self).members() == with_state(old(self).members(), node_id@, NodeState::Alive),
    {
        self.set_state(node_id, NodeState::Alive)
    }

    /// Removes a node from the table.
    pub fn remove(&mut self, node_id: &str)
        ensures
            final(self).members() == old(self).members().remove(node_id@),
    {
        self.nodes.remove(node_id)
    }

    /// The chosen members (see `selected`), each once, with their states,
    /// in table order.
    fn select(&self, alive_only: bool, exclude: Option<&str>) -> (r: Vec<(String, NodeState)>)
        ensures
            listed_ids(r@).no_duplicates(),
            listed_ids(r@).to_set() == selected_ids(
                self.members(),
                alive_only,
                match exclude {
                    Some(x) => Some(x@),
                    None => None,
                },
            ),
            forall|t: int|
                0 <= t < r@.len() ==> (#[trigger] r@[t]).1 == self.members()[r@[t].0@].0.state,
    {
        let ghost m = self.members();
        let ghost e = self.nodes.entries@;
        let ghost ex = match exclude {
            Some(x) => Some(x@),
            None => None,
        };
        let mut out: Vec<(String, NodeState)> = Vec::new();
        let n = self.nodes.entries.len();
        let mut i: usize = 0;
        while i < n
            invariant
                n == e.len(),
                e == self.nodes.entries@,
                m == self.members(),
                m == entries_view(e),
                0 <= i <= n,
                ex == match exclude {
                    Some(x) => Some(x@),
                    None => None::<Seq<char>>,
                },
                listed_ids(out@).no_duplicates(),
                forall|k: Seq<char>|
                    #![trigger listed_ids(out@).contains(k)]
                    listed_ids(out@).contains(k) <==> (exists|j: int| 0 <= j < i && first_with_key(e, k, j))
                        && selected(m, alive_only, ex, k),
                forall|t: int| 0 <= t < out@.len() ==> (#[trigger] out@[t]).1 == m[out@[t].0@].0.state,
            decreases n - i,
        {
            let key = &self.nodes.entries[i].0;
            let state = self.nodes.entries[i].1.0.state;
            let is_first = match self.nodes.position(key.as_str()) {
                Some(p) => p == i,
                None => false,
            };
            let excluded = match exclude {
                Some(x) => key.as_str().eq(x),
                None => false,
            };
            let alive = match state {
                NodeState::Alive => true,
                _ => false,
            };
            let ghost before = out@;
            if is_first && !excluded && (!alive_only || alive) {
                proof {
                    lemma_first_entry_is_view(e, key@, i as int);
                    assert(!listed_ids(before).contains(key@)) by {
                        if listed_ids(before).contains(key@) {
                            let j = choose|j: int| 0 <= j < i && first_with_key(e, key@, j);
                        }
                    }
                }
                out.push((key.clone(), state));
                proof {
                    assert(listed_ids(out@) =~= listed_ids(before).push(key@));
                    assert(first_with_key(e, key@, i as int));
                }
            } else {
                proof {
                    if is_first {
                        lemma_first_entry_is_view(e, key@, i as int);
                    }
                    assert forall|k: Seq<char>| (exists|j: int| 0 <= j < i + 1 && first_with_key(e, k, j))
                        && selected(m, alive_only, ex, k) implies listed_ids(out@).contains(k) by {
                        let j = choose|j: int| 0 <= j < i + 1 && first_with_key(e, k, j);
                        if j == i {
                            assert(k == key@);
                            lemma_first_entry_is_view(e, k, j);
                        }
                    }
                }
            }
            i = i + 1;
        }
        proof {
            assert forall|k: Seq<char>| selected(m, alive_only, ex, k) implies listed_ids(out@).contains(k) by {
                lemma_view_key_has_first(e, k);
            }
            assert(listed_ids(out@).to_set() =~= selected_ids(m, alive_only, ex));
        }
        out
    }

    /// Every known node with its state, each once.
    pub fn snapshot(&self) -> (r: Vec<(NodeId, NodeState)>)
        ensures
            listed_ids(r@).no_duplicates(),
            listed_ids(r@).to_set() == self.members().dom(),
            forall|t: int|
                0 <= t < r@.len() ==> (#[trigger] r@[t]).1 == self.members()[r@[t].0@].0.state,
            alive_in(r@) == alive_ids(self.members()).len(),
    {
        let r = self.select(false, None);
        proof {
            assert(selected_ids(self.members(), false, None) =~= self.members().dom());
            lemma_alive_count_matches_snapshot(self.members(), r@);
        }
        r
    }

    /// The alive peers other than `self_id`, each once.
    fn peers(&self, self_id: &str) -> (r: Vec<String>)
        ensures
            id_texts(r@).no_duplicates(),
            id_texts(r@).to_set() == peer_ids(self.members(), self_id@),
            id_texts(r@).len() == peer_ids(self.members(), self_id@).len(),
    {
        let chosen = self.select(true, Some(self_id));
        let ghost ids = listed_ids(chosen@);
        let mut out: Vec<String> = Vec::new();
        let n = chosen.len();
        let mut i: usize = 0;
        while i < n
            invariant
                n == chosen@.len(),
                ids == listed_ids(chosen@),
                0 <= i <= n,
                id_texts(out@) =~= ids.subrange(0, i as int),
            decreases n - i,
        {
            out.push(chosen[i].0.clone());
            proof {
                assert(ids.subrange(0, i + 1) =~= ids.subrange(0, i as int).push(chosen@[i as int].0@));
            }
            i = i + 1;
        }
        proof {
            assert(ids.subrange(0, n as int) =~= ids);
            ids.unique_seq_to_set();
        }
        out
    }

    /// A random alive peer other than `self_id`; `None` when there is none.
    pub fn random_peer(&self, self_id: &str) -> (r: Option<NodeId>)
        ensures
            r is None <==> peer_ids(self.members(), self_id@).len() == 0,
            r matches Some(p) ==> peer_ids(self.members(), self_id@).contains(p@),
    {
        let candidates = self.peers(self_id);
        let ghost texts = id_texts(candidates@);
        let r = choose_one(candidates);
        proof {
            if r is Some {
                let p = r->0;
                let i = choose|i: int| 0 <= i < texts.len() && candidates@[i] == p;
                assert(texts[i] == p@);
            }
        }
        r
    }

    /// `n` random alive peers other than `self_id` (all of them when there
    /// are fewer).
    pub fn random_peers(&self, self_id: &str, n: usize) -> (r: Vec<NodeId>)
        ensures
            r@.len() == if n <= peer_ids(self.members(), self_id@).len() {
                n as int
            } else {
                peer_ids(self.members(), self_id@).len() as int
            },
            forall|i: int| 0 <= i < r@.len() ==> peer_ids(self.members(), self_id@).contains(#[trigger] r@[i]@),
            forall|i: int, j: int| 0 <= i < j < r@.len() ==> r@[i]@ != r@[j]@,
    {
        let candidates = self.peers(self_id);
        let ghost all = candidates@;
        let amount = if n <= candidates.len() { n } else { candidates.len() };
        let r = choose_several(candidates, amount);
        proof {
            assert forall|i: int| 0 <= i < r@.len() implies peer_ids(self.members(), self_id@).contains(#[trigger] r@[i]@) by {
                assert(r@.contains(r@[i]));
                assert(r@.to_multiset().count(r@[i]) > 0);
                assert(all.to_multiset().count(r@[i]) > 0);
                assert(all.contains(r@[i]));
                let j = choose|j: int| 0 <= j < all.len() && all[j] == r@[i];
                assert(id_texts(all)[j] == r@[i]@);
            }
            assert(all.no_duplicates()) by {
                assert forall|i: int, j: int| 0 <= i < all.len() && 0 <= j < all.len() && i != j implies all[i]
                    != all[j] by {
                    assert(id_texts(all)[i] == all[i]@);
                    assert(id_texts(all)[j] == all[j]@);
                }
            }
            all.lemma_multiset_has_no_duplicates();
            assert forall|x: String| r@.to_multiset().contains(x) implies r@.to_multiset().count(x) == 1 by {
                assert(all.to_multiset().count(x) >= 1);
            }
            r@.lemma_multiset_has_no_duplicates_conv();
            assert forall|i: int, j: int| 0 <= i < j < r@.len() implies r@[i]@ != r@[j]@ by {
                assert(r@[i] != r@[j]);
                assert(r@.contains(r@[i]) && r@.contains(r@[j]));
                assert(all.to_multiset().count(r@[i]) > 0);
                assert(all.to_multiset().count(r@[j]) > 0);
                assert(all.contains(r@[i]) && all.contains(r@[j]));
                let p = choose|p: int| 0 <= p < all.len() && all[p] == r@[i];
                let q = choose|q: int| 0 <= q < all.len() && all[q] == r@[j];
                assert(id_texts(all)[p] == r@[i]@);
                assert(id_texts(all)[q] == r@[j]@);
            }
        }
        r
    }

    /// How many nodes are alive: as many as the Alive entries of any list
    /// `snapshot` may give (each node once, with its state).
    pub fn alive_count(&self) -> (r: usize)
        ensures
            r == alive_ids(self.members()).len(),
            forall|s: Seq<(String, NodeState)>|
                #![trigger alive_in(s)]
                listed_ids(s).no_duplicates() && listed_ids(s).to_set() == self.members().dom() && (forall|t: int|
                    0 <= t < s.len() ==> (#[trigger] s[t]).1 == self.members()[s[t].0@].0.state) ==> r == alive_in(s),
    {
        let chosen = self.select(true, None);
        proof {
            listed_ids(chosen@).unique_seq_to_set();
            assert forall|s: Seq<(String, NodeState)>|
                #![trigger alive_in(s)]
                listed_ids(s).no_duplicates() && listed_ids(s).to_set() == self.members().dom() && (forall|t: int|
                    0 <= t < s.len() ==> (#[trigger] s[t]).1 == self.members()[s[t].0@].0.state) implies chosen@.len()
                    == alive_in(s) by {
                lemma_alive_count_matches_snapshot(self.members(), s);
            }
        }
        chosen.len()
    }
}

/// An update older than the incarnation the table holds for a node changes
/// nothing, and no update lowers a node's incarnation.
pub proof fn lemma_incarnation_never_decreases(m: MemberMap, info: NodeInfo, incarnation: u64, k: Seq<char>)
    requires
        m.contains_key(k),
    ensures
        upserted(m, info, incarnation).contains_key(k),
        upserted(m, info, incarnation)[k].1 >= m[k].1,
        k == info.node_id@ && incarnation < m[k].1 ==> upserted(m, info, incarnation) == m,
{
}

/// State changes keep the set of known nodes and every incarnation.
pub proof fn lemma_state_change_keeps_members(m: MemberMap, k: Seq<char>, state: NodeState)
    ensures
        with_state(m, k, state).dom() == m.dom(),
        forall|j: Seq<char>| #[trigger] m.contains_key(j) ==> with_state(m, k, state)[j].1 == m[j].1,
        m.contains_key(k) ==> with_state(m, k, state)[k].0.state == state,
{
    assert(with_state(m, k, state).dom() =~= m.dom());
}

/// How many entries of a `(id, state)` list are Alive.
pub open spec fn alive_in(s: Seq<(String, NodeState)>) -> nat
    decreases s.len(),
{
    if s.len() == 0 {
        0
    } else {
        alive_in(s.drop_last()) + if s.last().1 == NodeState::Alive { 1nat } else { 0nat }
    }
}

/// The IDs of the Alive entries of a list.
pub open spec fn alive_set(s: Seq<(String, NodeState)>) -> Set<Seq<char>>
    decreases s.len(),
{
    if s.len() == 0 {
        Set::empty()
    } else {
        let rest = alive_set(s.drop_last());
        if s.last().1 == NodeState::Alive {
            rest.insert(s.last().0@)
        } else {
            rest
        }
    }
}

/// Over a list without repeated IDs, the Alive IDs are as many as the
/// Alive entries, and are exactly the IDs listed as Alive.
proof fn lemma_alive_set(s: Seq<(String, NodeState)>)
    requires
        listed_ids(s).no_duplicates(),
    ensures
        alive_set(s).finite(),
        alive_set(s).len() == alive_in(s),
        forall|k: Seq<char>|
            #[trigger] alive_set(s).contains(k) <==> exists|t: int|
                0 <= t < s.len() && s[t].0@ == k && s[t].1 == NodeState::Alive,
    decreases s.len(),
{
    if s.len() > 0 {
        let rest = s.drop_last();
        let last = s.last();
        assert(listed_ids(rest).no_duplicates()) by {
            assert forall|i: int, j: int| 0 <= i < rest.len() && 0 <= j < rest.len() && i != j implies listed_ids(
                rest,
            )[i] != listed_ids(rest)[j] by {
                assert(listed_ids(rest)[i] == listed_ids(s)[i]);
                assert(listed_ids(rest)[j] == listed_ids(s)[j]);
            }
        }
        lemma_alive_set(rest);
        assert forall|k: Seq<char>|
            #[trigger] alive_set(s).contains(k) <==> exists|t: int|
                0 <= t < s.len() && s[t].0@ == k && s[t].1 == NodeState::Alive by {
            if exists|t: int| 0 <= t < s.len() && s[t].0@ == k && s[t].1 == NodeState::Alive {
                let t = choose|t: int| 0 <= t < s.len() && s[t].0@ == k && s[t].1 == NodeState::Alive;
                if t < s.len() - 1 {
                    assert(rest[t] == s[t]);
                }
            }
            if alive_set(rest).contains(k) {
                let t = choose|t: int| 0 <= t < rest.len() && rest[t].0@ == k && rest[t].1 == NodeState::Alive;
                assert(s[t] == rest[t]);
            }
        }
        if last.1 == NodeState::Alive {
            assert(!alive_set(rest).contains(last.0@)) by {
                if alive_set(rest).contains(last.0@) {
                    let t = choose|t: int| 0 <= t < rest.len() && rest[t].0@ == last.0@ && rest[t].1 == NodeState::Alive;
                    assert(listed_ids(s)[t] == listed_ids(s)[s.len() - 1]);
                }
            }
        }
    }
}

/// `alive_count` agrees with `snapshot`: for any list that `snapshot`
/// may give for a table (each node once, with its state), the number of
/// alive nodes equals the number of Alive entries of the list.
pub proof fn lemma_alive_count_matches_snapshot(m: MemberMap, s: Seq<(String, NodeState)>)
    requires
        listed_ids(s).no_duplicates(),
        listed_ids(s).to_set() == m.dom(),
        forall|t: int| 0 <= t < s.len() ==> (#[trigger] s[t]).1 == m[s[t].0@].0.state,
    ensures
        alive_ids(m).len() == alive_in(s),
{
    lemma_alive_set(s);
    assert forall|k: Seq<char>| #[trigger] alive_ids(m).contains(k) <==> alive_set(s).contains(k) by {
        if alive_ids(m).contains(k) {
            assert(listed_ids(s).to_set().contains(k));
            let t = choose|t: int| 0 <= t < listed_ids(s).len() && listed_ids(s)[t] == k;
            assert(s[t].0@ == k);
        }
        if alive_set(s).contains(k) {
            let t = choose|t: int| 0 <= t < s.len() && s[t].0@ == k && s[t].1 == NodeState::Alive;
            assert(listed_ids(s)[t] == k);
            assert(listed_ids(s).to_set().contains(k));
        }
    }
    assert(alive_ids(m) =~= alive_set(s));
}

} // verus!
