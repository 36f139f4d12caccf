//! Shard key computation.
//!
//! Deterministically maps a row's primary tags to a shard index:
//!   1. walk the primary tag names in their given (sorted) order,
//!   2. concatenate `key=value\0` for each one the row carries,
//!   3. XXH64 with seed 0,
//!   4. modulo `num_shards`.
use vstd::prelude::*;
use vstd::utf8::encode_utf8;

use super::hash::{push_all, xxh64_hash, xxh64_of};
use super::types::{string_views, tag_get, ShardId, TagSet};

verus! {

/// The bytes `key=value\0` that one tag contributes to the hash input.
pub open spec fn tag_pair_bytes(key: Seq<char>, value: Seq<char>) -> Seq<u8> {
    encode_utf8(key) + seq![61u8] + encode_utf8(value) + seq![0u8]
}

/// The hash input built from `tags` for the primary tag `names`: one
/// `key=value\0` group per name that the tags carry, in the order of
/// `names`; names the tags lack contribute nothing.
pub open spec fn shard_key_input(tags: Map<Seq<char>, Seq<char>>, names: Seq<Seq<char>>) -> Seq<u8>
    decreases names.len(),
{
    if names.len() == 0 {
        Seq::empty()
    } else {
        let prefix = shard_key_input(tags, names.drop_last());
        let key = names.last();
        if tags.contains_key(key) {
            prefix + tag_pair_bytes(key, tags[key])
        } else {
            prefix
        }
    }
}

/// The shard of a row with `tags` among `num_shards` shards.
pub open spec fn shard_of(tags: Map<Seq<char>, Seq<char>>, names: Seq<Seq<char>>, num_shards: u32) -> u32
    recommends
        num_shards > 0,
{
    (xxh64_of(shard_key_input(tags, names), 0) % (num_shards as u64)) as u32
}

/// Compute the shard index for a row's tags.
///
/// `primary_tag_names` is the table's sorted list of primary tags; only
/// those tags are hashed. `num_shards` must be positive.
pub fn compute_shard_key(tags: &TagSet, primary_tag_names: &[String], num_shards: u32) -> (r: ShardId)
    requires
        num_shards > 0,
    ensures
        r == shard_of(tags.deep_view(), string_views(primary_tag_names@), num_shards),
        r < num_shards,
{
    let mut input: Vec<u8> = Vec::new();
    let n = primary_tag_names.len();
    let ghost names = string_views(primary_tag_names@);
    let mut i: usize = 0;
    while i < n
        invariant
            n == primary_tag_names@.len(),
            names == string_views(primary_tag_names@),
            0 <= i <= n,
            input@ == shard_key_input(tags.deep_view(), names.subrange(0, i as int)),
        decreases n - i,
    {
        let key = &primary_tag_names[i];
        proof {
            assert(names.subrange(0, i + 1).drop_last() == names.subrange(0, i as int));
            assert(names.subrange(0, i + 1).last() == key@);
        }
        match tag_get(tags, key) {
            Some(value) => {
                push_all(&mut input, key.as_str().as_bytes());
                input.push(61u8);
                push_all(&mut input, value.as_str().as_bytes());
                input.push(0u8);
                proof {
                    let prev = shard_key_input(tags.deep_view(), names.subrange(0, i as int));
                    assert(input@ == prev + tag_pair_bytes(key@, value@));
                }
            },
            None => {},
        }
        i = i + 1;
    }
    proof {
        assert(names.subrange(0, n as int) == names);
    }
    let hash = xxh64_hash(input.as_slice(), 0);
    (hash % (num_shards as u64)) as u32
}

/// Only the primary tags decide the shard: two tag sets that agree on
/// every primary tag (both carry it with the same value, or both lack it)
/// land on the same shard, whatever other tags they carry.
pub proof fn lemma_shard_depends_only_on_primary_tags(
    a: Map<Seq<char>, Seq<char>>,
    b: Map<Seq<char>, Seq<char>>,
    names: Seq<Seq<char>>,
    num_shards: u32,
)
    requires
        forall|i: int|
            0 <= i < names.len() ==> (a.contains_key(#[trigger] names[i]) <==> b.contains_key(
                names[i],
            )),
        forall|i: int|
            0 <= i < names.len() && a.contains_key(#[trigger] names[i]) ==> a[names[i]]
                == b[names[i]],
    ensures
        shard_of(a, names, num_shards) == shard_of(b, names, num_shards),
    decreases names.len(),
{
    lemma_input_depends_only_on_primary_tags(a, b, names);
}

proof fn lemma_input_depends_only_on_primary_tags(
    a: Map<Seq<char>, Seq<char>>,
    b: Map<Seq<char>, Seq<char>>,
    names: Seq<Seq<char>>,
)
    requires
        forall|i: int|
            0 <= i < names.len() ==> (a.contains_key(#[trigger] names[i]) <==> b.contains_key(
                names[i],
            )),
        forall|i: int|
            0 <= i < names.len() && a.contains_key(#[trigger] names[i]) ==> a[names[i]]
                == b[names[i]],
    ensures
        shard_key_input(a, names) == shard_key_input(b, names),
    decreases names.len(),
{
    if names.len() > 0 {
        let init = names.drop_last();
        assert forall|i: int| 0 <= i < init.len() implies (a.contains_key(#[trigger] init[i])
            <==> b.contains_key(init[i])) by {
            assert(init[i] == names[i]);
        }
        assert forall|i: int| 0 <= i < init.len() && a.contains_key(#[trigger] init[i]) implies a[init[i]]
            == b[init[i]] by {
            assert(init[i] == names[i]);
        }
        lemma_input_depends_only_on_primary_tags(a, b, init);
        assert(names.last() == names[names.len() - 1]);
    }
}

} // verus!
