//! Hashing and byte-buffer helpers shared by the storage and routing code.
use vstd::prelude::*;

verus! {

/// The XXH64 digest of `input` with `seed`, as `xxhash_rust::xxh64::xxh64`
/// computes it.
pub uninterp spec fn xxh64_of(input: Seq<u8>, seed: u64) -> u64;

/// XXH64 of `input` with `seed` (`xxhash_rust::xxh64::xxh64`). The digest
/// depends on the bytes and the seed alone; it is named, not stated.
#[verifier::external_body]
pub(crate) fn xxh64_hash(input: &[u8], seed: u64) -> (r: u64)
    ensures
        r == xxh64_of(input@, seed),
{
    xxhash_rust::xxh64::xxh64(input, seed)
}

/// Appends all of `bytes` to `out`.
pub fn push_all(out: &mut Vec<u8>, bytes: &[u8])
    ensures
        final(out)@ == old(out)@ + bytes@,
{
    let n = bytes.len();
    let ghost start = out@;
    let mut i: usize = 0;
    while i < n
        invariant
            n == bytes@.len(),
            0 <= i <= n,
            out@ == start + bytes@.subrange(0, i as int),
        decreases n - i,
    {
        out.push(bytes[i]);
        i = i + 1;
        proof {
            assert(bytes@.subrange(0, i as int) == bytes@.subrange(0, i - 1).push(bytes@[i - 1]));
        }
    }
    proof {
        assert(bytes@.subrange(0, n as int) == bytes@);
    }
}

} // verus!
