//! Column encoding and decoding for `.rpart` files.
//!
//! - Delta i64 (timestamps)
//! - Delta-of-delta i64 (integer counters)
//! - Dictionary (low-cardinality strings to u16 codes)
//! - LZ4 block compression of the encoded bytes
//!
//! All integer arithmetic wraps, so that every input decodes back exactly.
use vstd::prelude::*;

use crate::common::error::RutSeriError;
use crate::common::strmap::{lemma_push_absent, StrMap};
use crate::common::types::string_views;

verus! {

// ── Delta Encoding (i64) ─────────────────────────────────────────────

/// Delta encoding of `v`: the first value as it is, then each value
/// minus its predecessor (wrapping).
pub open spec fn delta_encoded(v: Seq<i64>) -> Seq<i64> {
    Seq::new(v.len(), |i: int| if i == 0 { v[0] } else { v[i].wrapping_sub(v[i - 1]) })
}

/// The running (wrapping) sum of `d[0..=i]`.
pub open spec fn running_sum(d: Seq<i64>, i: int) -> i64
    decreases i,
{
    if i <= 0 {
        d[0]
    } else {
        running_sum(d, i - 1).wrapping_add(d[i])
    }
}

/// Delta decoding of `d`: the running sums of `d`.
pub open spec fn delta_decoded(d: Seq<i64>) -> Seq<i64> {
    Seq::new(d.len(), |i: int| running_sum(d, i))
}

/// Delta-of-delta encoding of `v`: the first value, the first delta,
/// then the difference of each delta from the previous one.
pub open spec fn delta_delta_encoded(v: Seq<i64>) -> Seq<i64> {
    if v.len() == 0 {
        Seq::empty()
    } else {
        seq![v[0]] + delta_encoded(delta_encoded(v).drop_first())
    }
}

/// Delta-of-delta decoding of `e`.
pub open spec fn delta_delta_decoded(e: Seq<i64>) -> Seq<i64> {
    if e.len() == 0 {
        Seq::empty()
    } else {
        delta_decoded(seq![e[0]] + delta_decoded(e.drop_first()))
    }
}

/// Encode a slice of i64 values using delta encoding.
///
/// ```text
/// Input:  [1700000000, 1700000010, 1700000020]
/// Output: [1700000000, 10, 10]
/// ```
pub fn delta_encode_i64(values: &[i64]) -> (r: Vec<i64>)
    ensures
        r@ == delta_encoded(values@),
{
    let n = values.len();
    let mut out: Vec<i64> = Vec::new();
    let mut i: usize = 0;
    while i < n
        invariant
            n == values@.len(),
            0 <= i <= n,
            out@ == delta_encoded(values@).subrange(0, i as int),
        decreases n - i,
    {
        if i == 0 {
            out.push(values[0]);
        } else {
            out.push(values[i].wrapping_sub(values[i - 1]));
        }
        i = i + 1;
    }
    out
}

/// Decode delta-encoded i64 values back to absolute values.
pub fn delta_decode_i64(deltas: &[i64]) -> (r: Vec<i64>)
    ensures
        r@ == delta_decoded(deltas@),
{
    let n = deltas.len();
    let mut out: Vec<i64> = Vec::new();
    let mut acc: i64 = 0;
    let mut i: usize = 0;
    while i < n
        invariant
            n == deltas@.len(),
            0 <= i <= n,
            out@ == delta_decoded(deltas@).subrange(0, i as int),
            i > 0 ==> acc == running_sum(deltas@, i - 1),
        decreases n - i,
    {
        if i == 0 {
            acc = deltas[0];
        } else {
            acc = acc.wrapping_add(deltas[i]);
        }
        out.push(acc);
        i = i + 1;
    }
    out
}

// ── Delta-of-Delta Encoding (i64) ────────────────────────────────────

/// Encode using delta-of-delta, for counters whose increments are nearly
/// constant: `[first, first_delta, 0, 0, ...]` when they are constant.
pub fn delta_delta_encode_i64(values: &[i64]) -> (r: Vec<i64>)
    ensures
        r@ == delta_delta_encoded(values@),
{
    let n = values.len();
    let mut out: Vec<i64> = Vec::new();
    if n == 0 {
        return out;
    }
    let ghost d = delta_encoded(values@);
    let ghost dd = delta_encoded(d.drop_first());
    out.push(values[0]);
    let mut i: usize = 1;
    while i < n
        invariant
            n == values@.len(),
            n > 0,
            1 <= i <= n,
            d == delta_encoded(values@),
            dd == delta_encoded(d.drop_first()),
            out@ == seq![values@[0]] + dd.subrange(0, i - 1),
        decreases n - i,
    {
        let delta = values[i].wrapping_sub(values[i - 1]);
        if i == 1 {
            out.push(delta);
        } else {
            let prev = values[i - 1].wrapping_sub(values[i - 2]);
            out.push(delta.wrapping_sub(prev));
        }
        proof {
            assert(d[i as int] == delta);
            assert(dd[i - 1] == (if i == 1 { d[1] } else { d[i as int].wrapping_sub(d[i - 1]) }));
            assert(dd.subrange(0, i as int) == dd.subrange(0, i - 1).push(dd[i - 1]));
        }
        i = i + 1;
    }
    proof {
        assert(dd.subrange(0, n - 1) == dd);
    }
    out
}

/// Decode delta-of-delta encoded values.
pub fn delta_delta_decode_i64(encoded: &[i64]) -> (r: Vec<i64>)
    ensures
        r@ == delta_delta_decoded(encoded@),
{
    let n = encoded.len();
    if n == 0 {
        return Vec::new();
    }
    let mut deltas: Vec<i64> = Vec::new();
    deltas.push(encoded[0]);
    let ghost tail = encoded@.drop_first();
    let mut acc: i64 = 0;
    let mut i: usize = 1;
    while i < n
        invariant
            n == encoded@.len(),
            n > 0,
            1 <= i <= n,
            tail == encoded@.drop_first(),
            deltas@ == seq![encoded@[0]] + delta_decoded(tail).subrange(0, i - 1),
            i > 1 ==> acc == running_sum(tail, i - 2),
        decreases n - i,
    {
        if i == 1 {
            acc = encoded[1];
        } else {
            acc = acc.wrapping_add(encoded[i]);
        }
        proof {
            assert(tail[i - 1] == encoded@[i as int]);
            assert(delta_decoded(tail).subrange(0, i as int) == delta_decoded(tail).subrange(0, i - 1).push(
                running_sum(tail, i - 1),
            ));
        }
        deltas.push(acc);
        i = i + 1;
    }
    proof {
        assert(delta_decoded(tail).subrange(0, n - 1) == delta_decoded(tail));
    }
    delta_decode_i64(deltas.as_slice())
}

proof fn lemma_running_sum_of_deltas(v: Seq<i64>, i: int)
    requires
        0 <= i < v.len(),
    ensures
        running_sum(delta_encoded(v), i) == v[i],
    decreases i,
{
    if i > 0 {
        lemma_running_sum_of_deltas(v, i - 1);
    }
}

proof fn lemma_deltas_of_running_sum(d: Seq<i64>, i: int)
    requires
        0 <= i < d.len(),
    ensures
        delta_encoded(delta_decoded(d))[i] == d[i],
{
}

/// Decoding a delta encoding gives the encoded values back.
pub proof fn lemma_delta_roundtrip(v: Seq<i64>)
    ensures
        delta_decoded(delta_encoded(v)) == v,
{
    assert forall|i: int| 0 <= i < v.len() implies #[trigger] delta_decoded(delta_encoded(v))[i]
        == v[i] by {
        lemma_running_sum_of_deltas(v, i);
    }
    assert(delta_decoded(delta_encoded(v)) =~= v);
}

/// Every sequence of deltas is the encoding of its decoding.
pub proof fn lemma_delta_decode_then_encode(d: Seq<i64>)
    ensures
        delta_encoded(delta_decoded(d)) == d,
{
    assert forall|i: int| 0 <= i < d.len() implies #[trigger] delta_encoded(delta_decoded(d))[i]
        == d[i] by {
        lemma_deltas_of_running_sum(d, i);
    }
    assert(delta_encoded(delta_decoded(d)) =~= d);
}

/// Decoding a delta-of-delta encoding gives the encoded values back.
pub proof fn lemma_delta_delta_roundtrip(v: Seq<i64>)
    ensures
        delta_delta_decoded(delta_delta_encoded(v)) == v,
{
    if v.len() > 0 {
        let d = delta_encoded(v);
        let e = delta_delta_encoded(v);
        lemma_delta_roundtrip(d.drop_first());
        assert(e.drop_first() =~= delta_encoded(d.drop_first()));
        assert(seq![e[0]] + delta_decoded(e.drop_first()) =~= d);
        lemma_delta_roundtrip(v);
    }
}


// ── Dictionary Encoding (strings) ────────────────────────────────────

/// The largest number of distinct values a dictionary page holds.
pub const MAX_DICTIONARY_VALUES: usize = 65535;

/// The distinct values of `s`, in order of first occurrence.
pub open spec fn distinct_in_order(s: Seq<Seq<char>>) -> Seq<Seq<char>>
    decreases s.len(),
{
    if s.len() == 0 {
        Seq::empty()
    } else {
        let prefix = distinct_in_order(s.drop_last());
        if prefix.contains(s.last()) {
            prefix
        } else {
            prefix.push(s.last())
        }
    }
}

/// A dictionary page for a low-cardinality string column: code `i` stands
/// for `values[i]`, and `index` maps each value back to its code.
#[derive(Debug, Clone)]
pub struct Dictionary {
    /// Code to string value.
    pub values: Vec<String>,
    /// String value to code.
    pub index: StrMap<u16>,
}

/// Whether `index` maps exactly the strings of `vals` to their positions.
pub open spec fn indexes_positions(index: Map<Seq<char>, u16>, vals: Seq<Seq<char>>) -> bool {
    &&& index.dom() == vals.to_set()
    &&& forall|v: Seq<char>| #[trigger] index.contains_key(v) ==> index[v] < vals.len() && vals[index[v] as int] == v
}

impl Dictionary {
    /// The characters of each dictionary value, by code.
    pub open spec fn value_views(&self) -> Seq<Seq<char>> {
        string_views(self.values@)
    }

    /// The value-to-code map.
    pub open spec fn index_view(&self) -> Map<Seq<char>, u16> {
        self.index.view_map()
    }

    /// Build a dictionary from a list of string values, returning it with
    /// the code of each input value.
    ///
    /// The dictionary holds the distinct values in order of first
    /// occurrence; it fails when there are more than 65,535 of them.
    pub fn encode(values: &[String]) -> (r: Result<(Dictionary, Vec<u16>), RutSeriError>)
        ensures
            ({
                let distinct = distinct_in_order(string_views(values@));
                match r {
                    Ok((dict, codes)) => {
                        &&& distinct.len() <= MAX_DICTIONARY_VALUES
                        &&& dict.value_views() == distinct
                        &&& dict.value_views().no_duplicates()
                        &&& dict.index_view().dom() == dict.value_views().to_set()
                        &&& forall|v: Seq<char>, k: int|
                            0 <= k < dict.values@.len() ==> (#[trigger] dict.index_view().contains_key(v)
                                && dict.index_view()[v] == k <==> #[trigger] dict.values@[k]@ == v)
                        &&& codes@.len() == values@.len()
                        &&& forall|i: int|
                            0 <= i < codes@.len() ==> (#[trigger] codes@[i]) < dict.values@.len()
                                && dict.values@[codes@[i] as int]@ == values@[i]@
                    },
                    Err(e) => {
                        &&& distinct.len() > MAX_DICTIONARY_VALUES
                        &&& e is InvalidPartFile
                    },
                }
            }),
    {
        let n = values.len();
        let ghost views = string_views(values@);
        let mut dict_values: Vec<String> = Vec::new();
        let mut index: StrMap<u16> = StrMap::new();
        let mut codes: Vec<u16> = Vec::new();
        let mut i: usize = 0;
        proof {
            assert(string_views(dict_values@).to_set() =~= Set::empty());
        }
        while i < n
            invariant
                n == values@.len(),
                views == string_views(values@),
                0 <= i <= n,
                string_views(dict_values@) == distinct_in_order(views.subrange(0, i as int)),
                string_views(dict_values@).no_duplicates(),
                indexes_positions(index.view_map(), string_views(dict_values@)),
                dict_values@.len() <= MAX_DICTIONARY_VALUES,
                codes@.len() == i,
                forall|j: int|
                    0 <= j < i ==> (#[trigger] codes@[j]) < dict_values@.len()
                        && dict_values@[codes@[j] as int]@ == values@[j]@,
            decreases n - i,
        {
            let ghost before = string_views(dict_values@);
            proof {
                assert(views.subrange(0, i + 1).drop_last() == views.subrange(0, i as int));
                assert(views.subrange(0, i + 1).last() == values@[i as int]@);
            }
            let value = &values[i];
            let found = index.get(value.as_str());
            match found {
                Some(k) => {
                    let k = *k;
                    codes.push(k);
                    proof {
                        assert(before[k as int] == value@);
                        assert(before.contains(value@));
                    }
                },
                None => {
                    if dict_values.len() == MAX_DICTIONARY_VALUES {
                        proof {
                            lemma_distinct_len_monotone(views, i + 1);
                            assert(views.subrange(0, n as int) == views);
                        }
                        return Err(RutSeriError::InvalidPartFile("dictionary holds more than 65535 distinct values".to_owned()));
                    }
                    let k = dict_values.len();
                    proof {
                        assert(!before.contains(value@)) by {
                            if before.contains(value@) {
                                assert(before.to_set().contains(value@));
                            }
                        }
                    }
                    dict_values.push(value.clone());
                    let key = value.clone();
                    proof {
                        lemma_push_absent(index.entries@, key, k as u16);
                    }
                    index.entries.push((key, k as u16));
                    codes.push(k as u16);
                    proof {
                        assert(string_views(dict_values@) == before.push(value@));
                        before.lemma_push_to_set_commute(value@);
                        assert(string_views(dict_values@).no_duplicates()) by {
                            let now = string_views(dict_values@);
                            assert forall|a: int, b: int| 0 <= a < now.len() && 0 <= b < now.len() && a != b implies now[a]
                                != now[b] by {
                                if a == now.len() - 1 {
                                    assert(now[b] == before[b]);
                                } else if b == now.len() - 1 {
                                    assert(now[a] == before[a]);
                                } else {
                                    assert(now[a] == before[a] && now[b] == before[b]);
                                }
                            }
                        }
                        let now = string_views(dict_values@);
                        assert forall|v: Seq<char>| #[trigger] index.view_map().contains_key(v) implies index.view_map()[v]
                            < now.len() && now[index.view_map()[v] as int] == v by {
                            if v != value@ {
                                assert(now[index.view_map()[v] as int] == before[index.view_map()[v] as int]);
                            }
                        }
                        assert(index.view_map().dom() =~= now.to_set());
                    }
                },
            }
            i = i + 1;
        }
        proof {
            assert(views.subrange(0, n as int) == views);
            let vv = string_views(dict_values@);
            assert forall|v: Seq<char>, k: int|
                0 <= k < dict_values@.len() implies (#[trigger] index.view_map().contains_key(v)
                    && index.view_map()[v] == k <==> #[trigger] dict_values@[k]@ == v) by {
                assert(vv[k] == dict_values@[k]@);
                if dict_values@[k]@ == v {
                    assert(vv.to_set().contains(v));
                    let k2 = index.view_map()[v] as int;
                    assert(vv[k2] == v);
                }
            }
        }
        Ok((Dictionary { values: dict_values, index }, codes))
    }

    /// Decode u16 codes back to string values using this dictionary.
    pub fn decode(&self, codes: &[u16]) -> (r: Vec<String>)
        requires
            forall|i: int| 0 <= i < codes@.len() ==> (#[trigger] codes@[i]) < self.values@.len(),
        ensures
            r@.len() == codes@.len(),
            forall|i: int| 0 <= i < codes@.len() ==> (#[trigger] r@[i])@ == self.values@[codes@[i] as int]@,
    {
        let n = codes.len();
        let mut out: Vec<String> = Vec::new();
        let mut i: usize = 0;
        while i < n
            invariant
                n == codes@.len(),
                0 <= i <= n,
                forall|i: int| 0 <= i < codes@.len() ==> (#[trigger] codes@[i]) < self.values@.len(),
                out@.len() == i,
                forall|j: int| 0 <= j < i ==> (#[trigger] out@[j])@ == self.values@[codes@[j] as int]@,
            decreases n - i,
        {
            let code = codes[i] as usize;
            out.push(self.values[code].clone());
            i = i + 1;
        }
        out
    }
}

/// The distinct values of a prefix are never more than those of the whole.
proof fn lemma_distinct_len_monotone(s: Seq<Seq<char>>, j: int)
    requires
        0 <= j <= s.len(),
    ensures
        distinct_in_order(s.subrange(0, j)).len() <= distinct_in_order(s).len(),
    decreases s.len() - j,
{
    if j < s.len() {
        lemma_distinct_len_monotone(s, j + 1);
        assert(s.subrange(0, j + 1).drop_last() == s.subrange(0, j));
    } else {
        assert(s.subrange(0, j) == s);
    }
}

/// Decoding the codes of an encoding gives every input value back.
pub proof fn lemma_dictionary_roundtrip(
    values: Seq<String>,
    dict: Dictionary,
    codes: Seq<u16>,
    decoded: Seq<String>,
)
    requires
        codes.len() == values.len(),
        forall|i: int|
            0 <= i < codes.len() ==> (#[trigger] codes[i]) < dict.values@.len()
                && dict.values@[codes[i] as int]@ == values[i]@,
        decoded.len() == codes.len(),
        forall|i: int| 0 <= i < codes.len() ==> (#[trigger] decoded[i])@ == dict.values@[codes[i] as int]@,
    ensures
        string_views(decoded) == string_views(values),
{
    assert forall|i: int| 0 <= i < decoded.len() implies #[trigger] string_views(decoded)[i]
        == string_views(values)[i] by {
        assert(codes[i] < dict.values@.len());
    }
    assert(string_views(decoded) =~= string_views(values));
}

// ── LZ4 Compression ──────────────────────────────────────────────────

/// The bytes `lz4_flex::compress_prepend_size` produces for `data`.
pub uninterp spec fn lz4_compressed(data: Seq<u8>) -> Seq<u8>;

/// What `lz4_flex::decompress_size_prepended` gives for `data`: the
/// decompressed bytes, or `None` where it reports an error.
pub uninterp spec fn lz4_decompressed(data: Seq<u8>) -> Option<Seq<u8>>;

/// `lz4_flex::compress_prepend_size`: the LZ4 block of `data` behind its
/// length as a little-endian u32. Its documentation pairs it with
/// `decompress_size_prepended`, which gives `data` back whenever its
/// length fits the u32 prefix.
#[verifier::external_body]
fn lz4_compress_prepend_size(data: &[u8]) -> (r: Vec<u8>)
    ensures
        r@ == lz4_compressed(data@),
        data@.len() <= u32::MAX ==> lz4_decompressed(r@) == Some(data@),
{
    lz4_flex::compress_prepend_size(data)
}

/// The text (`Display`) of the error that
/// `lz4_flex::decompress_size_prepended` reports for `data`.
pub uninterp spec fn lz4_failure_text(data: Seq<u8>) -> Seq<char>;

/// `lz4_flex::decompress_size_prepended`: the bytes that `data` decodes to,
/// or the text of the crate's error.
#[verifier::external_body]
fn lz4_decompress_size_prepended(data: &[u8]) -> (r: Result<Vec<u8>, String>)
    ensures
        match r {
            Ok(v) => lz4_decompressed(data@) == Some(v@),
            Err(t) => lz4_decompressed(data@) is None && t@ == lz4_failure_text(data@),
        },
{
    lz4_flex::decompress_size_prepended(data).map_err(|e| e.to_string())
}

/// Compress data using LZ4, with the uncompressed length prepended.
pub fn lz4_compress(data: &[u8]) -> (r: Vec<u8>)
    ensures
        r@ == lz4_compressed(data@),
        data@.len() <= u32::MAX ==> lz4_decompressed(r@) == Some(data@),
{
    lz4_compress_prepend_size(data)
}

/// Decompress LZ4 data produced by `lz4_compress`; on failure,
/// `InvalidPartFile` with `LZ4 decompression failed: ` and the crate's
/// error text.
pub fn lz4_decompress(data: &[u8]) -> (r: Result<Vec<u8>, RutSeriError>)
    ensures
        match lz4_decompressed(data@) {
            Some(d) => r matches Ok(v) && v@ == d,
            None => r matches Err(RutSeriError::InvalidPartFile(m)) && m@ == "LZ4 decompression failed: "@
                + lz4_failure_text(data@),
        },
{
    match lz4_decompress_size_prepended(data) {
        Ok(v) => Ok(v),
        Err(detail) => {
            let mut m = "LZ4 decompression failed: ".to_owned();
            m.append(detail.as_str());
            Err(RutSeriError::InvalidPartFile(m))
        },
    }
}

} // verus!
