//! Core domain types shared across all modules.
use std::collections::BTreeMap;
use vstd::prelude::*;
use vstd::utf8::{decode_utf8, valid_utf8};

verus! {

/// Nanoseconds since the Unix epoch.
pub type Timestamp = i64;

/// Identifies a shard within the cluster; range `[0, num_shards)`.
pub type ShardId = u32;

/// Identifies a node of the cluster.
pub type NodeId = String;

/// An ordered map of tag key to tag value.
pub type TagSet = BTreeMap<String, String>;

/// Field name to field value.
pub type FieldMap = BTreeMap<String, FieldValue>;

/// The identifier of a Part: the 128-bit value of its UUID
/// (`Uuid::as_u128`).
pub type PartId = u128;

/// A typed measurement value in a time-series row.
///
/// A float is held by its IEEE-754 bit pattern (`f64::to_bits`).
#[derive(Debug, Clone)]
pub enum FieldValue {
    Float(u64),
    Int(i64),
    Bool(bool),
    Str(String),
}

impl DeepView for FieldValue {
    type V = FieldValue;

    open spec fn deep_view(&self) -> FieldValue {
        *self
    }
}

/// A single time-series data point.
#[derive(Debug, Clone)]
pub struct Row {
    /// Nanoseconds since the Unix epoch.
    pub timestamp: Timestamp,
    /// Tag key-value pairs identifying the series.
    pub tags: TagSet,
    /// Field name to measurement.
    pub fields: FieldMap,
}

/// A batch of rows submitted in a single ingest request.
#[derive(Debug, Clone)]
pub struct IngestBatch {
    /// Target table name.
    pub table: String,
    /// Rows to insert.
    pub rows: Vec<Row>,
}

/// Sort key for rows inside the MemTable, ordered by
/// `(timestamp, tag_hash)`.
#[derive(Debug, Clone, Copy, PartialEq, Eq, Structural, PartialOrd, Ord)]
pub struct MemKey {
    pub timestamp: Timestamp,
    pub tag_hash: u64,
}

/// Metadata about a committed `.rpart` file, stored in the Catalog.
#[derive(Debug, Clone)]
pub struct PartMeta {
    /// Unique Part identifier.
    pub id: PartId,
    /// Relative path of the `.rpart` file within the shard directory.
    pub path: String,
    /// Minimum timestamp in this Part.
    pub min_ts: Timestamp,
    /// Maximum timestamp in this Part.
    pub max_ts: Timestamp,
    /// File size in bytes.
    pub size_bytes: u64,
    /// Number of rows in this Part.
    pub row_count: u64,
    /// Creation time (Unix seconds).
    pub created_at: i64,
}

/// Liveness state of a node, as SWIM gossip sees it.
#[derive(Debug, Clone, Copy, PartialEq, Eq, Structural)]
pub enum NodeState {
    Alive,
    Suspect,
    Dead,
}

/// Identity, address and liveness of a cluster node.
#[derive(Debug, Clone)]
pub struct NodeInfo {
    pub node_id: NodeId,
    pub addr: String,
    pub state: NodeState,
}

/// Leader and replicas of one shard.
#[derive(Debug, Clone)]
pub struct ShardAssignment {
    pub shard_id: ShardId,
    pub leader: NodeId,
    pub replicas: Vec<NodeId>,
}

/// Read consistency level.
#[derive(Debug, Clone, Copy, PartialEq, Eq, Structural)]
pub enum ConsistencyLevel {
    One,
    Quorum,
    All,
}

/// String slices are equal exactly when they hold the same characters
/// (`<str as PartialEq>::eq` compares the UTF-8 bytes).
pub assume_specification[<str as PartialEq>::eq](a: &str, b: &str) -> (r: bool)
    ensures
        r == (a@ == b@),
;

/// The string that UTF-8 `bytes` spell (`String::from_utf8`), or `None`
/// where they are not valid UTF-8.
#[verifier::external_body]
pub(crate) fn string_from_utf8(bytes: Vec<u8>) -> (r: Option<String>)
    ensures
        r is Some <==> valid_utf8(bytes@),
        r matches Some(s) ==> s@ == decode_utf8(bytes@),
{
    String::from_utf8(bytes).ok()
}

/// The character sequences of a list of strings.
pub open spec fn string_views(s: Seq<String>) -> Seq<Seq<char>> {
    s.map_values(|x: String| x@)
}

/// The value that `tags` maps `key` to, looked up by content
/// (`BTreeMap::get`); the tag set is seen through its deep view, a map
/// from key characters to value characters.
#[verifier::external_body]
pub(crate) fn tag_get<'a>(tags: &'a TagSet, key: &String) -> (r: Option<&'a String>)
    ensures
        match r {
            Some(v) => tags.deep_view().contains_key(key@) && tags.deep_view()[key@] == v@,
            None => !tags.deep_view().contains_key(key@),
        },
{
    tags.get(key)
}

/// Whether `tags` holds `key` (`BTreeMap::contains_key`, by content).
#[verifier::external_body]
pub(crate) fn tag_contains(tags: &TagSet, key: &String) -> (r: bool)
    ensures
        r == tags.deep_view().contains_key(key@),
{
    tags.contains_key(key)
}

/// Inserts `value` under `key` (`BTreeMap::insert`), replacing the value
/// of an equal key; keys are compared by content, so the map is seen
/// through its deep view.
#[verifier::external_body]
pub(crate) fn map_insert<V: DeepView>(map: &mut BTreeMap<String, V>, key: String, value: V)
    ensures
        final(map).deep_view() == old(map).deep_view().insert(key@, value.deep_view()),
{
    map.insert(key, value);
}

} // verus!
