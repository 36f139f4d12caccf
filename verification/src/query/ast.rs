//! The internal representation of a parsed SQL query.
use vstd::prelude::*;

verus! {

/// A parsed SELECT query.
#[derive(Debug, Clone)]
pub struct SelectQuery {
    /// Target table name.
    pub table: String,
    /// Columns to project; empty means all columns (`SELECT *`).
    pub projection: Vec<Projection>,
    /// WHERE clause filters.
    pub filters: Vec<Filter>,
    /// GROUP BY column names.
    pub group_by: Vec<String>,
    /// Aggregation functions to compute.
    pub aggregations: Vec<Aggregation>,
    /// ORDER BY clause.
    pub order_by: Vec<OrderBy>,
    /// LIMIT clause; `None` means no limit.
    pub limit: Option<usize>,
}

/// A projected column or expression.
#[derive(Debug, Clone)]
pub enum Projection {
    /// A column (e.g. `SELECT host, cpu`).
    Column(String),
    /// An aggregate function (e.g. `SELECT mean(cpu)`).
    Agg(Aggregation),
    /// Wildcard (`SELECT *`).
    Star,
}

/// A filter predicate of the WHERE clause.
#[derive(Debug, Clone)]
pub enum Filter {
    /// `column > value` or `column >= value`
    GreaterThan { column: String, value: LiteralValue, inclusive: bool },
    /// `column < value` or `column <= value`
    LessThan { column: String, value: LiteralValue, inclusive: bool },
    /// `column = value`
    Equals { column: String, value: LiteralValue },
    /// `column BETWEEN low AND high`
    Between { column: String, low: LiteralValue, high: LiteralValue },
}

/// An aggregation function applied to a column.
#[derive(Debug, Clone)]
pub struct Aggregation {
    /// The function: sum, count, min, max, mean.
    pub func: AggFunc,
    /// Column to aggregate.
    pub column: String,
    /// Optional alias (`SELECT mean(cpu) AS avg_cpu`).
    pub alias: Option<String>,
}

/// Supported aggregation functions.
#[derive(Debug, Clone, Copy, PartialEq, Eq, Structural)]
pub enum AggFunc {
    Sum,
    Count,
    Min,
    Max,
    Mean,
}

/// A literal value of an SQL expression; a float is held by its IEEE-754
/// bit pattern.
#[derive(Debug, Clone)]
pub enum LiteralValue {
    Int(i64),
    Float(u64),
    Str(String),
    Bool(bool),
}

/// An ORDER BY item.
#[derive(Debug, Clone)]
pub struct OrderBy {
    pub column: String,
    pub descending: bool,
}

} // verus!
