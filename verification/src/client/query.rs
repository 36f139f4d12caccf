//! Query builder: a fluent API that assembles the SQL of a query.
//!
//! `QueryBuilder` collects the parts of a query (columns, WHERE clauses,
//! aggregation, grouping, order, limit) and `build_sql` turns them into
//! the SQL text that the server's query endpoint takes. A raw SQL text
//! bypasses the parts.
use crate::common::text::{
    decimal, joined, push_decimal, push_joined, push_signed_decimal, push_sql_escaped, signed_decimal,
    sql_escaped,
};
use crate::common::types::Timestamp;
use vstd::prelude::*;
use vstd::string::StringExecFns;

verus! {

/// What a query builder holds.
pub struct QueryView {
    /// Exact SQL to send instead of the built one.
    pub raw_sql: Option<Seq<char>>,
    /// Target table.
    pub table: Seq<char>,
    /// Columns to select; none means `*`.
    pub columns: Seq<Seq<char>>,
    /// WHERE clauses, ANDed together.
    pub where_clauses: Seq<Seq<char>>,
    /// Aggregation function and its column.
    pub aggregate: Option<(Seq<char>, Seq<char>)>,
    /// GROUP BY time interval.
    pub group_by_time: Option<Seq<char>>,
    /// ORDER BY clause.
    pub order_by: Option<Seq<char>>,
    /// LIMIT.
    pub limit: Option<usize>,
}

/// The text of an optional string.
pub open spec fn opt_view(o: Option<String>) -> Option<Seq<char>> {
    match o {
        Some(s) => Some(s@),
        None => None,
    }
}

/// The texts of a list of strings.
pub open spec fn texts(v: Seq<String>) -> Seq<Seq<char>> {
    v.map_values(|s: String| s@)
}

/// The SQL a query stands for.
pub open spec fn sql_of(q: QueryView) -> Seq<char> {
    match q.raw_sql {
        Some(sql) => sql,
        None => {
            let select = match q.aggregate {
                Some((func, col)) => func + "("@ + col + ")"@,
                None => if q.columns.len() == 0 {
                    "*"@
                } else {
                    joined(q.columns, ", "@)
                },
            };
            let base = "SELECT "@ + select + " FROM "@ + q.table;
            let with_where = if q.where_clauses.len() == 0 {
                base
            } else {
                base + " WHERE "@ + joined(q.where_clauses, " AND "@)
            };
            let with_group = match q.group_by_time {
                Some(interval) => with_where + " GROUP BY time("@ + interval + ")"@,
                None => with_where,
            };
            let with_order = match q.order_by {
                Some(order) => with_group + " ORDER BY "@ + order,
                None => with_group,
            };
            match q.limit {
                Some(n) => with_order + " LIMIT "@ + decimal(n as nat),
                None => with_order,
            }
        },
    }
}

/// A limit is always the last clause of a built query: the SQL with
/// `limit = Some(n)` is the SQL without a limit followed by ` LIMIT ` and
/// the decimal digits of `n`, whatever the other parts are.
pub proof fn lemma_limit_is_last_clause(q: QueryView, n: usize)
    requires
        q.raw_sql is None,
    ensures
        sql_of(QueryView { limit: Some(n), ..q }) == sql_of(QueryView { limit: None, ..q }) + " LIMIT "@ + decimal(
            n as nat,
        ),
        sql_of(QueryView { limit: Some(n), ..q }).len() > decimal(n as nat).len(),
        sql_of(QueryView { limit: Some(n), ..q }).subrange(
            sql_of(QueryView { limit: Some(n), ..q }).len() - decimal(n as nat).len(),
            sql_of(QueryView { limit: Some(n), ..q }).len() as int,
        ) == decimal(n as nat),
{
    let with = sql_of(QueryView { limit: Some(n), ..q });
    let without = sql_of(QueryView { limit: None, ..q });
    reveal_strlit(" LIMIT ");
    let tail = " LIMIT "@ + decimal(n as nat);
    assert(with == without + tail);
    assert(with.subrange(with.len() - decimal(n as nat).len(), with.len() as int) =~= decimal(n as nat));
}

/// The clause `key op 'value'`, the value escaped.
pub open spec fn tag_clause(key: Seq<char>, op: Seq<char>, value: Seq<char>) -> Seq<char> {
    key + op + sql_escaped(value) + "'"@
}

/// Builder for a query against a table.
pub struct QueryBuilder {
    raw_sql: Option<String>,
    table: String,
    columns: Vec<String>,
    where_clauses: Vec<String>,
    aggregate: Option<(String, String)>,
    group_by_time: Option<String>,
    order_by: Option<String>,
    limit: Option<usize>,
}

impl View for QueryBuilder {
    type V = QueryView;

    closed spec fn view(&self) -> QueryView {
        QueryView {
            raw_sql: opt_view(self.raw_sql),
            table: self.table@,
            columns: texts(self.columns@),
            where_clauses: texts(self.where_clauses@),
            aggregate: match self.aggregate {
                Some((f, c)) => Some((f@, c@)),
                None => None,
            },
            group_by_time: opt_view(self.group_by_time),
            order_by: opt_view(self.order_by),
            limit: self.limit,
        }
    }
}

/// Builds `key op 'value'` with the value escaped.
fn make_tag_clause(key: &str, op: &str, value: &str) -> (r: String)
    ensures
        r@ == tag_clause(key@, op@, value@),
{
    let mut c = String::new();
    c.append(key);
    c.append(op);
    push_sql_escaped(&mut c, value);
    c.append("'");
    assert(c@ =~= tag_clause(key@, op@, value@));
    c
}

/// Builds `timestamp op n`.
fn make_time_clause(op: &str, ns: Timestamp) -> (r: String)
    ensures
        r@ == "timestamp "@ + op@ + " "@ + signed_decimal(ns as int),
{
    let mut c = String::new();
    c.append("timestamp ");
    c.append(op);
    c.append(" ");
    push_signed_decimal(&mut c, ns);
    assert(c@ =~= "timestamp "@ + op@ + " "@ + signed_decimal(ns as int));
    c
}

impl QueryBuilder {
    /// A builder for a query on `table`: all columns, no filter.
    pub fn new(table: String) -> (r: QueryBuilder)
        ensures
            r@ == (QueryView {
                raw_sql: None,
                table: table@,
                columns: Seq::empty(),
                where_clauses: Seq::empty(),
                aggregate: None,
                group_by_time: None,
                order_by: None,
                limit: None,
            }),
    {
        let r = QueryBuilder {
            raw_sql: None,
            table,
            columns: Vec::new(),
            where_clauses: Vec::new(),
            aggregate: None,
            group_by_time: None,
            order_by: None,
            limit: None,
        };
        assert(r@.columns =~= Seq::empty());
        assert(r@.where_clauses =~= Seq::empty());
        r
    }

    /// A builder that sends `sql` as it is.
    pub fn raw(sql: String) -> (r: QueryBuilder)
        ensures
            r@ == (QueryView {
                raw_sql: Some(sql@),
                table: Seq::empty(),
                columns: Seq::empty(),
                where_clauses: Seq::empty(),
                aggregate: None,
                group_by_time: None,
                order_by: None,
                limit: None,
            }),
    {
        let r = QueryBuilder {
            raw_sql: Some(sql),
            table: String::new(),
            columns: Vec::new(),
            where_clauses: Vec::new(),
            aggregate: None,
            group_by_time: None,
            order_by: None,
            limit: None,
        };
        assert(r@.columns =~= Seq::empty());
        assert(r@.where_clauses =~= Seq::empty());
        r
    }

    /// Selects the given columns (replacing any earlier selection).
    pub fn select(self, columns: &[&str]) -> (r: QueryBuilder)
        ensures
            r@ == (QueryView { columns: columns@.map_values(|c: &str| c@), ..self@ }),
    {
        let mut cols: Vec<String> = Vec::new();
        let n = columns.len();
        let mut i: usize = 0;
        while i < n
            invariant
                n == columns@.len(),
                0 <= i <= n,
                texts(cols@) =~= columns@.subrange(0, i as int).map_values(|c: &str| c@),
            decreases n - i,
        {
            cols.push(columns[i].to_owned());
            proof {
                assert(columns@.subrange(0, i + 1).map_values(|c: &str| c@) =~= columns@.subrange(
                    0,
                    i as int,
                ).map_values(|c: &str| c@).push(columns@[i as int]@));
            }
            i = i + 1;
        }
        proof {
            assert(columns@.subrange(0, n as int) =~= columns@);
        }
        QueryBuilder { columns: cols, ..self }
    }

    /// Adds a WHERE clause, ANDed with the others.
    fn push_clause(self, clause: String) -> (r: QueryBuilder)
        ensures
            r@ == (QueryView { where_clauses: self@.where_clauses.push(clause@), ..self@ }),
    {
        let mut s = self;
        let ghost before = s.where_clauses@;
        s.where_clauses.push(clause);
        proof {
            assert(texts(s.where_clauses@) =~= texts(before).push(clause@));
        }
        s
    }

    /// Filters by tag equality: `key = 'value'`.
    pub fn where_tag(self, key: &str, value: &str) -> (r: QueryBuilder)
        ensures
            r@ == (QueryView {
                where_clauses: self@.where_clauses.push(tag_clause(key@, " = '"@, value@)),
                ..self@
            }),
    {
        let c = make_tag_clause(key, " = '", value);
        self.push_clause(c)
    }

    /// Filters by tag inequality: `key != 'value'`.
    pub fn where_tag_ne(self, key: &str, value: &str) -> (r: QueryBuilder)
        ensures
            r@ == (QueryView {
                where_clauses: self@.where_clauses.push(tag_clause(key@, " != '"@, value@)),
                ..self@
            }),
    {
        let c = make_tag_clause(key, " != '", value);
        self.push_clause(c)
    }

    /// Filters by a tag matching a regular expression: `key =~ 'pattern'`.
    pub fn where_tag_regex(self, key: &str, pattern: &str) -> (r: QueryBuilder)
        ensures
            r@ == (QueryView {
                where_clauses: self@.where_clauses.push(tag_clause(key@, " =~ '"@, pattern@)),
                ..self@
            }),
    {
        let c = make_tag_clause(key, " =~ '", pattern);
        self.push_clause(c)
    }

    /// Adds a clause written by the caller, ANDed with the others (the
    /// numeric field filters are written this way).
    pub fn where_raw(self, clause: String) -> (r: QueryBuilder)
        ensures
            r@ == (QueryView { where_clauses: self@.where_clauses.push(clause@), ..self@ }),
    {
        self.push_clause(clause)
    }

    /// Filters by time range (nanoseconds since the epoch, both ends
    /// included): `timestamp >= start AND timestamp <= end`.
    pub fn time_range(self, start_ns: Timestamp, end_ns: Timestamp) -> (r: QueryBuilder)
        ensures
            r@ == (QueryView {
                where_clauses: self@.where_clauses.push(
                    "timestamp "@ + ">="@ + " "@ + signed_decimal(start_ns as int),
                ).push("timestamp "@ + "<="@ + " "@ + signed_decimal(end_ns as int)),
                ..self@
            }),
    {
        let lo = make_time_clause(">=", start_ns);
        let hi = make_time_clause("<=", end_ns);
        self.push_clause(lo).push_clause(hi)
    }

    /// Filters: timestamp after a given point.
    pub fn time_after(self, ns: Timestamp) -> (r: QueryBuilder)
        ensures
            r@ == (QueryView {
                where_clauses: self@.where_clauses.push(
                    "timestamp "@ + ">"@ + " "@ + signed_decimal(ns as int),
                ),
                ..self@
            }),
    {
        let c = make_time_clause(">", ns);
        self.push_clause(c)
    }

    /// Filters: timestamp before a given point.
    pub fn time_before(self, ns: Timestamp) -> (r: QueryBuilder)
        ensures
            r@ == (QueryView {
                where_clauses: self@.where_clauses.push(
                    "timestamp "@ + "<"@ + " "@ + signed_decimal(ns as int),
                ),
                ..self@
            }),
    {
        let c = make_time_clause("<", ns);
        self.push_clause(c)
    }

    /// Applies an aggregation function: `SELECT func(column) FROM ...`.
    pub fn aggregate(self, func: &str, column: &str) -> (r: QueryBuilder)
        ensures
            r@ == (QueryView { aggregate: Some((func@, column@)), ..self@ }),
    {
        QueryBuilder { aggregate: Some((func.to_owned(), column.to_owned())), ..self }
    }

    /// `SELECT mean(column) FROM ...`
    pub fn mean(self, column: &str) -> (r: QueryBuilder)
        ensures
            r@ == (QueryView { aggregate: Some(("mean"@, column@)), ..self@ }),
    {
        self.aggregate("mean", column)
    }

    /// `SELECT sum(column) FROM ...`
    pub fn sum(self, column: &str) -> (r: QueryBuilder)
        ensures
            r@ == (QueryView { aggregate: Some(("sum"@, column@)), ..self@ }),
    {
        self.aggregate("sum", column)
    }

    /// `SELECT count(column) FROM ...`
    pub fn count(self, column: &str) -> (r: QueryBuilder)
        ensures
            r@ == (QueryView { aggregate: Some(("count"@, column@)), ..self@ }),
    {
        self.aggregate("count", column)
    }

    /// `SELECT min(column) FROM ...`
    pub fn min(self, column: &str) -> (r: QueryBuilder)
        ensures
            r@ == (QueryView { aggregate: Some(("min"@, column@)), ..self@ }),
    {
        self.aggregate("min", column)
    }

    /// `SELECT max(column) FROM ...`
    pub fn max(self, column: &str) -> (r: QueryBuilder)
        ensures
            r@ == (QueryView { aggregate: Some(("max"@, column@)), ..self@ }),
    {
        self.aggregate("max", column)
    }

    /// Groups results by a time interval: `GROUP BY time(interval)`.
    pub fn group_by_time(self, interval: &str) -> (r: QueryBuilder)
        ensures
            r@ == (QueryView { group_by_time: Some(interval@), ..self@ }),
    {
        QueryBuilder { group_by_time: Some(interval.to_owned()), ..self }
    }

    /// Orders results by timestamp, ascending.
    pub fn order_by_time_asc(self) -> (r: QueryBuilder)
        ensures
            r@ == (QueryView { order_by: Some("timestamp ASC"@), ..self@ }),
    {
        QueryBuilder { order_by: Some("timestamp ASC".to_owned()), ..self }
    }

    /// Orders results by timestamp, descending.
    pub fn order_by_time_desc(self) -> (r: QueryBuilder)
        ensures
            r@ == (QueryView { order_by: Some("timestamp DESC"@), ..self@ }),
    {
        QueryBuilder { order_by: Some("timestamp DESC".to_owned()), ..self }
    }

    /// Limits the number of returned rows.
    pub fn limit(self, n: usize) -> (r: QueryBuilder)
        ensures
            r@ == (QueryView { limit: Some(n), ..self@ }),
    {
        QueryBuilder { limit: Some(n), ..self }
    }

    /// The SQL text of the query: the raw SQL when one was given, else
    /// `SELECT <columns | * | func(col)> FROM <table>` followed by the
    /// WHERE clauses joined with ` AND `, `GROUP BY time(..)`, `ORDER BY ..`
    /// and `LIMIT n`, each only when set.
    #[verifier::spinoff_prover]
    pub fn build_sql(&self) -> (r: String)
        ensures
            r@ == sql_of(self@),
    {
        if let Some(sql) = &self.raw_sql {
            return sql.clone();
        }
        let mut sql = String::new();
        sql.append("SELECT ");
        match &self.aggregate {
            Some((func, col)) => {
                sql.append(func.as_str());
                sql.append("(");
                sql.append(col.as_str());
                sql.append(")");
            },
            None => {
                if self.columns.len() == 0 {
                    sql.append("*");
                } else {
                    push_joined(&mut sql, &self.columns, ", ");
                }
            },
        }
        sql.append(" FROM ");
        sql.append(self.table.as_str());
        if self.where_clauses.len() > 0 {
            sql.append(" WHERE ");
            push_joined(&mut sql, &self.where_clauses, " AND ");
        }
        if let Some(interval) = &self.group_by_time {
            sql.append(" GROUP BY time(");
            sql.append(interval.as_str());
            sql.append(")");
        }
        if let Some(order) = &self.order_by {
            sql.append(" ORDER BY ");
            sql.append(order.as_str());
        }
        if let Some(n) = self.limit {
            sql.append(" LIMIT ");
            push_decimal(&mut sql, n as u64);
        }
        proof {
            assert(sql@ =~= sql_of(self@));
        }
        sql
    }
}

} // verus!
