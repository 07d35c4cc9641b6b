//! Statements that are put together from what a request asks for.

use vstd::prelude::*;

verus! {

/// A value that is bound to a statement.
#[derive(Debug, PartialEq, Eq)]
pub enum SqlValue {
    Text(String),
    Integer(i64),
}

/// What a bound value is.
pub enum SqlView {
    Text(Seq<char>),
    Integer(i64),
}

impl View for SqlValue {
    type V = SqlView;

    open spec fn view(&self) -> SqlView {
        match *self {
            SqlValue::Text(t) => SqlView::Text(t@),
            SqlValue::Integer(n) => SqlView::Integer(n),
        }
    }
}

/// A statement with the values that are bound to its marks, in order.
#[derive(Debug)]
pub struct Query {
    pub sql: String,
    pub values: Vec<SqlValue>,
}

/// What a statement asks.
pub struct QueryView {
    pub sql: Seq<char>,
    pub values: Seq<SqlView>,
}

impl View for Query {
    type V = QueryView;

    open spec fn view(&self) -> QueryView {
        QueryView { sql: self.sql@, values: sql_views(self.values@) }
    }
}

/// What bound values are.
pub open spec fn sql_views(values: Seq<SqlValue>) -> Seq<SqlView> {
    values.map_values(|v: SqlValue| v@)
}

/// A statement with more text and one more value.
pub open spec fn extended(query: QueryView, clause: Seq<char>, value: SqlView) -> QueryView {
    QueryView { sql: query.sql + clause, values: query.values.push(value) }
}

/// A statement with a clause for a text, where there is one.
pub open spec fn with_clause(
    query: QueryView,
    clause: Seq<char>,
    value: Option<Seq<char>>,
) -> QueryView {
    match value {
        Some(t) => extended(query, clause, SqlView::Text(t)),
        None => query,
    }
}

impl Query {
    /// Adds text and a value.
    pub fn extend(&mut self, clause: &str, value: SqlValue)
        ensures
            final(self)@ == extended(old(self)@, clause@, value@),
    {
        let ghost before = self.values@;
        vstd::string::StringExecFns::append(&mut self.sql, clause);
        self.values.push(value);
        assert(sql_views(self.values@) =~= sql_views(before).push(value@));
    }

    /// Adds a clause for a text, where there is one.
    pub fn add_clause(&mut self, clause: &str, value: Option<&str>)
        ensures
            final(self)@ == with_clause(old(self)@, clause@, crate::json::opt_str(value)),
    {
        match value {
            Some(t) => {
                self.extend(clause, SqlValue::Text(t.to_owned()));
            },
            None => {},
        }
    }
}

} // verus!
