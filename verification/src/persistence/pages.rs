//! Reads of the durable lake, page by page.

use vstd::prelude::*;
use vstd::string::*;

use crate::domain::Observation;
use crate::text::{decimal_text, is_blank, str_eq, text2, text3, text4};

use super::error::{violation, PersistenceError, PersistenceErrorView};
use super::identity::StoredObservation;
use super::sql::{Query, QueryView, SqlValue, SqlView};

verus! {

/// The largest number that the database can be asked for.
pub const MAX_SQL_INTEGER: u64 = 9_223_372_036_854_775_807;

/// A number as the database takes it.
pub fn sql_integer(n: u64) -> (r: SqlValue)
    requires
        n <= MAX_SQL_INTEGER,
    ensures
        r@ == SqlView::Integer(n as i64),
{
    SqlValue::Integer(n as i64)
}

/// The statement that reads a page of observations.
pub const OBSERVATION_PAGE_SQL: &'static str =
    "SELECT leaf_id, append_seq, observation_json FROM observations WHERE append_seq > ?1 ORDER BY append_seq LIMIT ?2";

/// The statement that reads the tail of a leaf.
pub const LEAF_TAIL_SQL: &'static str =
    "SELECT leaf_id, append_seq, observation_json FROM observations WHERE leaf_id = ?1 AND append_seq > ?2 ORDER BY append_seq LIMIT ?3";

/// The statement that reads the observations of a privacy key.
pub const PRIVACY_KEY_SQL: &'static str =
    "SELECT reverse_index.append_seq, reverse_index.observation_id, observations.leaf_id, observations.observation_json FROM observation_privacy_keys reverse_index JOIN observations ON observations.id = reverse_index.observation_id WHERE reverse_index.privacy_key = ?1 ORDER BY reverse_index.append_seq";

/// The statement that reads the first supplementals.
pub const FIRST_SUPPLEMENTALS_SQL: &'static str =
    "SELECT supplemental_json FROM supplementals ORDER BY created_at, id LIMIT ?1";

/// The statement that reads the supplementals after a time.
pub const NEXT_SUPPLEMENTALS_SQL: &'static str =
    "SELECT supplemental_json FROM supplementals WHERE created_at > ?1 ORDER BY created_at, id LIMIT ?2";

/// The statement that reads the first audit events.
pub const FIRST_AUDIT_EVENTS_SQL: &'static str =
    "SELECT id, timestamp, actor, event_json FROM audit_events ORDER BY timestamp, id LIMIT ?1";

/// The statement that reads the audit events after a cursor.
pub const NEXT_AUDIT_EVENTS_SQL: &'static str =
    "SELECT id, timestamp, actor, event_json FROM audit_events WHERE timestamp > ?1 OR (timestamp = ?1 AND id > ?2) ORDER BY timestamp, id LIMIT ?3";

/// What is wrong with the bounds of a page.
pub open spec fn page_fault(after: u64, limit: u64, named: Seq<char>) -> Option<
    PersistenceErrorView,
> {
    if limit == 0 {
        Some(super::error::broken(named + " limit must be greater than zero"@))
    } else if after > MAX_SQL_INTEGER || limit > MAX_SQL_INTEGER {
        Some(PersistenceErrorView::Sqlite("out of range integral type conversion attempted"@))
    } else {
        None
    }
}

fn check_page(after: u64, limit: u64, named: &str) -> (r: Result<(), PersistenceError>)
    ensures
        match r {
            Ok(()) => page_fault(after, limit, named@) is None,
            Err(e) => page_fault(after, limit, named@) == Some(e@),
        },
{
    if limit == 0 {
        return Err(
            PersistenceError::SchemaInvariant(text2(named, " limit must be greater than zero")),
        );
    }
    if after > MAX_SQL_INTEGER || limit > MAX_SQL_INTEGER {
        return Err(
            PersistenceError::Sqlite("out of range integral type conversion attempted".to_owned()),
        );
    }
    Ok(())
}

/// The read of a page of observations after a place in the lake.
pub fn observation_page(after_append_seq: u64, limit: u64) -> (r: Result<Query, PersistenceError>)
    ensures
        crate::text::result_view(r) == (match page_fault(
            after_append_seq,
            limit,
            "observation page"@,
        ) {
            Some(e) => Err::<QueryView, PersistenceErrorView>(e),
            None => Ok(
                QueryView {
                    sql: OBSERVATION_PAGE_SQL@,
                    values: seq![
                        SqlView::Integer(after_append_seq as i64),
                        SqlView::Integer(limit as i64),
                    ],
                },
            ),
        }),
{
    match check_page(after_append_seq, limit, "observation page") {
        Ok(()) => {},
        Err(e) => {
            return Err(e);
        },
    }
    let values = vec![sql_integer(after_append_seq), sql_integer(limit)];
    let query = Query { sql: OBSERVATION_PAGE_SQL.to_owned(), values };
    assert(query@.values =~= seq![
        SqlView::Integer(after_append_seq as i64),
        SqlView::Integer(limit as i64),
    ]);
    Ok(query)
}

/// The read of the tail of a leaf after a place in the lake.
pub fn observations_for_leaf_after(leaf_id: &str, after_append_seq: u64, limit: u64) -> (r: Result<
    Query,
    PersistenceError,
>)
    ensures
        crate::text::result_view(r) == (match page_fault(after_append_seq, limit, "leaf tail"@) {
            Some(e) => Err::<QueryView, PersistenceErrorView>(e),
            None => Ok(
                QueryView {
                    sql: LEAF_TAIL_SQL@,
                    values: seq![
                        SqlView::Text(leaf_id@),
                        SqlView::Integer(after_append_seq as i64),
                        SqlView::Integer(limit as i64),
                    ],
                },
            ),
        }),
{
    match check_page(after_append_seq, limit, "leaf tail") {
        Ok(()) => {},
        Err(e) => {
            return Err(e);
        },
    }
    let values = vec![
        SqlValue::Text(leaf_id.to_owned()),
        sql_integer(after_append_seq),
        sql_integer(limit),
    ];
    let query = Query { sql: LEAF_TAIL_SQL.to_owned(), values };
    assert(query@.values =~= seq![
        SqlView::Text(leaf_id@),
        SqlView::Integer(after_append_seq as i64),
        SqlView::Integer(limit as i64),
    ]);
    Ok(query)
}

/// The read of the observations of a privacy key.
pub fn observations_for_privacy_key(privacy_key: &str) -> (r: Result<Query, PersistenceError>)
    ensures
        crate::text::result_view(r) == (if crate::text::blank(privacy_key@) {
            Err::<QueryView, PersistenceErrorView>(
                super::error::broken("privacy key must not be blank"@),
            )
        } else {
            Ok(
                QueryView {
                    sql: PRIVACY_KEY_SQL@,
                    values: seq![SqlView::Text(privacy_key@)],
                },
            )
        }),
{
    if is_blank(privacy_key) {
        return Err(violation("privacy key must not be blank"));
    }
    let values = vec![SqlValue::Text(privacy_key.to_owned())];
    let query = Query { sql: PRIVACY_KEY_SQL.to_owned(), values };
    assert(query@.values =~= seq![SqlView::Text(privacy_key@)]);
    Ok(query)
}

/// An observation that an index names, where its payload is that observation.
pub fn indexed_observation(
    observation_id: &str,
    leaf_id: String,
    append_seq: u64,
    observation: Observation,
) -> (r: Result<StoredObservation, PersistenceError>)
    ensures
        match r {
            Ok(stored) => observation.id@ == observation_id@ && stored == (StoredObservation {
                leaf_id,
                append_seq,
                observation,
            }),
            Err(e) => observation.id@ != observation_id@ && e@ == super::error::broken(
                "privacy index observation id "@ + observation_id@ + " disagrees with payload "@
                    + observation.id@,
            ),
        },
{
    if !str_eq(observation.id.as_str(), observation_id) {
        return Err(
            PersistenceError::SchemaInvariant(
                text4(
                    "privacy index observation id ",
                    observation_id,
                    " disagrees with payload ",
                    observation.id.as_str(),
                ),
            ),
        );
    }
    Ok(StoredObservation { leaf_id, append_seq, observation })
}

/// The read of a page of supplementals after a time.
pub fn supplemental_page(after_created_at: Option<&str>, limit: u64) -> (r: Result<
    Query,
    PersistenceError,
>)
    ensures
        crate::text::result_view(r) == (match page_fault(0, limit, "supplemental page"@) {
            Some(e) => Err::<QueryView, PersistenceErrorView>(e),
            None => Ok(
                match after_created_at {
                    Some(after) => QueryView {
                        sql: NEXT_SUPPLEMENTALS_SQL@,
                        values: seq![SqlView::Text(after@), SqlView::Integer(limit as i64)],
                    },
                    None => QueryView {
                        sql: FIRST_SUPPLEMENTALS_SQL@,
                        values: seq![SqlView::Integer(limit as i64)],
                    },
                },
            ),
        }),
{
    match check_page(0, limit, "supplemental page") {
        Ok(()) => {},
        Err(e) => {
            return Err(e);
        },
    }
    match after_created_at {
        Some(after) => {
            let values = vec![SqlValue::Text(after.to_owned()), sql_integer(limit)];
            let query = Query { sql: NEXT_SUPPLEMENTALS_SQL.to_owned(), values };
            assert(query@.values =~= seq![
                SqlView::Text(after@),
                SqlView::Integer(limit as i64),
            ]);
            Ok(query)
        },
        None => {
            let values = vec![sql_integer(limit)];
            let query = Query { sql: FIRST_SUPPLEMENTALS_SQL.to_owned(), values };
            assert(query@.values =~= seq![SqlView::Integer(limit as i64)]);
            Ok(query)
        },
    }
}

/// A place in the audit log.
#[derive(Debug)]
pub struct AuditEventCursor {
    pub timestamp: String,
    pub id: String,
}

/// The read of a page of audit events after a cursor.
pub fn audit_event_page(after: Option<&AuditEventCursor>, limit: u64) -> (r: Result<
    Query,
    PersistenceError,
>)
    ensures
        crate::text::result_view(r) == (match page_fault(0, limit, "audit event page"@) {
            Some(e) => Err::<QueryView, PersistenceErrorView>(e),
            None => Ok(
                match after {
                    Some(cursor) => QueryView {
                        sql: NEXT_AUDIT_EVENTS_SQL@,
                        values: seq![
                            SqlView::Text(cursor.timestamp@),
                            SqlView::Text(cursor.id@),
                            SqlView::Integer(limit as i64),
                        ],
                    },
                    None => QueryView {
                        sql: FIRST_AUDIT_EVENTS_SQL@,
                        values: seq![SqlView::Integer(limit as i64)],
                    },
                },
            ),
        }),
{
    match check_page(0, limit, "audit event page") {
        Ok(()) => {},
        Err(e) => {
            return Err(e);
        },
    }
    match after {
        Some(cursor) => {
            let values = vec![
                SqlValue::Text(cursor.timestamp.clone()),
                SqlValue::Text(cursor.id.clone()),
                sql_integer(limit),
            ];
            let query = Query { sql: NEXT_AUDIT_EVENTS_SQL.to_owned(), values };
            assert(query@.values =~= seq![
                SqlView::Text(cursor.timestamp@),
                SqlView::Text(cursor.id@),
                SqlView::Integer(limit as i64),
            ]);
            Ok(query)
        },
        None => {
            let values = vec![sql_integer(limit)];
            let query = Query { sql: FIRST_AUDIT_EVENTS_SQL.to_owned(), values };
            assert(query@.values =~= seq![SqlView::Integer(limit as i64)]);
            Ok(query)
        },
    }
}

/// How far back what is retained reaches, as the database takes it; retention for no day at all is
/// refused.
pub fn retention_modifier(retention_days: u32) -> (r: Result<String, PersistenceError>)
    ensures
        crate::text::result_view(r) == (if retention_days == 0 {
            Err::<Seq<char>, PersistenceErrorView>(
                super::error::broken("retention_days must be positive"@),
            )
        } else {
            Ok("-"@ + crate::text::decimal(retention_days as nat) + " days"@)
        }),
{
    if retention_days == 0 {
        return Err(violation("retention_days must be positive"));
    }
    let days = decimal_text(retention_days as u64);
    Ok(text3("-", days.as_str(), " days"))
}

/// Judges what the database says of its own integrity.
pub fn check_integrity(answer: &str) -> (r: Result<(), PersistenceError>)
    ensures
        match r {
            Ok(()) => answer@ == "ok"@,
            Err(e) => answer@ != "ok"@ && e@ == super::error::broken(
                "SQLite quick_check failed: "@ + answer@,
            ),
        },
{
    if str_eq(answer, "ok") {
        Ok(())
    } else {
        Err(PersistenceError::SchemaInvariant(text2("SQLite quick_check failed: ", answer)))
    }
}

} // verus!
