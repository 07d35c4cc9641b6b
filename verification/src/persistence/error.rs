//! Errors of the durable lake.

use vstd::prelude::*;
use vstd::string::*;

verus! {

/// Why the durable lake could not be read or written.
#[derive(Debug, PartialEq, Eq)]
pub enum PersistenceError {
    /// The database failed; holds its message.
    Sqlite(String),
    /// A file could not be read or written; holds the message of the system.
    Io(String),
    /// A stored text is no JSON of the expected form; holds the parser's message.
    Json(String),
    SchemaInvariant(String),
    CutoverAdmissionDenied(String),
}

/// What an error of the durable lake says.
pub enum PersistenceErrorView {
    Sqlite(Seq<char>),
    Io(Seq<char>),
    Json(Seq<char>),
    SchemaInvariant(Seq<char>),
    CutoverAdmissionDenied(Seq<char>),
}

impl View for PersistenceError {
    type V = PersistenceErrorView;

    open spec fn view(&self) -> PersistenceErrorView {
        match *self {
            PersistenceError::Sqlite(m) => PersistenceErrorView::Sqlite(m@),
            PersistenceError::Io(m) => PersistenceErrorView::Io(m@),
            PersistenceError::Json(m) => PersistenceErrorView::Json(m@),
            PersistenceError::SchemaInvariant(m) => PersistenceErrorView::SchemaInvariant(m@),
            PersistenceError::CutoverAdmissionDenied(m) =>
                PersistenceErrorView::CutoverAdmissionDenied(m@),
        }
    }
}

/// The text of an error.
pub open spec fn persistence_message(error: PersistenceErrorView) -> Seq<char> {
    match error {
        PersistenceErrorView::Sqlite(m) => "sqlite error: "@ + m,
        PersistenceErrorView::Io(m) => "io error: "@ + m,
        PersistenceErrorView::Json(m) => "json error: "@ + m,
        PersistenceErrorView::SchemaInvariant(m) => "schema invariant violation: "@ + m,
        PersistenceErrorView::CutoverAdmissionDenied(m) => "cutover admission denied: "@ + m,
    }
}

impl PersistenceError {
    /// The text of the error.
    pub fn message(&self) -> (r: String)
        ensures
            r@ == persistence_message(self@),
    {
        let (head, tail) = match self {
            PersistenceError::Sqlite(m) => ("sqlite error: ", m),
            PersistenceError::Io(m) => ("io error: ", m),
            PersistenceError::Json(m) => ("json error: ", m),
            PersistenceError::SchemaInvariant(m) => ("schema invariant violation: ", m),
            PersistenceError::CutoverAdmissionDenied(m) => ("cutover admission denied: ", m),
        };
        let mut out = head.to_owned();
        out.append(tail.as_str());
        out
    }
}

/// Why a store refused a request.
#[derive(Debug, PartialEq, Eq)]
pub enum StorageError {
    Backend(String),
    Invariant(String),
    OperationalIdempotencyCollision(String),
    OperationalEventIdCollision(String),
    CutoverAdmissionDenied(String),
    CutoverConflict(String),
    CutoverRollbackRefused(String),
}

/// What a refusal says.
pub enum StorageErrorView {
    Backend(Seq<char>),
    Invariant(Seq<char>),
    OperationalIdempotencyCollision(Seq<char>),
    OperationalEventIdCollision(Seq<char>),
    CutoverAdmissionDenied(Seq<char>),
    CutoverConflict(Seq<char>),
    CutoverRollbackRefused(Seq<char>),
}

impl View for StorageError {
    type V = StorageErrorView;

    open spec fn view(&self) -> StorageErrorView {
        match *self {
            StorageError::Backend(m) => StorageErrorView::Backend(m@),
            StorageError::Invariant(m) => StorageErrorView::Invariant(m@),
            StorageError::OperationalIdempotencyCollision(m) =>
                StorageErrorView::OperationalIdempotencyCollision(m@),
            StorageError::OperationalEventIdCollision(m) =>
                StorageErrorView::OperationalEventIdCollision(m@),
            StorageError::CutoverAdmissionDenied(m) => StorageErrorView::CutoverAdmissionDenied(m@),
            StorageError::CutoverConflict(m) => StorageErrorView::CutoverConflict(m@),
            StorageError::CutoverRollbackRefused(m) => StorageErrorView::CutoverRollbackRefused(m@),
        }
    }
}

/// How an error of the durable lake is reported to its users.
pub open spec fn reported(error: PersistenceErrorView) -> StorageErrorView {
    match error {
        PersistenceErrorView::SchemaInvariant(m) => StorageErrorView::Invariant(m),
        PersistenceErrorView::CutoverAdmissionDenied(m) => StorageErrorView::CutoverAdmissionDenied(
            m,
        ),
        other => StorageErrorView::Backend(persistence_message(other)),
    }
}

/// How an error of the durable lake is reported to its users.
pub fn storage_error(error: PersistenceError) -> (r: StorageError)
    ensures
        r@ == reported(error@),
{
    match error {
        PersistenceError::SchemaInvariant(m) => StorageError::Invariant(m),
        PersistenceError::CutoverAdmissionDenied(m) => StorageError::CutoverAdmissionDenied(m),
        other => StorageError::Backend(other.message()),
    }
}

/// What a refusal says, whatever its kind.
pub open spec fn refusal_text(error: StorageErrorView) -> Seq<char> {
    match error {
        StorageErrorView::Backend(m) => m,
        StorageErrorView::Invariant(m) => m,
        StorageErrorView::OperationalIdempotencyCollision(m) => m,
        StorageErrorView::OperationalEventIdCollision(m) => m,
        StorageErrorView::CutoverAdmissionDenied(m) => m,
        StorageErrorView::CutoverConflict(m) => m,
        StorageErrorView::CutoverRollbackRefused(m) => m,
    }
}

/// A refused commit of projection items as a broken invariant.
pub fn projection_item_validation_error(error: StorageError) -> (r: PersistenceError)
    ensures
        r@ == PersistenceErrorView::SchemaInvariant(refusal_text(error@)),
{
    match error {
        StorageError::Backend(m) => PersistenceError::SchemaInvariant(m),
        StorageError::Invariant(m) => PersistenceError::SchemaInvariant(m),
        StorageError::OperationalIdempotencyCollision(m) => PersistenceError::SchemaInvariant(m),
        StorageError::OperationalEventIdCollision(m) => PersistenceError::SchemaInvariant(m),
        StorageError::CutoverAdmissionDenied(m) => PersistenceError::SchemaInvariant(m),
        StorageError::CutoverConflict(m) => PersistenceError::SchemaInvariant(m),
        StorageError::CutoverRollbackRefused(m) => PersistenceError::SchemaInvariant(m),
    }
}

/// A text in quotation marks with its special characters escaped.
pub uninterp spec fn quoted(text: Seq<char>) -> Seq<char>;

/// Quotes a text as the `Debug` of `str` does. The contract claims that the outcome depends on the
/// text alone.
#[verifier::external_body]
pub(crate) fn quote(text: &str) -> (r: String)
    ensures
        r@ == quoted(text@),
{
    format!("{text:?}")
}

/// A broken invariant.
pub open spec fn broken(message: Seq<char>) -> PersistenceErrorView {
    PersistenceErrorView::SchemaInvariant(message)
}

/// A broken invariant.
pub(crate) fn violation(message: &str) -> (r: PersistenceError)
    ensures
        r@ == broken(message@),
{
    PersistenceError::SchemaInvariant(message.to_owned())
}

} // verus!
