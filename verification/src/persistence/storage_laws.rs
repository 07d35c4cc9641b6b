//! Laws of errors, statements, pages, blobs and secrets.

use vstd::prelude::*;
use vstd::string::*;

use super::error::{PersistenceErrorView, StorageErrorView};
use super::secrets::EncryptedSecret;
use super::sql::{QueryView, SqlView};

verus! {

/// An error of the durable lake is told with what failed before its message.
pub proof fn errors_are_told_with_what_failed(m: Seq<char>)
    ensures
        super::error::persistence_message(PersistenceErrorView::Sqlite(m)) == "sqlite error: "@ + m,
        super::error::persistence_message(PersistenceErrorView::Io(m)) == "io error: "@ + m,
        super::error::persistence_message(PersistenceErrorView::Json(m)) == "json error: "@ + m,
        super::error::persistence_message(PersistenceErrorView::SchemaInvariant(m))
            == "schema invariant violation: "@ + m,
        super::error::persistence_message(PersistenceErrorView::CutoverAdmissionDenied(m))
            == "cutover admission denied: "@ + m,
{
}

/// A broken invariant and a denied admission are reported as such with their message alone; whatever
/// else failed is reported as a failure of the store with its whole text.
pub proof fn errors_are_reported_by_kind(m: Seq<char>)
    ensures
        super::error::reported(PersistenceErrorView::SchemaInvariant(m))
            == StorageErrorView::Invariant(m),
        super::error::reported(PersistenceErrorView::CutoverAdmissionDenied(m))
            == StorageErrorView::CutoverAdmissionDenied(m),
        super::error::reported(PersistenceErrorView::Sqlite(m)) == StorageErrorView::Backend(
            "sqlite error: "@ + m,
        ),
        super::error::reported(PersistenceErrorView::Io(m)) == StorageErrorView::Backend(
            "io error: "@ + m,
        ),
        super::error::reported(PersistenceErrorView::Json(m)) == StorageErrorView::Backend(
            "json error: "@ + m,
        ),
        super::error::broken(m) == PersistenceErrorView::SchemaInvariant(m),
        super::error::refusal_text(StorageErrorView::Backend(m)) == m,
        super::error::refusal_text(StorageErrorView::Invariant(m)) == m,
        super::error::refusal_text(StorageErrorView::OperationalIdempotencyCollision(m)) == m,
        super::error::refusal_text(StorageErrorView::OperationalEventIdCollision(m)) == m,
        super::error::refusal_text(StorageErrorView::CutoverAdmissionDenied(m)) == m,
        super::error::refusal_text(StorageErrorView::CutoverConflict(m)) == m,
        super::error::refusal_text(StorageErrorView::CutoverRollbackRefused(m)) == m,
{
}

/// A clause is added behind the statement and its value behind the values, and nothing where there
/// is no value for it.
pub proof fn clauses_are_added_with_their_value(
    query: QueryView,
    clause: Seq<char>,
    t: Seq<char>,
    value: SqlView,
)
    ensures
        super::sql::extended(query, clause, value).sql == query.sql + clause,
        super::sql::extended(query, clause, value).values == query.values + seq![value],
        super::sql::with_clause(query, clause, None) == query,
        super::sql::with_clause(query, clause, Some(t)).sql == query.sql + clause,
        super::sql::with_clause(query, clause, Some(t)).values == query.values + seq![
            SqlView::Text(t),
        ],
{
    assert(query.values.push(value) =~= query.values + seq![value]);
    assert(query.values.push(SqlView::Text(t)) =~= query.values + seq![SqlView::Text(t)]);
}

/// A page is read where it holds at least one row and both its bounds are numbers of the database;
/// a page without rows is told with its name.
pub proof fn pages_hold_at_least_one_row(after: u64, limit: u64, named: Seq<char>)
    ensures
        super::pages::page_fault(after, limit, named) is None <==> limit >= 1 && limit
            <= 9_223_372_036_854_775_807 && after <= 9_223_372_036_854_775_807,
        limit == 0 ==> super::pages::page_fault(after, limit, named) == Some(
            PersistenceErrorView::SchemaInvariant(named + " limit must be greater than zero"@),
        ),
        limit >= 1 && (limit > 9_223_372_036_854_775_807 || after > 9_223_372_036_854_775_807)
            ==> super::pages::page_fault(after, limit, named) == Some(
            PersistenceErrorView::Sqlite("out of range integral type conversion attempted"@),
        ),
{
}

/// The statements of the pages ask for the rows behind the mark, in the order of the mark, and no
/// more than the limit.
pub proof fn pages_are_asked_for_by_statement()
    ensures
        super::pages::OBSERVATION_PAGE_SQL@
            == "SELECT leaf_id, append_seq, observation_json FROM observations WHERE append_seq > ?1 ORDER BY append_seq LIMIT ?2"@,
        super::pages::LEAF_TAIL_SQL@
            == "SELECT leaf_id, append_seq, observation_json FROM observations WHERE leaf_id = ?1 AND append_seq > ?2 ORDER BY append_seq LIMIT ?3"@,
        super::pages::FIRST_SUPPLEMENTALS_SQL@
            == "SELECT supplemental_json FROM supplementals ORDER BY created_at, id LIMIT ?1"@,
        super::pages::NEXT_SUPPLEMENTALS_SQL@
            == "SELECT supplemental_json FROM supplementals WHERE created_at > ?1 ORDER BY created_at, id LIMIT ?2"@,
        super::pages::FIRST_AUDIT_EVENTS_SQL@
            == "SELECT id, timestamp, actor, event_json FROM audit_events ORDER BY timestamp, id LIMIT ?1"@,
{
}

/// The reference of contents is `blob:sha256:` before the digest of the contents, which is also the
/// name of their file.
pub proof fn contents_are_named_by_their_digest(bytes: Seq<u8>)
    ensures
        super::blobs::file_name_of(bytes) == crate::digest::hex_text(crate::digest::sha256(bytes)),
        super::blobs::reference_of(bytes) == "blob:sha256:"@ + crate::digest::hex_text(
            crate::digest::sha256(bytes),
        ),
{
}

/// A byte is written as two digits, the one for its sixteens first.
pub proof fn bytes_are_written_as_two_digits(bytes: Seq<u8>, k: int)
    requires
        0 <= k < bytes.len(),
    ensures
        crate::digest::hex_text(bytes).len() == 2 * bytes.len(),
        crate::digest::hex_text(bytes)[2 * k] == crate::digest::hex_digit(bytes[k] as int / 16),
        crate::digest::hex_text(bytes)[2 * k + 1] == crate::digest::hex_digit(bytes[k] as int % 16),
        crate::digest::hex_digit(0) == '0',
        crate::digest::hex_digit(9) == '9',
        crate::digest::hex_digit(10) == 'a',
        crate::digest::hex_digit(15) == 'f',
{
    assert((2 * k) % 2 == 0 && (2 * k) / 2 == k);
    assert((2 * k + 1) % 2 == 1 && (2 * k + 1) / 2 == k);
}

/// The first blob of a batch that is larger than the maximum is told, and none where none is.
pub proof fn the_first_large_blob_is_told(sizes: Seq<usize>, max_bytes: usize)
    ensures
        match super::blobs::first_oversized(sizes, max_bytes) {
            Some(i) => 0 <= i < sizes.len() && sizes[i] > max_bytes && forall|j: int|
                0 <= j < i ==> #[trigger] sizes[j] <= max_bytes,
            None => forall|j: int| 0 <= j < sizes.len() ==> #[trigger] sizes[j] <= max_bytes,
        },
    decreases sizes.len(),
{
    if sizes.len() > 0 {
        let rest = sizes.drop_last();
        the_first_large_blob_is_told(rest, max_bytes);
        assert(forall|j: int| 0 <= j < rest.len() ==> #[trigger] rest[j] == sizes[j]);
        match super::blobs::first_oversized(rest, max_bytes) {
            Some(i) => {
                assert forall|j: int| 0 <= j < i implies #[trigger] sizes[j] <= max_bytes by {
                    assert(rest[j] <= max_bytes);
                }
            },
            None => {
                assert forall|j: int| 0 <= j < sizes.len() - 1 implies #[trigger] sizes[j]
                    <= max_bytes by {
                    assert(rest[j] <= max_bytes);
                }
            },
        }
    }
}

/// A file is an orphan just where it is listed and no reference is `blob:sha256:` before its name;
/// orphans stand in the order of the files.
pub proof fn files_without_reference_are_orphans(
    refs: Seq<Seq<char>>,
    files: Seq<Seq<char>>,
    file: Seq<char>,
)
    ensures
        super::blobs::orphans(refs, files).contains(file) <==> files.contains(file)
            && !refs.contains("blob:sha256:"@ + file),
        super::blobs::orphans(refs, files).len() <= files.len(),
    decreases files.len(),
{
    if files.len() > 0 {
        let rest = files.drop_last();
        files_without_reference_are_orphans(refs, rest, file);
        let before = super::blobs::orphans(refs, rest);
        let now = super::blobs::orphans(refs, files);
        assert(files =~= rest.push(files.last()));
        if before.contains(file) {
            let i = choose|i: int| 0 <= i < before.len() && before[i] == file;
            assert(now[i] == file);
        }
        if rest.contains(file) {
            let i = choose|i: int| 0 <= i < rest.len() && rest[i] == file;
            assert(files[i] == file);
        }
        if files.contains(file) && !rest.contains(file) {
            let i = choose|i: int| 0 <= i < files.len() && files[i] == file;
            if i < rest.len() {
                assert(rest[i] == file);
            }
            assert(files.last() == file);
            if !refs.contains("blob:sha256:"@ + file) {
                assert(now[now.len() - 1] == file);
            }
        }
        if now.contains(file) && !before.contains(file) {
            let i = choose|i: int| 0 <= i < now.len() && now[i] == file;
            if i < before.len() {
                assert(before[i] == file);
            }
            assert(files[files.len() - 1] == file);
        }
    }
}

/// A secret is stored where it has a name, holds something and is no longer than 64 GiB.
pub proof fn secrets_have_a_name_and_contents(secret_ref: Seq<char>, length: nat)
    ensures
        super::secrets::secret_fault(secret_ref, length) is None <==> !crate::text::blank(
            secret_ref,
        ) && 1 <= length <= 64 * 1024 * 1024 * 1024,
        crate::text::blank(secret_ref) || length == 0 ==> super::secrets::secret_fault(
            secret_ref,
            length,
        ) == Some(
            PersistenceErrorView::SchemaInvariant("secret_ref and plaintext must not be empty"@),
        ),
        !crate::text::blank(secret_ref) && length > 64 * 1024 * 1024 * 1024
            ==> super::secrets::secret_fault(secret_ref, length) == Some(
            PersistenceErrorView::SchemaInvariant("secret encryption failed"@),
        ),
{
}

/// A stored secret is read with its own nonce, which has twelve bytes, and with the key that it was
/// stored with.
pub proof fn secrets_are_read_with_key_and_nonce(
    secret: EncryptedSecret,
    key: Seq<u8>,
    plaintext: Seq<u8>,
)
    ensures
        super::secrets::holds(secret, key, plaintext) ==> super::secrets::opened(
            key,
            secret.nonce@,
            secret.ciphertext@,
        ) == Some(plaintext) && super::secrets::sealed(key, secret.nonce@, plaintext) == Some(
            secret.ciphertext@,
        ) && secret.nonce@.len() == 12 && secret.ciphertext@.len() == plaintext.len() + 16,
        secret.nonce@.len() != 12 ==> super::secrets::secret_contents(
            key,
            secret.nonce@,
            secret.ciphertext@,
        ) == Err::<Seq<u8>, PersistenceErrorView>(
            PersistenceErrorView::SchemaInvariant("stored secret nonce has invalid length"@),
        ),
        secret.nonce@.len() == 12 && super::secrets::opened(key, secret.nonce@, secret.ciphertext@) is None
            ==> super::secrets::secret_contents(key, secret.nonce@, secret.ciphertext@) == Err::<
            Seq<u8>,
            PersistenceErrorView,
        >(PersistenceErrorView::SchemaInvariant("secret decryption failed"@)),
        secret.nonce@.len() == 12 && super::secrets::opened(key, secret.nonce@, secret.ciphertext@) is Some
            ==> super::secrets::secret_contents(key, secret.nonce@, secret.ciphertext@) == Ok::<
            Seq<u8>,
            PersistenceErrorView,
        >(super::secrets::opened(key, secret.nonce@, secret.ciphertext@)->0),
{
}

} // verus!
