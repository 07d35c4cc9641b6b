//! Laws of single requests to the durable lake, stated of what the functions return.

use vstd::prelude::*;
use vstd::string::*;

use crate::domain::{ObservationId, ProjectionRef};
use crate::json::Json;

use super::cutover::{
    BridgeGap, CutoverApiVersion, CutoverFixture, CutoverHealth, CutoverReadinessReport,
    CutoverState, UnitCandidate,
};
use super::error::{PersistenceError, PersistenceErrorView, StorageError, StorageErrorView};
use super::identity::{
    BridgeCandidate, BridgedStep, BridgedView, DurableAppendOutcome, DurableView,
    IdentityBridgeResolution,
};
use super::projection::{
    ProjectionItem, ProjectionItemCommit, ProjectionItems, ProjectionLeafWatermark,
};
use super::slack::{SlackThreadCatalogEntry, SlackThreadKey};
use super::sql::{Query, SqlView};

verus! {

/// The items that a replacement leaves are those of the commit: a key is stored just where one of
/// them has it, whatever was stored before.
pub proof fn replaced_items_are_those_of_the_commit(
    before: &ProjectionItems,
    items: Vec<ProjectionItem>,
    projection: &str,
    r: Result<ProjectionItems, PersistenceError>,
    key: Seq<char>,
)
    requires
        call_ensures(
            ProjectionItems::committed,
            (before, &ProjectionItemCommit::Replace { items }, projection),
            r,
        ),
    ensures
        r is Ok,
        r->Ok_0@.contains_key(key) <==> exists|i: int|
            0 <= i < items@.len() && (#[trigger] items@[i]).item_key@ == key,
{
    super::projection_laws::replacements_leave_nothing_else(
        before@,
        before@,
        items,
        projection@,
        key,
    );
}

/// The observations of a privacy key are asked for by that key, which is not blank.
pub proof fn privacy_keys_are_asked_for(privacy_key: &str, r: Result<Query, PersistenceError>)
    requires
        call_ensures(super::pages::observations_for_privacy_key, (privacy_key,), r),
    ensures
        crate::text::blank(privacy_key@) <==> r is Err,
        r matches Err(e) ==> e@ == PersistenceErrorView::SchemaInvariant(
            "privacy key must not be blank"@,
        ),
        r matches Ok(query) ==> query@.values == seq![SqlView::Text(privacy_key@)],
{
}

/// A page of observations is bound to the place that it follows and to its limit, in this order;
/// that of a leaf to the leaf before them.
pub proof fn pages_are_bound_to_their_marks(
    leaf_id: &str,
    after: u64,
    limit: u64,
    page: Result<Query, PersistenceError>,
    tail: Result<Query, PersistenceError>,
)
    requires
        call_ensures(super::pages::observation_page, (after, limit), page),
        call_ensures(super::pages::observations_for_leaf_after, (leaf_id, after, limit), tail),
    ensures
        page is Ok <==> 1 <= limit <= i64::MAX && after <= i64::MAX,
        tail is Ok <==> 1 <= limit <= i64::MAX && after <= i64::MAX,
        page matches Ok(query) ==> query@.values == seq![
            SqlView::Integer(after as i64),
            SqlView::Integer(limit as i64),
        ],
        tail matches Ok(query) ==> query@.values == seq![
            SqlView::Text(leaf_id@),
            SqlView::Integer(after as i64),
            SqlView::Integer(limit as i64),
        ],
{
}

/// What is kept for some days is told with the number of days before its name.
pub proof fn retentions_count_days(days: u32, r: Result<String, PersistenceError>)
    requires
        call_ensures(super::pages::retention_modifier, (days,), r),
    ensures
        r is Err <==> days == 0,
        r matches Ok(t) ==> t@ == "-"@ + crate::text::decimal(days as nat) + " days"@,
        r matches Err(e) ==> e@ == PersistenceErrorView::SchemaInvariant(
            "retention_days must be positive"@,
        ),
{
}

/// A database is in order just where it says `ok`.
pub proof fn databases_say_ok(answer: &str, r: Result<(), PersistenceError>)
    requires
        call_ensures(super::pages::check_integrity, (answer,), r),
    ensures
        r is Ok <==> answer@ == "ok"@,
        r matches Err(e) ==> e@ == PersistenceErrorView::SchemaInvariant(
            "SQLite quick_check failed: "@ + answer@,
        ),
{
}

/// A unit has a name, and only a registered one has a state; a request of the first version to a
/// registered unit counts as stale.
pub proof fn units_are_named_and_registered(
    unit: &str,
    state: Option<CutoverState>,
    version: CutoverApiVersion,
    registered: bool,
    named: Result<(), PersistenceError>,
    found: Result<CutoverState, PersistenceError>,
    stale: bool,
)
    requires
        call_ensures(super::cutover::validate_cutover_unit, (unit,), named),
        call_ensures(super::cutover::required_state, (unit, state), found),
        call_ensures(super::cutover::counts_as_stale, (version, registered), stale),
    ensures
        named is Ok <==> !crate::text::blank(unit@),
        named matches Err(e) ==> e@ == PersistenceErrorView::SchemaInvariant(
            "source_instance_id must not be blank"@,
        ),
        found is Ok <==> state is Some,
        found is Ok ==> found->Ok_0 == state->0,
        found matches Err(e) ==> e@ == PersistenceErrorView::SchemaInvariant(
            "cutover unit "@ + unit@ + " is not registered"@,
        ),
        stale <==> version == CutoverApiVersion::V1 && registered,
{
}

/// Three counters of a unit can be raised, each by its own name.
pub proof fn counters_are_raised_by_name(column: &str, r: Result<String, PersistenceError>)
    requires
        call_ensures(super::cutover::metric_update_sql, (column,), r),
    ensures
        r is Ok <==> column@ == "bridge_duplicate_hits"@ || column@ == "stale_v1_rejections"@
            || column@ == "v2_ingested"@,
        r matches Ok(sql) ==> sql@ == "UPDATE cutover_unit_metrics SET "@ + column@ + " = "@
            + column@ + " + ?1, updated_at = ?2 WHERE source_instance_id = ?3"@,
        r matches Err(e) ==> e@ == PersistenceErrorView::SchemaInvariant(
            "unknown cutover metric column "@ + column@,
        ),
{
}

/// An observation persists just where it was appended; a repetition and a collision are told apart.
pub proof fn appended_observations_persist(
    outcome: DurableAppendOutcome,
    r: Result<(), PersistenceError>,
    id: Seq<char>,
)
    requires
        call_ensures(super::identity::persist_outcome, (outcome,), r),
    ensures
        r is Ok <==> outcome@ is Appended,
        outcome@ == DurableView::Duplicate(id) ==> r is Err && r->Err_0@
            == PersistenceErrorView::SchemaInvariant(
            "duplicate observation already exists: "@ + id,
        ),
        outcome@ == DurableView::CanonicalCollision(id) ==> r is Err && r->Err_0@
            == PersistenceErrorView::SchemaInvariant(
            "identity key collision with existing observation: "@ + id,
        ),
{
}

/// What the bridge finds decides: without a winner the observation is appended, and with one it is
/// known, as a collision where the contents differ.
pub proof fn winners_decide_the_bridge(resolution: &IdentityBridgeResolution, r: BridgedStep)
    requires
        call_ensures(super::identity::bridged_step, (resolution,), r),
    ensures
        resolution.winner is None <==> r@ == BridgedView::Append,
        resolution.winner is Some && resolution.canonical_collision ==> r@ == BridgedView::Known(
            DurableView::CanonicalCollision(resolution.winner->0@),
        ),
        resolution.winner is Some && !resolution.canonical_collision ==> r@ == BridgedView::Known(
            DurableView::Duplicate(resolution.winner->0@),
        ),
{
}

/// A lake is pinned to its first data space: the first one that is named is pinned, the same one is
/// taken again, and another one is refused.
pub proof fn lakes_are_pinned_once(
    data_space: &str,
    pinned: Option<&str>,
    r: Result<bool, PersistenceError>,
)
    requires
        call_ensures(super::operational::pin_data_space, (data_space, pinned), r),
    ensures
        r is Ok <==> !crate::text::blank(data_space@) && (pinned is Some ==> pinned->0@
            == data_space@),
        r matches Ok(first) ==> (first <==> pinned is None),
        r is Err && !crate::text::blank(data_space@) ==> r->Err_0@
            == PersistenceErrorView::SchemaInvariant(
            "sqlite Lake is pinned to data space "@ + pinned->0@ + ", not "@ + data_space@,
        ),
        crate::text::blank(data_space@) ==> r is Err && r->Err_0@
            == PersistenceErrorView::SchemaInvariant("data_space_id must not be blank"@),
{
}

/// The second version is admitted to a named unit, with a generation that counts from one where one
/// is given.
pub proof fn second_versions_name_their_unit(
    unit: &str,
    generation: Option<u64>,
    r: Result<(), StorageError>,
)
    requires
        call_ensures(super::operational::check_v2_admission, (unit, generation), r),
    ensures
        r is Ok <==> !crate::text::blank(unit@) && (generation is Some ==> generation->0 >= 1),
        crate::text::blank(unit@) ==> r is Err && r->Err_0@ == StorageErrorView::Invariant(
            "v2 source_instance_id must not be blank"@,
        ),
        r is Err && !crate::text::blank(unit@) ==> r->Err_0@ == StorageErrorView::Invariant(
            "v2 admission generation must be positive"@,
        ),
{
}

/// Events are asked for by at least one at a time, those of a stream by its name.
pub proof fn streams_are_asked_for_by_name(
    stream: &str,
    limit: usize,
    events: Result<(), StorageError>,
    page: Result<(), StorageError>,
    alone: Result<(), StorageError>,
)
    requires
        call_ensures(super::operational::check_event_page, (limit,), events),
        call_ensures(super::operational::check_stream_page, (stream, limit), page),
        call_ensures(super::operational::check_stream, (stream,), alone),
    ensures
        events is Ok <==> limit >= 1,
        page is Ok <==> !crate::text::blank(stream@) && limit >= 1,
        alone is Ok <==> !crate::text::blank(stream@),
        events matches Err(e) ==> e@ == StorageErrorView::Invariant(
            "operational event page limit must be positive"@,
        ),
        page matches Err(e) ==> e@ == StorageErrorView::Invariant(
            "stream_id and a positive limit are required"@,
        ),
        alone matches Err(e) ==> e@ == StorageErrorView::Invariant("stream_id must not be blank"@),
{
}

/// The consent of an owner in a projection names the projection before the owner.
pub proof fn consents_name_projection_and_owner(projection: &ProjectionRef, owner: &str, r: String)
    requires
        call_ensures(super::projection::consent_scope, (projection, owner), r),
    ensures
        r@ == "projection:"@ + projection@ + ":owner:"@ + owner@,
{
}

/// A projection, an owner and an item are named; a supplemental commit changes a projection by a
/// delta, and its record is written once.
pub proof fn keys_of_projections_are_named(
    projection: &ProjectionRef,
    key: &str,
    commit: &ProjectionItemCommit,
    inserted: usize,
    a: Result<(), PersistenceError>,
    b: Result<(), PersistenceError>,
    c: Result<(), PersistenceError>,
    d: Result<(), PersistenceError>,
    e: Result<(), PersistenceError>,
)
    requires
        call_ensures(super::projection::validate_projection_key, (projection,), a),
        call_ensures(super::projection::validate_owner_key, (key,), b),
        call_ensures(super::projection::validate_item_key, (key,), c),
        call_ensures(super::projection::require_delta, (commit,), d),
        call_ensures(super::projection::require_new_supplemental, (key, inserted), e),
    ensures
        a is Ok <==> !crate::text::blank(projection@),
        b is Ok <==> !crate::text::blank(key@),
        c is Ok <==> !crate::text::blank(key@),
        d is Ok <==> commit is Delta,
        e is Ok <==> inserted == 1,
        a is Err ==> a->Err_0@ == PersistenceErrorView::SchemaInvariant(
            "projection item projection_id must not be blank"@,
        ),
        b is Err ==> b->Err_0@ == PersistenceErrorView::SchemaInvariant(
            "projection item owner_key must not be blank"@,
        ),
        c is Err ==> c->Err_0@ == PersistenceErrorView::SchemaInvariant(
            "projection item item_key must not be blank"@,
        ),
        d is Err ==> d->Err_0@ == PersistenceErrorView::SchemaInvariant(
            "supplemental projection commit requires a projection item delta"@,
        ),
        e is Err ==> e->Err_0@ == PersistenceErrorView::SchemaInvariant(
            "supplemental append requires absent id "@ + key@,
        ),
{
}

/// The mark of a leaf is what was stored, or the beginning and a success; it never goes back.
pub proof fn marks_of_leaves_never_go_back(
    projection: &ProjectionRef,
    leaf: &str,
    stored: Option<(u64, String)>,
    mark: ProjectionLeafWatermark,
    current: u64,
    next: u64,
    moved: Result<(), PersistenceError>,
)
    requires
        call_ensures(super::projection::projection_leaf_watermark, (projection, leaf, stored), mark),
        call_ensures(super::projection::commit_projection_leaf_watermark, (current, next), moved),
    ensures
        mark.projection_id@ == projection@,
        mark.leaf_id@ == leaf@,
        stored is None ==> mark.append_seq == 0 && mark.status@ == "success"@,
        stored matches Some((seq, status)) ==> mark.append_seq == seq && mark.status@ == status@,
        moved is Ok <==> current <= next,
        moved matches Err(e) ==> e@ == PersistenceErrorView::SchemaInvariant(
            "projection leaf watermark cannot decrease: "@ + crate::text::decimal(current as nat)
                + " -> "@ + crate::text::decimal(next as nat),
        ),
{
}

/// Files are shared among writers so that all are taken and no writer more than is needed goes
/// without one: with a chunk for each of at most eight writers every file has its writer.
pub proof fn writers_share_all_files(files: usize, parallelism: usize, r: usize)
    requires
        parallelism >= 1,
        1 <= files < usize::MAX - 8,
        call_ensures(super::blobs::writer_chunk, (files, parallelism), r),
    ensures
        ({
            let most: int = if parallelism < 8 {
                parallelism as int
            } else {
                8
            };
            let writers: int = if most < files {
                most
            } else {
                files as int
            };
            &&& r >= 1
            &&& r * writers >= files
            &&& (r - 1) * writers < files
        }),
{
    let most: int = if parallelism < 8 {
        parallelism as int
    } else {
        8
    };
    let writers: int = if most < files {
        most
    } else {
        files as int
    };
    let n = files + writers - 1;
    assert(r == n / writers);
    vstd::arithmetic::div_mod::lemma_fundamental_div_mod(n, writers);
    vstd::arithmetic::div_mod::lemma_mod_bound(n, writers);
    vstd::arithmetic::mul::lemma_mul_is_commutative(writers, n / writers);
    assert((r - 1) * writers == r * writers - writers) by (nonlinear_arith);
}

/// A blob is taken up to the maximum size.
pub proof fn blobs_have_a_maximum_size(size: usize, max: usize, r: Result<(), StorageError>)
    requires
        call_ensures(super::blobs::check_blob_size, (size, max), r),
    ensures
        r is Ok <==> size <= max,
        r matches Err(e) ==> e@ == StorageErrorView::Invariant(
            "blob size "@ + crate::text::decimal(size as nat) + " exceeds configured maximum "@
                + crate::text::decimal(max as nat),
        ),
{
}

/// A manifest that is stored is an object, and a table of blobs names no files any more.
pub proof fn stored_forms_are_current(
    projection: &str,
    manifest: &Json,
    columns: &Vec<String>,
    a: Result<(), PersistenceError>,
    b: Result<(), PersistenceError>,
)
    requires
        call_ensures(super::schema::check_stored_manifest, (projection, manifest), a),
        call_ensures(super::schema::check_blob_columns, (columns,), b),
    ensures
        a is Ok <==> manifest@ is Object,
        a matches Err(e) ==> e@ == PersistenceErrorView::SchemaInvariant(
            "projection "@ + projection@ + " manifest must be a JSON object"@,
        ),
        b is Ok <==> !crate::text::strings(columns@).contains("file_path"@),
{
}

/// The thread of a message is found in the observation that the message stands for now, and nowhere
/// where it collided.
pub proof fn threads_are_found_in_their_message(
    outcome: &DurableAppendOutcome,
    r: Option<&ObservationId>,
    id: Seq<char>,
)
    requires
        call_ensures(super::slack::discovered_in, (outcome,), r),
    ensures
        outcome@ == DurableView::Appended(id) ==> r is Some && r->0@ == id,
        outcome@ == DurableView::Duplicate(id) ==> r is Some && r->0@ == id,
        outcome@ == DurableView::CanonicalCollision(id) ==> r is None,
{
}

/// Rounds of polling count on by one, as far as they can be counted.
pub proof fn rounds_of_polling_count_on(current: u64, r: Result<u64, PersistenceError>)
    requires
        call_ensures(super::slack::advance_slack_thread_poll_generation, (current,), r),
    ensures
        r is Ok <==> current < u64::MAX,
        r matches Ok(next) ==> next == current + 1,
        r matches Err(e) ==> e@ == PersistenceErrorView::SchemaInvariant(
            "Slack thread poll generation overflowed u64"@,
        ),
{
}

/// After a poll a thread keeps its name and where it was found; how far it was read, whether it is
/// active and the round to come back in are those of the poll. Only a thread of the catalog is
/// polled.
pub proof fn polled_threads_keep_their_name(
    existing: Option<SlackThreadCatalogEntry>,
    key: &SlackThreadKey,
    cursor: &str,
    active: bool,
    next: u64,
    r: Result<SlackThreadCatalogEntry, PersistenceError>,
)
    requires
        call_ensures(super::slack::polled_entry, (existing, key, cursor, active, next), r),
    ensures
        r is Ok <==> existing is Some,
        r matches Ok(entry) ==> {
            &&& entry@.key == existing->0@.key
            &&& entry@.discovered_append_seq == existing->0@.discovered_append_seq
            &&& entry@.reply_cursor == cursor@
            &&& entry@.active == active
            &&& entry@.next_poll_generation == next
        },
        r matches Err(e) ==> e@ == PersistenceErrorView::SchemaInvariant(
            "Slack thread catalog entry not found for "@ + key.source_instance@ + ":"@
                + key.channel_id@ + ":"@ + key.thread_ts@,
        ),
{
}

/// A unit with a gap up to its fence that is its own, or that nobody knows the unit of, is never
/// found ready.
pub proof fn units_with_gaps_are_not_ready(
    state: CutoverState,
    watermark: u64,
    gaps: &[BridgeGap],
    candidates: &[UnitCandidate],
    fixture: Option<&CutoverFixture>,
    fixture_candidates: &[BridgeCandidate],
    r: CutoverReadinessReport,
    i: int,
)
    requires
        call_ensures(
            super::cutover::cutover_readiness,
            (state, watermark, gaps, candidates, fixture, fixture_candidates),
            r,
        ),
        0 <= i < gaps@.len(),
        state.fence_append_seq is Some,
        gaps@[i].append_seq <= state.fence_append_seq->0,
        gaps@[i].source_instance_id is None || gaps@[i].source_instance_id->0@
            == state.source_instance_id@,
    ensures
        !r.ready,
{
    super::cutover_laws::ready_units_leave_nothing_behind(
        r,
        state,
        watermark,
        gaps@,
        candidates@,
        match fixture {
            Some(f) => Some(*f),
            None => None,
        },
        fixture matches Some(f) && crate::json::json_parse(f.canonical_json@) is Some,
        fixture_candidates@,
    );
}

/// The health of a unit tells how far the bridge is from the fence, how many gaps there are that are
/// the unit's or nobody's, wherever they lie, and what was counted.
pub proof fn health_counts_every_gap(
    state: CutoverState,
    watermark: u64,
    gaps: &[BridgeGap],
    candidates: &[UnitCandidate],
    metrics: Option<(u64, u64)>,
    r: CutoverHealth,
)
    requires
        call_ensures(
            super::cutover::cutover_health,
            (state, watermark, gaps, candidates, metrics),
            r,
        ),
    ensures
        r.state == state,
        r.bridge_watermark == watermark,
        state.fence_append_seq is None ==> r.bridge_lag == 0,
        state.fence_append_seq is Some && watermark <= state.fence_append_seq->0 ==> r.bridge_lag
            + watermark == state.fence_append_seq->0,
        state.fence_append_seq is Some && watermark > state.fence_append_seq->0 ==> r.bridge_lag
            == 0,
        r.candidate_count == candidates@.len(),
        r.gap_count == 0 <==> forall|i: int|
            0 <= i < gaps@.len() ==> (#[trigger] gaps@[i]).source_instance_id is Some
                && gaps@[i].source_instance_id->0@ != state.source_instance_id@,
        metrics is None ==> r.bridge_duplicate_hit_count == 0 && r.stale_v1_rejection_count == 0,
        metrics matches Some((hits, stale)) ==> r.bridge_duplicate_hit_count == hits
            && r.stale_v1_rejection_count == stale,
{
    super::cutover_laws::gaps_are_counted_once(gaps@, state.source_instance_id@, u64::MAX);
}

/// The credential of a unit is named by the unit, the version and the generation, in this order.
pub proof fn credentials_name_unit_version_and_generation(
    unit: &str,
    generation: u64,
    first: String,
    second: String,
)
    requires
        call_ensures(
            super::cutover::credential_ref,
            (unit, CutoverApiVersion::V1, generation),
            first,
        ),
        call_ensures(
            super::cutover::credential_ref,
            (unit, CutoverApiVersion::V2, generation),
            second,
        ),
    ensures
        first@ == "unit:"@ + unit@ + ":"@ + "v1"@ + ":"@ + crate::text::decimal(generation as nat),
        second@ == "unit:"@ + unit@ + ":"@ + "v2"@ + ":"@ + crate::text::decimal(generation as nat),
{
}

} // verus!
