//! Laws of what refusals of the durable lake say.

use vstd::prelude::*;
use vstd::string::*;

use crate::domain::Observation;
use crate::json::JsonView;
use crate::runtime::partition::PartitionErrorView;
use crate::runtime::tree::TreeView;

use super::cutover::{
    BlockerView, CutoverApiVersion, CutoverPhase, CutoverReadinessReport, CutoverState, PlanView,
    Progress, TransitionView,
};
use super::error::{PersistenceErrorView, StorageErrorView};
use super::generations::{GenerationsView, ProjectionsView};
use super::identity::{AppendStepView, DurableView, ExistingView};
use super::operational::{OperationalAppendRequest, OperationalEventFilter};
use super::projection::ProjectionItemCommit;
use super::schema::SchemaState;

verus! {

/// The word for a phase of a unit.
pub open spec fn phase_word(phase: CutoverPhase) -> Seq<char> {
    if phase == CutoverPhase::V1Active {
        "v1_active"@
    } else if phase == CutoverPhase::Draining {
        "draining"@
    } else if phase == CutoverPhase::V2Active {
        "v2_active"@
    } else {
        "v2_committed"@
    }
}

/// The word for a version.
pub open spec fn version_word(version: CutoverApiVersion) -> Seq<char> {
    if version == CutoverApiVersion::V1 {
        "v1"@
    } else {
        "v2"@
    }
}

/// A unit that cannot be drained, rolled back or activated is told where it stands, that nobody
/// answers for it, that generations have run out, or what stands in the way.
pub proof fn refused_transitions_are_told(
    state: CutoverState,
    tail: u64,
    authority: Seq<char>,
    reason: Seq<char>,
    report: CutoverReadinessReport,
)
    ensures
        ({
            let signed = !crate::text::blank(authority) && !crate::text::blank(reason);
            let unsigned = StorageErrorView::Invariant(
                "cutover transition authority and reason must not be blank"@,
            );
            let spent = StorageErrorView::CutoverConflict("cutover credential generation overflow"@);
            let drained = super::cutover::drain_decision(state, tail, authority, reason);
            let back = super::cutover::rollback_decision(state, authority, reason);
            let forward = super::cutover::activate_decision(report, authority, reason);
            let may = state.phase == CutoverPhase::Draining || state.phase
                == CutoverPhase::V2Active;
            let late = state.phase == CutoverPhase::V2Committed || state.v2_ingested > 0;
            &&& state.phase != CutoverPhase::V1Active ==> drained == Err::<
                PlanView,
                StorageErrorView,
            >(
                StorageErrorView::CutoverConflict(
                    "unit is in "@ + phase_word(state.phase)
                        + ", only v1_active may enter draining"@,
                ),
            )
            &&& state.phase == CutoverPhase::V1Active && !signed ==> drained == Err::<
                PlanView,
                StorageErrorView,
            >(unsigned)
            &&& late ==> back == Err::<PlanView, StorageErrorView>(
                StorageErrorView::CutoverRollbackRefused(
                    "rollback refused after first v2 ingested observation; forward-fix is required"@,
                ),
            )
            &&& !late && !may ==> back == Err::<PlanView, StorageErrorView>(
                StorageErrorView::CutoverConflict(
                    "rollback is not valid from "@ + phase_word(state.phase),
                ),
            )
            &&& !late && may && state.generation == u64::MAX ==> back == Err::<
                PlanView,
                StorageErrorView,
            >(spent)
            &&& !late && may && state.generation < u64::MAX && !signed ==> back == Err::<
                PlanView,
                StorageErrorView,
            >(unsigned)
            &&& !report.ready ==> forward == Err::<PlanView, StorageErrorView>(
                StorageErrorView::CutoverConflict(
                    "cutover activation blocked: "@ + crate::text::join(
                        super::cutover::reasons(report.blockers@),
                        "; "@,
                    ),
                ),
            )
            &&& report.ready && report.state.generation == u64::MAX ==> forward == Err::<
                PlanView,
                StorageErrorView,
            >(spent)
            &&& report.ready && report.state.generation < u64::MAX && !signed ==> forward == Err::<
                PlanView,
                StorageErrorView,
            >(unsigned)
            &&& !signed ==> super::cutover::register_decision(None, authority, reason) == Err::<
                Option<PlanView>,
                StorageErrorView,
            >(unsigned)
        }),
{
}

/// The reasons of blockers are told one for one, in their order.
pub proof fn reasons_are_told_in_order(
    report: CutoverReadinessReport,
    i: int,
)
    requires
        0 <= i < report.blockers@.len(),
    ensures
        super::cutover::reasons(report.blockers@).len() == report.blockers@.len(),
        super::cutover::reasons(report.blockers@)[i] == report.blockers@[i].reason@,
{
}

/// A list of one thing where it applies, and of nothing where it does not.
pub open spec fn one_if(applies: bool, append_seq: Option<u64>, reason: Seq<char>) -> Seq<
    BlockerView,
> {
    if applies {
        seq![BlockerView { append_seq, reason }]
    } else {
        Seq::empty()
    }
}

/// What stands in the way of an activation is told in one order: the bridge that has not come far
/// enough, gaps, collisions, a fixture that is missing or fails, and a unit that is not drained.
pub proof fn blockers_are_told_in_order(
    state: CutoverState,
    watermark: u64,
    gaps: nat,
    collisions: nat,
    fixture: Option<bool>,
)
    ensures
        ({
            let fence: u64 = if state.fence_append_seq is Some {
                state.fence_append_seq->0
            } else {
                0
            };
            super::cutover::blockers_of(state, watermark, gaps, collisions, fixture) == one_if(
                state.fence_append_seq is None || watermark < fence,
                state.fence_append_seq,
                "bridge watermark "@ + crate::text::decimal(watermark as nat)
                    + " is below fence append_seq "@ + crate::text::decimal(fence as nat),
            ) + one_if(
                gaps >= 1,
                Some(fence),
                crate::text::decimal(gaps) + " unresolved identity derivation gap(s)"@,
            ) + one_if(
                collisions >= 1,
                None,
                crate::text::decimal(collisions)
                    + " canonical exact-compare collision group(s)"@,
            ) + one_if(
                fixture is None || !fixture->0,
                None,
                if fixture is None {
                    "retry fixture is required"@
                } else {
                    "retry fixture identity or existing-id dry-run failed"@
                },
            ) + one_if(
                state.phase != CutoverPhase::Draining,
                state.fence_append_seq,
                "unit is in "@ + phase_word(state.phase) + ", expected draining"@,
            )
        }),
{
    let fence: u64 = if state.fence_append_seq is Some {
        state.fence_append_seq->0
    } else {
        0
    };
    let a = one_if(
        state.fence_append_seq is None || watermark < fence,
        state.fence_append_seq,
        "bridge watermark "@ + crate::text::decimal(watermark as nat)
            + " is below fence append_seq "@ + crate::text::decimal(fence as nat),
    );
    let b = one_if(
        gaps >= 1,
        Some(fence),
        crate::text::decimal(gaps) + " unresolved identity derivation gap(s)"@,
    );
    let c = one_if(
        collisions >= 1,
        None,
        crate::text::decimal(collisions) + " canonical exact-compare collision group(s)"@,
    );
    let d = one_if(
        fixture is None || !fixture->0,
        None,
        if fixture is None {
            "retry fixture is required"@
        } else {
            "retry fixture identity or existing-id dry-run failed"@
        },
    );
    let e = one_if(
        state.phase != CutoverPhase::Draining,
        state.fence_append_seq,
        "unit is in "@ + phase_word(state.phase) + ", expected draining"@,
    );
    assert(super::cutover::blockers_of(state, watermark, gaps, collisions, fixture) =~= a + b + c + d
        + e);
}

/// A request that is not admitted is told that its version is not, that its generation is another
/// one, or that its credential is not active, in this order.
pub proof fn denials_are_told(
    state: CutoverState,
    unit: Seq<char>,
    version: CutoverApiVersion,
    generation: Option<u64>,
    active: bool,
)
    ensures
        ({
            let told = super::cutover::denial(Some(state), unit, version, generation, active);
            let open = if version == CutoverApiVersion::V1 {
                state.phase == CutoverPhase::V1Active
            } else {
                state.phase == CutoverPhase::V2Active || state.phase == CutoverPhase::V2Committed
            };
            let word = version_word(version);
            let now = crate::text::decimal(state.generation as nat);
            let got = if generation is Some {
                "Some("@ + crate::text::decimal(generation->0 as nat) + ")"@
            } else {
                "None"@
            };
            &&& !open ==> told == Some(
                "unit "@ + unit + " is "@ + phase_word(state.phase) + ", not admitting "@ + word,
            )
            &&& open && generation != Some(state.generation) ==> told == Some(
                word + " credential generation is stale or missing for unit "@ + unit
                    + ": expected "@ + now + ", got "@ + got,
            )
            &&& open && generation == Some(state.generation) && !active ==> told == Some(
                word + " credential generation "@ + now + " is not active for unit "@ + unit,
            )
        }),
{
}

/// An entry that cannot stand where it is told names an unknown phase, is no opening, starts from
/// another phase, or leads where the phase does not lead.
pub proof fn broken_logs_are_told(
    unit: Seq<char>,
    at: Progress,
    row: TransitionView,
    to: CutoverPhase,
)
    requires
        super::cutover::phase_of(row.to_phase) == Ok::<CutoverPhase, PersistenceErrorView>(to),
    ensures
        super::cutover::step(unit, None, row) is Err ==> super::cutover::step(unit, None, row)
            == Err::<Progress, PersistenceErrorView>(
            PersistenceErrorView::SchemaInvariant(
                "invalid initial cutover transition for "@ + unit,
            ),
        ),
        super::cutover::step(unit, None, row) is Ok <==> row.from_phase == "uninitialized"@ && to
            == CutoverPhase::V1Active && row.generation == 1,
        row.from_phase != phase_word(at.phase) ==> super::cutover::step(unit, Some(at), row)
            == Err::<Progress, PersistenceErrorView>(
            PersistenceErrorView::SchemaInvariant(
                "cutover transition for "@ + unit + " starts from "@ + row.from_phase
                    + ", expected "@ + phase_word(at.phase),
            ),
        ),
        row.from_phase == phase_word(at.phase) && super::cutover::step(unit, Some(at), row) is Err
            ==> super::cutover::step(unit, Some(at), row) == Err::<Progress, PersistenceErrorView>(
            PersistenceErrorView::SchemaInvariant(
                "invalid cutover transition "@ + phase_word(at.phase) + " -> "@ + phase_word(to)
                    + " for "@ + unit,
            ),
        ),
        super::cutover::step(unit, None, row) matches Ok(p) ==> p.phase == to && p.generation
            == row.generation && p.fence == row.fence && p.first == row.first,
        super::cutover::step(unit, Some(at), row) matches Ok(p) ==> p.phase == to && p.generation
            == row.generation && (row.fence is Some ==> p.fence == row.fence) && (row.fence is None
            ==> p.fence == at.fence) && (row.first is Some ==> p.first == row.first) && (
        row.first is None ==> p.first == at.first),
{
}

/// Of what is wrong with a filter of events the first is told: no event is asked for, the range ends
/// before it starts, the cursor or the limit cannot be counted, or a text that is asked for is
/// blank.
pub proof fn refused_filters_are_told(filter: OperationalEventFilter, after: u64, limit: usize)
    ensures
        ({
            let told = super::operational::filter_fault(filter, after, limit);
            let inverted = filter.occurred_at_from is Some && filter.occurred_at_to is Some
                && crate::time::earlier(
                filter.occurred_at_to->0@,
                filter.occurred_at_from->0@,
            );
            let bounded = limit > 0 && !inverted && after <= i64::MAX;
            let c = filter.correlation_id is Some && crate::text::blank(filter.correlation_id->0@);
            let e = filter.event_type is Some && crate::text::blank(filter.event_type->0@);
            let s = filter.stream_id is Some && crate::text::blank(filter.stream_id->0@);
            let a = filter.actor_id is Some && crate::text::blank(filter.actor_id->0@);
            &&& limit == 0 ==> told == Some(
                StorageErrorView::Invariant("operational event page limit must be positive"@),
            )
            &&& limit > 0 && inverted ==> told == Some(
                StorageErrorView::Invariant("operational event occurred_at range is inverted"@),
            )
            &&& limit > 0 && !inverted && after > i64::MAX ==> told == Some(
                StorageErrorView::Invariant("after_cursor does not fit SQLite INTEGER"@),
            )
            &&& bounded && c ==> told == Some(
                StorageErrorView::Invariant(
                    "operational event "@ + "correlation_id"@ + " filter must not be blank"@,
                ),
            )
            &&& bounded && !c && e ==> told == Some(
                StorageErrorView::Invariant(
                    "operational event "@ + "event_type"@ + " filter must not be blank"@,
                ),
            )
            &&& bounded && !c && !e && s ==> told == Some(
                StorageErrorView::Invariant(
                    "operational event "@ + "stream_id"@ + " filter must not be blank"@,
                ),
            )
            &&& bounded && !c && !e && !s && a ==> told == Some(
                StorageErrorView::Invariant(
                    "operational event "@ + "actor_id"@ + " filter must not be blank"@,
                ),
            )
            &&& bounded && !c && !e && !s && !a && limit > i64::MAX ==> told == Some(
                StorageErrorView::Invariant("limit does not fit SQLite INTEGER"@),
            )
        }),
{
}

/// A request for another data space is told both of them, and one that does not follow is told both
/// versions.
pub proof fn refused_requests_are_told(
    request: OperationalAppendRequest,
    data_space_id: Seq<char>,
)
    ensures
        request.event.data_space_id@ != data_space_id ==> super::operational::request_fault(
            request,
            data_space_id,
        ) == Some(
            StorageErrorView::Invariant(
                "event data space "@ + request.event.data_space_id@
                    + " does not match sqlite Lake "@ + data_space_id,
            ),
        ),
        request.event.data_space_id@ == data_space_id && request.event.stream_version
            != request.expected_stream_version + 1 ==> super::operational::request_fault(
            request,
            data_space_id,
        ) == Some(
            StorageErrorView::Invariant(
                "event "@ + request.event.event_id@ + " stream_version "@ + crate::text::decimal(
                    request.event.stream_version as nat,
                ) + " does not follow expected "@ + crate::text::decimal(
                    request.expected_stream_version as nat,
                ),
            ),
        ),
{
}

/// Of what is wrong with a publication the first is told: a blank name, the same projection twice,
/// nothing staged, another number of items than expected, or a manifest that is no object.
pub proof fn refused_publications_are_told(
    p: ProjectionsView,
    g: GenerationsView,
    target: Seq<char>,
    staging: Seq<char>,
    manifest: JsonView,
    staged: u64,
    expected: u64,
)
    requires
        p.generations == g,
    ensures
        ({
            let told = super::generations::publication_fault(
                p,
                target,
                staging,
                manifest,
                staged,
                expected,
            );
            let named = !crate::text::blank(target) && !crate::text::blank(staging);
            let there = super::generations::live(g, staging) is Some;
            &&& !named ==> told == Some(
                PersistenceErrorView::SchemaInvariant(
                    "projection item projection_id must not be blank"@,
                ),
            )
            &&& named && target == staging ==> told == Some(
                PersistenceErrorView::SchemaInvariant(
                    "projection item staging projection must differ from target projection"@,
                ),
            )
            &&& named && target != staging && !there ==> told == Some(
                PersistenceErrorView::SchemaInvariant(
                    "projection item staging projection "@ + staging + " does not exist"@,
                ),
            )
            &&& named && target != staging && there && staged != expected ==> told == Some(
                PersistenceErrorView::SchemaInvariant(
                    "projection item staging projection "@ + staging + " contains "@
                        + crate::text::decimal(staged as nat) + " items, expected "@
                        + crate::text::decimal(expected as nat),
                ),
            )
            &&& named && target != staging && there && staged == expected ==> told == if
            manifest is Object {
                None
            } else {
                Some(
                    PersistenceErrorView::SchemaInvariant(
                        "projection manifest must be a JSON object"@,
                    ),
                )
            }
        }),
{
}

/// A faulty commit is told that a key is blank, or else that a key is named twice.
pub proof fn faulty_commits_are_told_in_words(commit: ProjectionItemCommit)
    ensures
        !super::projection::complete_commit(commit) ==> super::projection::commit_fault(commit)
            == Some(StorageErrorView::Invariant("projection item keys must not be blank"@)),
        super::projection::complete_commit(commit) && !super::projection::all_different(
            super::projection::commit_keys(commit),
        ) ==> super::projection::commit_fault(commit) == Some(
            StorageErrorView::Invariant("projection item commit names an item_key twice"@),
        ),
{
}

/// Of what is wrong with a page that is asked for the first is told.
pub proof fn refused_pages_are_told(
    projection: Seq<char>,
    owners: Seq<Seq<char>>,
    after: Option<Seq<char>>,
    limit: usize,
)
    ensures
        ({
            let told = super::projection::page_fault(projection, owners, after, limit);
            let named = !crate::text::blank(projection);
            let asked = owners.len() > 0 && limit > 0;
            let owned = forall|i: int|
                0 <= i < owners.len() ==> !crate::text::blank(#[trigger] owners[i]);
            let cut = after is Some && super::projection::page_start(after->0) is Err;
            &&& !named ==> told == Some(
                PersistenceErrorView::SchemaInvariant(
                    "projection item projection_id must not be blank"@,
                ),
            )
            &&& named && !asked ==> told == Some(
                PersistenceErrorView::SchemaInvariant(
                    "projection item page requires owners and a positive limit"@,
                ),
            )
            &&& named && asked && !owned ==> told == Some(
                PersistenceErrorView::SchemaInvariant(
                    "projection item owner_key must not be blank"@,
                ),
            )
            &&& named && asked && owned && cut ==> told == Some(
                PersistenceErrorView::SchemaInvariant(
                    "projection item cursor boundary is invalid"@,
                ),
            )
            &&& named && asked && owned && !cut && limit > i64::MAX ==> told == Some(
                PersistenceErrorView::SchemaInvariant("projection item limit overflow"@),
            )
        }),
{
}

/// Of what an observation lacks to tell its identity the first is told.
pub proof fn missing_identities_are_told(observation: Observation, content: Option<JsonView>)
    ensures
        ({
            let told = super::identity::identity_inputs(observation, content);
            let canonical = crate::json::member(observation.meta@, "canonical_json"@);
            let given = canonical matches Some(JsonView::Str(t)) && !crate::text::blank(t);
            let unit = super::identity::observed_unit(observation);
            &&& !(observation.meta@ is Object) ==> told == Err::<
                (Seq<char>, Seq<char>, Seq<char>),
                Seq<char>,
            >("meta is not an object"@)
            &&& observation.meta@ is Object && !given ==> told == Err::<
                (Seq<char>, Seq<char>, Seq<char>),
                Seq<char>,
            >("meta.canonical_json is missing or blank"@)
            &&& observation.meta@ is Object && given && content is None ==> told == Err::<
                (Seq<char>, Seq<char>, Seq<char>),
                Seq<char>,
            >("meta.canonical_json is not valid JSON"@)
            &&& observation.meta@ is Object && given && content is Some && unit is None ==> told
                == Err::<(Seq<char>, Seq<char>, Seq<char>), Seq<char>>(
                "meta.source_instance is missing or blank"@,
            )
            &&& observation.meta@ is Object && given && content is Some && unit is Some
                && super::identity::observed_object(observation, content->0) is None ==> told
                == Err::<(Seq<char>, Seq<char>, Seq<char>), Seq<char>>(
                "meta.object_id is missing or blank"@,
            )
            &&& observation.meta@ is Object && given && content is Some && unit is Some
                && super::identity::observed_object(observation, content->0) is Some ==> told
                == Ok::<(Seq<char>, Seq<char>, Seq<char>), Seq<char>>(
                (
                    unit->0,
                    super::identity::observed_object(observation, content->0)->0,
                    canonical->0->Str_0,
                ),
            )
        }),
{
}

/// An observation of the second version that is refused is told why its identity cannot be told, that
/// it belongs to another unit, or that its key is not that of its content.
pub proof fn refused_second_versions_are_told(
    observation: Observation,
    unit: Seq<char>,
    content: Option<JsonView>,
)
    ensures
        ({
            let told = super::identity::v2_key(observation, unit, content);
            let inputs = super::identity::identity_inputs(observation, content);
            &&& inputs matches Err(reason) ==> told == Err::<
                (Seq<char>, Seq<char>),
                PersistenceErrorView,
            >(
                PersistenceErrorView::SchemaInvariant(
                    "v2 bridge input for "@ + observation.id@ + " is invalid: "@ + reason,
                ),
            )
            &&& inputs matches Ok((own, object, canonical)) ==> {
                &&& own != unit ==> told == Err::<(Seq<char>, Seq<char>), PersistenceErrorView>(
                    PersistenceErrorView::SchemaInvariant(
                        "v2 observation "@ + observation.id@ + " belongs to source_instance_id "@
                            + own + ", expected "@ + unit,
                    ),
                )
                &&& own == unit && observation.idempotency_key@ != super::identity::bridge_key(
                    own,
                    object,
                    canonical,
                ) ==> told == Err::<(Seq<char>, Seq<char>), PersistenceErrorView>(
                    PersistenceErrorView::SchemaInvariant(
                        "v2 observation "@ + observation.id@
                            + " identity does not match bridge formula"@,
                    ),
                )
            }
        }),
{
}

/// An append that cannot be carried out is told why the observation cannot be routed, or that its
/// canonical content is missing, or that the stored one is.
pub proof fn refused_appends_are_told(
    tree: TreeView,
    observation: Observation,
    existing: ExistingView,
    canonical: Seq<char>,
    cause: PartitionErrorView,
)
    ensures
        super::identity::routing_of(observation) == Err::<Seq<Seq<char>>, PartitionErrorView>(cause)
            && crate::runtime::partition::partition_message(cause) is Some
            ==> super::identity::append_decision(tree, observation, Some(existing)) == Err::<
            AppendStepView,
            PersistenceErrorView,
        >(
            PersistenceErrorView::SchemaInvariant(
                crate::runtime::partition::partition_message(cause)->0,
            ),
        ),
        super::identity::routing_of(observation) is Ok && crate::lake::store::canonical_text(
            observation,
        ) is None ==> super::identity::append_decision(tree, observation, Some(existing)) == Err::<
            AppendStepView,
            PersistenceErrorView,
        >(
            PersistenceErrorView::SchemaInvariant(
                "observation.meta.canonical_json is required for durable ingest"@,
            ),
        ),
        existing.canonical_json_sha256 == crate::digest::text_digest(canonical)
            && existing.canonical_json is None ==> super::identity::known_outcome(
            existing,
            canonical,
        ) == Err::<DurableView, PersistenceErrorView>(
            PersistenceErrorView::SchemaInvariant(
                "stored observation.meta.canonical_json is required for duplicate detection"@,
            ),
        ),
{
}

/// A recorded migration that is at fault is told: its name beside the one that is expected, the first
/// object that is missing, or the first column.
pub proof fn faulty_migrations_are_told(state: SchemaState, i: int, name: Seq<char>)
    requires
        super::schema::recorded_name(state.migrations@, 9 + i) == Some(name),
    ensures
        ({
            let told = super::schema::migration_fault(state, i);
            let expected = super::schema::migration_name(i);
            let object = super::schema::first_missing(
                super::schema::migration_objects(i),
                state.objects@,
            );
            let column = super::schema::first_missing(
                super::schema::migration_columns(i),
                state.columns@,
            );
            &&& name != expected ==> told == Some(
                PersistenceErrorView::SchemaInvariant(
                    "schema migration v"@ + crate::text::decimal((9 + i) as nat) + " is named "@
                        + super::error::quoted(name) + ", expected "@ + super::error::quoted(
                        expected,
                    ),
                ),
            )
            &&& name == expected ==> (object matches Some((kind, what)) ==> told == Some(
                PersistenceErrorView::SchemaInvariant(
                    "schema migration object is missing: "@ + kind + " "@ + what,
                ),
            ))
            &&& name == expected && object is None ==> (column matches Some((table, what)) ==> told
                == Some(
                PersistenceErrorView::SchemaInvariant(table + " column is missing: "@ + what),
            ))
            &&& name == expected && object is None && column is None ==> told is None
        }),
{
}

proof fn nothing_out_of_order(migrations: Seq<(i64, String)>, n: int)
    requires
        forall|k: int|
            1 <= k < n && super::schema::is_recorded(migrations, #[trigger] (9 + k))
                ==> super::schema::is_recorded(migrations, 9 + k - 1),
    ensures
        super::schema::order_fault(migrations, n) is None,
    decreases n,
{
    if n > 1 {
        nothing_out_of_order(migrations, n - 1);
        let k = n - 1;
        assert(super::schema::is_recorded(migrations, 9 + k) ==> super::schema::is_recorded(
            migrations,
            9 + k - 1,
        ));
    }
}

/// The first migration that is recorded while the one before it is not is told, with both versions.
pub proof fn migrations_out_of_order_are_told(migrations: Seq<(i64, String)>, n: int, k: int)
    requires
        1 <= k < n,
        super::schema::is_recorded(migrations, 9 + k),
        !super::schema::is_recorded(migrations, 9 + k - 1),
        forall|j: int|
            1 <= j < k && super::schema::is_recorded(migrations, #[trigger] (9 + j))
                ==> super::schema::is_recorded(migrations, 9 + j - 1),
    ensures
        super::schema::order_fault(migrations, n) == Some(
            PersistenceErrorView::SchemaInvariant(
                "schema migration v"@ + crate::text::decimal((9 + k) as nat)
                    + " is recorded without prerequisite v"@ + crate::text::decimal(
                    (9 + k - 1) as nat,
                ),
            ),
        ),
    decreases n,
{
    if k == n - 1 {
        nothing_out_of_order(migrations, k);
    } else {
        migrations_out_of_order_are_told(migrations, n - 1, k);
    }
}

} // verus!
