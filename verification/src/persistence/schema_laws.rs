//! What the migrations of a lake keep to.

use vstd::prelude::*;
use vstd::string::*;

use super::schema::{ColumnStep, SchemaState};

verus! {

/// A version is recorded just where the ledger has an entry of it; the first one gives the name.
pub proof fn ledgers_name_their_versions(migrations: Seq<(i64, String)>, version: int, i: int)
    ensures
        super::schema::is_recorded(migrations, version) <==> exists|j: int|
            0 <= j < migrations.len() && (#[trigger] migrations[j]).0 == version,
        0 <= i < migrations.len() && migrations[i].0 == version && (forall|j: int|
            0 <= j < i ==> (#[trigger] migrations[j]).0 != version)
            ==> super::schema::recorded_name(migrations, version) == Some(migrations[i].1@),
    decreases migrations.len(),
{
    if migrations.len() > 0 {
        let init = migrations.drop_last();
        let last = migrations.len() - 1;
        ledgers_name_their_versions(init, version, i);
        assert(migrations.last() == migrations[last]);
        if exists|j: int| 0 <= j < init.len() && (#[trigger] init[j]).0 == version {
            let j = choose|j: int| 0 <= j < init.len() && (#[trigger] init[j]).0 == version;
            assert(migrations[j] == init[j]);
        }
        if exists|j: int| 0 <= j < migrations.len() && (#[trigger] migrations[j]).0 == version {
            let j = choose|j: int|
                0 <= j < migrations.len() && (#[trigger] migrations[j]).0 == version;
            if j < last {
                assert(init[j] == migrations[j]);
            }
        }
        if 0 <= i < migrations.len() && migrations[i].0 == version && (forall|j: int|
            0 <= j < i ==> (#[trigger] migrations[j]).0 != version) {
            if i < last {
                assert(init[i] == migrations[i]);
                assert forall|j: int| 0 <= j < i implies (#[trigger] init[j]).0 != version by {
                    assert(init[j] == migrations[j]);
                }
            } else if super::schema::recorded_name(init, version) is Some {
                let j = choose|j: int| 0 <= j < init.len() && (#[trigger] init[j]).0 == version;
                assert(migrations[j] == init[j]);
            }
        }
    }
}

proof fn nothing_missing(
    required: Seq<(Seq<char>, Seq<char>)>,
    list: Seq<(String, String)>,
)
    ensures
        super::schema::first_missing(required, list) is None <==> forall|i: int|
            0 <= i < required.len() ==> super::schema::holds(list, #[trigger] required[i]),
    decreases required.len(),
{
    if required.len() > 0 {
        let init = required.drop_last();
        let last = required.len() - 1;
        nothing_missing(init, list);
        assert(required.last() == required[last]);
        assert forall|i: int| 0 <= i < last implies init[i] == #[trigger] required[i] by {}
        if super::schema::first_missing(init, list) is None {
            assert forall|i: int| 0 <= i < last implies super::schema::holds(
                list,
                #[trigger] required[i],
            ) by {
                assert(super::schema::holds(list, init[i]));
            }
        } else {
            let i = choose|i: int|
                0 <= i < init.len() && !super::schema::holds(list, #[trigger] init[i]);
            assert(!super::schema::holds(list, required[i]));
        }
    }
}

proof fn no_migration_faulty(state: SchemaState, n: int)
    requires
        0 <= n,
    ensures
        super::schema::first_migration_fault(state, n) is None <==> forall|i: int|
            0 <= i < n ==> #[trigger] super::schema::migration_fault(state, i) is None,
    decreases n,
{
    if n > 0 {
        no_migration_faulty(state, n - 1);
    }
}

proof fn orders_are_kept(migrations: Seq<(i64, String)>, n: int)
    requires
        0 <= n,
    ensures
        super::schema::order_fault(migrations, n) is None <==> forall|v: int|
            9 < v < 9 + n && super::schema::is_recorded(migrations, v)
                ==> #[trigger] super::schema::is_recorded(migrations, v - 1),
    decreases n,
{
    if n > 1 {
        orders_are_kept(migrations, n - 1);
        let v: int = 9 + n - 1;
        if super::schema::order_fault(migrations, n) is None {
            assert forall|w: int|
                9 < w < 9 + n && super::schema::is_recorded(migrations, w) implies
                #[trigger] super::schema::is_recorded(migrations, w - 1) by {
                if w < v {
                    assert(super::schema::is_recorded(migrations, w - 1));
                }
            }
        } else if forall|w: int|
            9 < w < 9 + n && super::schema::is_recorded(migrations, w)
                ==> #[trigger] super::schema::is_recorded(migrations, w - 1) {
            assert(super::schema::is_recorded(migrations, v) ==> super::schema::is_recorded(
                migrations,
                v - 1,
            ));
        }
    }
}

proof fn pending_versions(migrations: Seq<(i64, String)>, n: int, version: i64)
    requires
        0 <= n <= 7,
    ensures
        super::schema::pending(migrations, n).contains(version) <==> 9 <= version < 9 + n
            && !super::schema::is_recorded(migrations, version as int),
        forall|i: int, j: int|
            0 <= i < j < super::schema::pending(migrations, n).len()
                ==> #[trigger] super::schema::pending(migrations, n)[i]
                < #[trigger] super::schema::pending(migrations, n)[j],
        forall|i: int|
            0 <= i < super::schema::pending(migrations, n).len() ==> 9
                <= #[trigger] super::schema::pending(migrations, n)[i] < 9 + n,
    decreases n,
{
    let list = super::schema::pending(migrations, n);
    if n > 0 {
        pending_versions(migrations, n - 1, version);
        let before = super::schema::pending(migrations, n - 1);
        let v = (9 + n - 1) as i64;
        if !super::schema::is_recorded(migrations, 9 + n - 1) {
            assert(list == before.push(v));
            assert(list[list.len() - 1] == v);
            if before.contains(version) {
                let i = choose|i: int| 0 <= i < before.len() && before[i] == version;
                assert(list[i] == version);
            }
            if list.contains(version) && version != v {
                let i = choose|i: int| 0 <= i < list.len() && list[i] == version;
                assert(before[i] == version);
            }
        }
    }
}

/// A lake needs the migrations that are not recorded, from the ninth version to the fifteenth, each
/// once and in ascending order.
pub proof fn lakes_need_what_is_not_recorded(state: SchemaState, version: i64)
    ensures
        super::schema::migration_plan(state) matches Ok(versions) ==> {
            &&& versions.contains(version) <==> 9 <= version <= 15 && forall|i: int|
                0 <= i < state.migrations@.len() ==> (#[trigger] state.migrations@[i]).0 != version
            &&& forall|i: int, j: int|
                0 <= i < j < versions.len() ==> #[trigger] versions[i] < #[trigger] versions[j]
        },
{
    pending_versions(state.migrations@, 7, version);
    ledgers_name_their_versions(state.migrations@, version as int, 0);
}

/// The ledger of a lake is accepted just where every recorded migration but the first follows one
/// that is recorded, has its own name, and all its objects and columns are there.
pub proof fn ledgers_are_accepted_for_a_reason(state: SchemaState)
    ensures
        super::schema::migration_plan(state) is Ok <==> {
            &&& forall|v: int|
                9 < v <= 15 && super::schema::is_recorded(state.migrations@, v)
                    ==> #[trigger] super::schema::is_recorded(state.migrations@, v - 1)
            &&& forall|i: int|
                0 <= i < 7 ==> #[trigger] super::schema::migration_fault(state, i) is None
        },
        forall|i: int|
            0 <= i < 7 ==> (#[trigger] super::schema::migration_fault(state, i) is None <==> (
            super::schema::recorded_name(state.migrations@, 9 + i) matches Some(name) ==> {
                &&& name == super::schema::migration_name(i)
                &&& forall|k: int|
                    0 <= k < super::schema::migration_objects(i).len() ==> super::schema::holds(
                        state.objects@,
                        #[trigger] super::schema::migration_objects(i)[k],
                    )
                &&& forall|k: int|
                    0 <= k < super::schema::migration_columns(i).len() ==> super::schema::holds(
                        state.columns@,
                        #[trigger] super::schema::migration_columns(i)[k],
                    )
            })),
{
    orders_are_kept(state.migrations@, 7);
    no_migration_faulty(state, 7);
    assert forall|i: int| 0 <= i < 7 implies (
    #[trigger] super::schema::migration_fault(state, i) is None <==> (super::schema::recorded_name(
        state.migrations@,
        9 + i,
    ) matches Some(name) ==> {
        &&& name == super::schema::migration_name(i)
        &&& forall|k: int|
            0 <= k < super::schema::migration_objects(i).len() ==> super::schema::holds(
                state.objects@,
                #[trigger] super::schema::migration_objects(i)[k],
            )
        &&& forall|k: int|
            0 <= k < super::schema::migration_columns(i).len() ==> super::schema::holds(
                state.columns@,
                #[trigger] super::schema::migration_columns(i)[k],
            )
    })) by {
        nothing_missing(super::schema::migration_objects(i), state.objects@);
        nothing_missing(super::schema::migration_columns(i), state.columns@);
    }
}

/// A lake that records the migration `observation_identity_lookup_index` has what it makes.
pub proof fn lakes_record_the_lookup_of_identities(state: SchemaState)
    requires
        super::schema::migration_plan(state) is Ok,
        super::schema::is_recorded(state.migrations@, 9),
    ensures
        super::schema::recorded_name(state.migrations@, 9) == Some("observation_identity_lookup_index"@),
        super::schema::holds(state.objects@, ("index"@, "observations_identity_append"@)),
{
    ledgers_are_accepted_for_a_reason(state);
    assert(super::schema::migration_fault(state, 0) is None);
    let objects = super::schema::migration_objects(0);
    assert(objects[0] == ("index"@, "observations_identity_append"@));
}

/// A lake that records the migration `append_commit_lock_split_scalars` has what it makes.
pub proof fn lakes_record_scalars(state: SchemaState)
    requires
        super::schema::migration_plan(state) is Ok,
        super::schema::is_recorded(state.migrations@, 10),
    ensures
        super::schema::recorded_name(state.migrations@, 10) == Some("append_commit_lock_split_scalars"@),
        super::schema::holds(state.objects@, ("table"@, "observation_stats"@)),
        super::schema::holds(state.objects@, ("table"@, "projection_manifest_fields"@)),
        super::schema::holds(state.objects@, ("index"@, "audit_events_timestamp_id"@)),
        super::schema::holds(state.objects@, ("table"@, "operational_event_stats"@)),
{
    ledgers_are_accepted_for_a_reason(state);
    assert(super::schema::migration_fault(state, 1) is None);
    let objects = super::schema::migration_objects(1);
    assert(objects[0] == ("table"@, "observation_stats"@));
    assert(objects[1] == ("table"@, "projection_manifest_fields"@));
    assert(objects[2] == ("index"@, "audit_events_timestamp_id"@));
    assert(objects[3] == ("table"@, "operational_event_stats"@));
}

/// A lake that records the migration `indexed_keyset_reads` has what it makes.
pub proof fn lakes_record_reads_by_key(state: SchemaState)
    requires
        super::schema::migration_plan(state) is Ok,
        super::schema::is_recorded(state.migrations@, 11),
    ensures
        super::schema::recorded_name(state.migrations@, 11) == Some("indexed_keyset_reads"@),
        super::schema::holds(state.objects@, ("index"@, "operational_events_correlation_cursor"@)),
        super::schema::holds(state.objects@, ("index"@, "operational_events_stream_cursor"@)),
        super::schema::holds(state.objects@, ("index"@, "operational_events_causation_cursor"@)),
        super::schema::holds(state.objects@, ("index"@, "operational_events_type_cursor"@)),
        super::schema::holds(state.objects@, ("index"@, "operational_events_actor_cursor"@)),
        super::schema::holds(state.objects@, ("index"@, "operational_events_occurred_cursor"@)),
        super::schema::holds(state.objects@, ("index"@, "operational_events_stream_occurred_cursor"@)),
        super::schema::holds(state.objects@, ("table"@, "projection_visible_blob_refs"@)),
        super::schema::holds(state.objects@, ("index"@, "projection_visible_blob_refs_lookup"@)),
        super::schema::holds(state.columns@, ("operational_events"@, "actor_id"@)),
        super::schema::holds(state.columns@, ("operational_events"@, "causation_id"@)),
        super::schema::holds(state.columns@, ("operational_events"@, "correlation_id"@)),
        super::schema::holds(state.columns@, ("sync_metrics"@, "last_error"@)),
{
    ledgers_are_accepted_for_a_reason(state);
    assert(super::schema::migration_fault(state, 2) is None);
    let objects = super::schema::migration_objects(2);
    assert(objects[0] == ("index"@, "operational_events_correlation_cursor"@));
    assert(objects[1] == ("index"@, "operational_events_stream_cursor"@));
    assert(objects[2] == ("index"@, "operational_events_causation_cursor"@));
    assert(objects[3] == ("index"@, "operational_events_type_cursor"@));
    assert(objects[4] == ("index"@, "operational_events_actor_cursor"@));
    assert(objects[5] == ("index"@, "operational_events_occurred_cursor"@));
    assert(objects[6] == ("index"@, "operational_events_stream_occurred_cursor"@));
    assert(objects[7] == ("table"@, "projection_visible_blob_refs"@));
    assert(objects[8] == ("index"@, "projection_visible_blob_refs_lookup"@));
    let columns = super::schema::migration_columns(2);
    assert(columns[0] == ("operational_events"@, "actor_id"@));
    assert(columns[1] == ("operational_events"@, "causation_id"@));
    assert(columns[2] == ("operational_events"@, "correlation_id"@));
    assert(columns[3] == ("sync_metrics"@, "last_error"@));
}

/// A lake that records the migration `privacy_projection_visibility` has what it makes.
pub proof fn lakes_record_visibility(state: SchemaState)
    requires
        super::schema::migration_plan(state) is Ok,
        super::schema::is_recorded(state.migrations@, 12),
    ensures
        super::schema::recorded_name(state.migrations@, 12) == Some("privacy_projection_visibility"@),
        super::schema::holds(state.objects@, ("index"@, "projection_visible_blob_refs_subject_lookup"@)),
        super::schema::holds(state.columns@, ("projection_visible_blob_refs"@, "subject_key"@)),
{
    ledgers_are_accepted_for_a_reason(state);
    assert(super::schema::migration_fault(state, 3) is None);
    let objects = super::schema::migration_objects(3);
    assert(objects[0] == ("index"@, "projection_visible_blob_refs_subject_lookup"@));
    let columns = super::schema::migration_columns(3);
    assert(columns[0] == ("projection_visible_blob_refs"@, "subject_key"@));
}

/// A lake that records the migration `reconsent_privacy_reverse_index` has what it makes.
pub proof fn lakes_record_privacy_keys(state: SchemaState)
    requires
        super::schema::migration_plan(state) is Ok,
        super::schema::is_recorded(state.migrations@, 13),
    ensures
        super::schema::recorded_name(state.migrations@, 13) == Some("reconsent_privacy_reverse_index"@),
        super::schema::holds(state.objects@, ("table"@, "observation_privacy_keys"@)),
        super::schema::holds(state.objects@, ("index"@, "observation_privacy_keys_append"@)),
{
    ledgers_are_accepted_for_a_reason(state);
    assert(super::schema::migration_fault(state, 4) is None);
    let objects = super::schema::migration_objects(4);
    assert(objects[0] == ("table"@, "observation_privacy_keys"@));
    assert(objects[1] == ("index"@, "observation_privacy_keys_append"@));
}

/// A lake that records the migration `v1_v2_cutover_bridge` has what it makes.
pub proof fn lakes_record_the_cutover(state: SchemaState)
    requires
        super::schema::migration_plan(state) is Ok,
        super::schema::is_recorded(state.migrations@, 14),
    ensures
        super::schema::recorded_name(state.migrations@, 14) == Some("v1_v2_cutover_bridge"@),
        super::schema::holds(state.objects@, ("table"@, "identity_bridge_candidates"@)),
        super::schema::holds(state.objects@, ("table"@, "identity_bridge_gaps"@)),
        super::schema::holds(state.objects@, ("table"@, "identity_bridge_watermark"@)),
        super::schema::holds(state.objects@, ("table"@, "cutover_transition_log"@)),
        super::schema::holds(state.objects@, ("table"@, "cutover_credentials"@)),
        super::schema::holds(state.objects@, ("table"@, "cutover_unit_metrics"@)),
        super::schema::holds(state.objects@, ("index"@, "identity_bridge_candidates_key_append"@)),
        super::schema::holds(state.objects@, ("index"@, "identity_bridge_candidates_source_append"@)),
        super::schema::holds(state.objects@, ("index"@, "identity_bridge_gaps_source_append"@)),
        super::schema::holds(state.objects@, ("index"@, "cutover_transition_unit_seq"@)),
        super::schema::holds(state.objects@, ("index"@, "cutover_credentials_active"@)),
        super::schema::holds(state.objects@, ("trigger"@, "cutover_transition_log_no_update"@)),
        super::schema::holds(state.objects@, ("trigger"@, "cutover_transition_log_no_delete"@)),
{
    ledgers_are_accepted_for_a_reason(state);
    assert(super::schema::migration_fault(state, 5) is None);
    let objects = super::schema::migration_objects(5);
    assert(objects[0] == ("table"@, "identity_bridge_candidates"@));
    assert(objects[1] == ("table"@, "identity_bridge_gaps"@));
    assert(objects[2] == ("table"@, "identity_bridge_watermark"@));
    assert(objects[3] == ("table"@, "cutover_transition_log"@));
    assert(objects[4] == ("table"@, "cutover_credentials"@));
    assert(objects[5] == ("table"@, "cutover_unit_metrics"@));
    assert(objects[6] == ("index"@, "identity_bridge_candidates_key_append"@));
    assert(objects[7] == ("index"@, "identity_bridge_candidates_source_append"@));
    assert(objects[8] == ("index"@, "identity_bridge_gaps_source_append"@));
    assert(objects[9] == ("index"@, "cutover_transition_unit_seq"@));
    assert(objects[10] == ("index"@, "cutover_credentials_active"@));
    assert(objects[11] == ("trigger"@, "cutover_transition_log_no_update"@));
    assert(objects[12] == ("trigger"@, "cutover_transition_log_no_delete"@));
}

/// A lake that records the migration `atomic_projection_generation_head` has what it makes.
pub proof fn lakes_record_heads(state: SchemaState)
    requires
        super::schema::migration_plan(state) is Ok,
        super::schema::is_recorded(state.migrations@, 15),
    ensures
        super::schema::recorded_name(state.migrations@, 15) == Some("atomic_projection_generation_head"@),
        super::schema::holds(state.objects@, ("table"@, "projection_materialization_heads"@)),
        super::schema::holds(state.objects@, ("table"@, "retired_projection_materializations"@)),
{
    ledgers_are_accepted_for_a_reason(state);
    assert(super::schema::migration_fault(state, 6) is None);
    let objects = super::schema::migration_objects(6);
    assert(objects[0] == ("table"@, "projection_materialization_heads"@));
    assert(objects[1] == ("table"@, "retired_projection_materializations"@));
}

proof fn lacking_columns(list: Seq<Seq<char>>, columns: Set<Seq<char>>, name: Seq<char>)
    ensures
        super::schema::lacking(list, columns).contains(name) <==> list.contains(name)
            && !columns.contains(name),
        super::schema::lacking(list, columns).len() == 0 <==> forall|i: int|
            0 <= i < list.len() ==> columns.contains(#[trigger] list[i]),
    decreases list.len(),
{
    if list.len() > 0 {
        let init = list.drop_last();
        let last = list.len() - 1;
        lacking_columns(init, columns, name);
        let before = super::schema::lacking(init, columns);
        let after = super::schema::lacking(list, columns);
        assert(list.last() == list[last]);
        assert(list.contains(name) <==> init.contains(name) || name == list[last]) by {
            if init.contains(name) {
                let i = choose|i: int| 0 <= i < init.len() && init[i] == name;
                assert(list[i] == name);
            }
            if list.contains(name) {
                let i = choose|i: int| 0 <= i < list.len() && list[i] == name;
                if i < last {
                    assert(init[i] == name);
                }
            }
        }
        if !columns.contains(list[last]) {
            assert(after == before.push(list[last]));
            if before.contains(name) {
                let i = choose|i: int| 0 <= i < before.len() && before[i] == name;
                assert(after[i] == name);
            }
            if name == list[last] {
                assert(after[after.len() - 1] == name);
            }
            if after.contains(name) && name != list[last] {
                let i = choose|i: int| 0 <= i < after.len() && after[i] == name;
                assert(before[i] == name);
            }
        } else {
            assert forall|i: int| 0 <= i < last implies init[i] == #[trigger] list[i] by {}
            if super::schema::lacking(init, columns).len() == 0 {
                assert forall|i: int| 0 <= i < list.len() implies columns.contains(
                    #[trigger] list[i],
                ) by {
                    if i < last {
                        assert(columns.contains(init[i]));
                    }
                }
            } else {
                let i = choose|i: int| 0 <= i < init.len() && !columns.contains(#[trigger] init[i]);
                assert(!columns.contains(list[i]));
            }
        }
    }
}

/// What an older table of observations needs: each column that it lacks is added, places are filled in
/// where one of their columns was added, digests where the content is still in a column and they may
/// be missing, and a table with that column is rebuilt. A table with neither content nor digests is
/// refused, and so is one that is not rebuilt and lacks a column that nothing adds.
pub proof fn older_tables_get_what_they_lack(columns: Set<Seq<char>>, current: bool)
    ensures
        ({
            let (steps, refusal) = super::schema::column_plan(columns, current);
            let leaf = columns.contains("leaf_id"@);
            let routing = columns.contains("routing_key"@);
            let legacy = columns.contains("canonical_json"@);
            let digest = columns.contains("canonical_json_sha256"@);
            &&& steps.contains(ColumnStep::AddLeafId) <==> !leaf
            &&& steps.contains(ColumnStep::AddRoutingKey) <==> !routing
            &&& steps.contains(ColumnStep::BackfillRouting) <==> !leaf || !routing
            &&& steps.contains(ColumnStep::AddDigest) <==> !digest && legacy
            &&& steps.contains(ColumnStep::BackfillDigest) <==> legacy && (!current || !digest)
            &&& steps.contains(ColumnStep::Rebuild) <==> legacy
            &&& !digest && !legacy ==> refusal is Some
            &&& legacy ==> refusal is None
            &&& digest && !legacy ==> (refusal is None <==> columns.contains("append_seq"@)
                && columns.contains("id"@) && columns.contains("identity_key"@)
                && columns.contains("recorded_at"@) && columns.contains("observation_json"@))
        }),
{
    let a = super::schema::step_if(!columns.contains("leaf_id"@), ColumnStep::AddLeafId);
    let b = super::schema::step_if(!columns.contains("routing_key"@), ColumnStep::AddRoutingKey);
    let c = super::schema::step_if(
        !columns.contains("leaf_id"@) || !columns.contains("routing_key"@),
        ColumnStep::BackfillRouting,
    );
    let legacy = columns.contains("canonical_json"@);
    let digest = columns.contains("canonical_json_sha256"@);
    let d = super::schema::step_if(!digest, ColumnStep::AddDigest);
    let e = super::schema::step_if(
        legacy && (!current || !digest),
        ColumnStep::BackfillDigest,
    );
    let f = super::schema::step_if(legacy, ColumnStep::Rebuild);
    let (steps, refusal) = super::schema::column_plan(columns, current);
    assert forall|step: ColumnStep| #[trigger] steps.contains(step) <==> {
        ||| a.contains(step)
        ||| b.contains(step)
        ||| c.contains(step)
        ||| (digest || legacy) && (d.contains(step) || e.contains(step) || f.contains(step))
    } by {
        joined_steps(a, b, step);
        joined_steps(a + b, c, step);
        joined_steps(d, e, step);
        joined_steps(d + e, f, step);
        joined_steps(a + b + c, d + e + f, step);
    }
    steps_are_single(!columns.contains("leaf_id"@), ColumnStep::AddLeafId);
    steps_are_single(!columns.contains("routing_key"@), ColumnStep::AddRoutingKey);
    steps_are_single(
        !columns.contains("leaf_id"@) || !columns.contains("routing_key"@),
        ColumnStep::BackfillRouting,
    );
    steps_are_single(!digest, ColumnStep::AddDigest);
    steps_are_single(legacy && (!current || !digest), ColumnStep::BackfillDigest);
    steps_are_single(legacy, ColumnStep::Rebuild);
    let all = columns.insert("leaf_id"@).insert("routing_key"@).insert("canonical_json_sha256"@);
    let list = super::schema::current_columns();
    lacking_columns(list, all, "id"@);
    names_apart();
    assert(list[0] == "append_seq"@ && list[1] == "id"@ && list[2] == "leaf_id"@ && list[3]
        == "routing_key"@ && list[4] == "identity_key"@ && list[5] == "canonical_json_sha256"@
        && list[6] == "recorded_at"@ && list[7] == "observation_json"@);
    if digest && !legacy {
        if refusal is None {
            assert(all.contains(list[0]) && all.contains(list[1]) && all.contains(list[4])
                && all.contains(list[6]) && all.contains(list[7]));
        }
    }
}

proof fn names_apart()
    ensures
        "append_seq"@ != "leaf_id"@ && "append_seq"@ != "routing_key"@ && "append_seq"@
            != "canonical_json_sha256"@,
        "id"@ != "leaf_id"@ && "id"@ != "routing_key"@ && "id"@ != "canonical_json_sha256"@,
        "identity_key"@ != "leaf_id"@ && "identity_key"@ != "routing_key"@ && "identity_key"@
            != "canonical_json_sha256"@,
        "recorded_at"@ != "leaf_id"@ && "recorded_at"@ != "routing_key"@ && "recorded_at"@
            != "canonical_json_sha256"@,
        "observation_json"@ != "leaf_id"@ && "observation_json"@ != "routing_key"@
            && "observation_json"@ != "canonical_json_sha256"@,
{
    reveal_strlit("append_seq");
    reveal_strlit("id");
    reveal_strlit("identity_key");
    reveal_strlit("recorded_at");
    reveal_strlit("observation_json");
    reveal_strlit("leaf_id");
    reveal_strlit("routing_key");
    reveal_strlit("canonical_json_sha256");
    assert("append_seq"@.len() == 10 && "id"@.len() == 2 && "identity_key"@.len() == 12
        && "recorded_at"@.len() == 11 && "observation_json"@.len() == 16);
    assert("leaf_id"@.len() == 7 && "routing_key"@.len() == 11 && "canonical_json_sha256"@.len()
        == 21);
    assert("recorded_at"@[1] == 'e' && "routing_key"@[1] == 'o');
}

proof fn joined_steps(a: Seq<ColumnStep>, b: Seq<ColumnStep>, step: ColumnStep)
    ensures
        (a + b).contains(step) <==> a.contains(step) || b.contains(step),
{
    let all = a + b;
    if a.contains(step) {
        let i = choose|i: int| 0 <= i < a.len() && a[i] == step;
        assert(all[i] == step);
    }
    if b.contains(step) {
        let i = choose|i: int| 0 <= i < b.len() && b[i] == step;
        assert(all[a.len() + i] == step);
    }
    if all.contains(step) {
        let i = choose|i: int| 0 <= i < all.len() && all[i] == step;
        if i < a.len() {
            assert(a[i] == step);
        } else {
            assert(b[i - a.len()] == step);
        }
    }
}

proof fn steps_are_single(needed: bool, step: ColumnStep)
    ensures
        forall|other: ColumnStep| #[trigger]
            super::schema::step_if(needed, step).contains(other) <==> needed && other == step,
{
    let list = super::schema::step_if(needed, step);
    if needed {
        assert(list[0] == step);
    }
}

} // verus!
