//! The schema of the durable lake: its migrations and what an older lake needs.

use vstd::prelude::*;
use vstd::string::*;

use crate::domain::Observation;
use crate::json::Json;
use crate::text::{decimal_text, join_strings, str_eq, text2, text3, text4, text6};

use super::error::{quote, violation, PersistenceError, PersistenceErrorView};
use super::identity::canonical_json_sha256;

verus! {

pub const SCHEMA_VERSION_IDENTITY_LOOKUP_INDEX: i64 = 9;

pub const SCHEMA_VERSION_LOCK_SPLIT_SCALARS: i64 = 10;

pub const SCHEMA_VERSION_KEYSET_READS: i64 = 11;

pub const SCHEMA_VERSION_PRIVACY_PROJECTION: i64 = 12;

pub const SCHEMA_VERSION_RECONSENT_PRIVACY_INDEX: i64 = 13;

pub const SCHEMA_VERSION_CUTOVER_BRIDGE: i64 = 14;

pub const SCHEMA_VERSION_ATOMIC_PROJECTION_HEAD: i64 = 15;

/// The version that a lake has once every migration is applied.
pub const CURRENT_SCHEMA_VERSION: i64 = 15;

/// The first version that the ledger of migrations knows.
pub const FIRST_SCHEMA_VERSION: i64 = 9;

/// How many migrations there are.
pub const MIGRATION_COUNT: usize = 7;

/// The name under which a migration is recorded.
pub open spec fn migration_name(i: int) -> Seq<char> {
    if i == 0 {
        "observation_identity_lookup_index"@
    } else if i == 1 {
        "append_commit_lock_split_scalars"@
    } else if i == 2 {
        "indexed_keyset_reads"@
    } else if i == 3 {
        "privacy_projection_visibility"@
    } else if i == 4 {
        "reconsent_privacy_reverse_index"@
    } else if i == 5 {
        "v1_v2_cutover_bridge"@
    } else {
        "atomic_projection_generation_head"@
    }
}

/// The name under which a migration is recorded.
pub fn name_of_migration(i: usize) -> (r: &'static str)
    requires
        i < MIGRATION_COUNT,
    ensures
        r@ == migration_name(i as int),
{
    if i == 0 {
        "observation_identity_lookup_index"
    } else if i == 1 {
        "append_commit_lock_split_scalars"
    } else if i == 2 {
        "indexed_keyset_reads"
    } else if i == 3 {
        "privacy_projection_visibility"
    } else if i == 4 {
        "reconsent_privacy_reverse_index"
    } else if i == 5 {
        "v1_v2_cutover_bridge"
    } else {
        "atomic_projection_generation_head"
    }
}

/// The texts of a list of pairs.
pub open spec fn pair_views(list: Seq<(&'static str, &'static str)>) -> Seq<(Seq<char>, Seq<char>)> {
    list.map_values(|p: (&'static str, &'static str)| (p.0@, p.1@))
}

/// The kind and the name of each object that a migration makes.
pub open spec fn migration_objects(i: int) -> Seq<(Seq<char>, Seq<char>)> {
    if i == 0 {
        seq![
            ("index"@, "observations_identity_append"@),
        ]
    } else if i == 1 {
        seq![
            ("table"@, "observation_stats"@),
            ("table"@, "projection_manifest_fields"@),
            ("index"@, "audit_events_timestamp_id"@),
            ("table"@, "operational_event_stats"@),
        ]
    } else if i == 2 {
        seq![
            ("index"@, "operational_events_correlation_cursor"@),
            ("index"@, "operational_events_stream_cursor"@),
            ("index"@, "operational_events_causation_cursor"@),
            ("index"@, "operational_events_type_cursor"@),
            ("index"@, "operational_events_actor_cursor"@),
            ("index"@, "operational_events_occurred_cursor"@),
            ("index"@, "operational_events_stream_occurred_cursor"@),
            ("table"@, "projection_visible_blob_refs"@),
            ("index"@, "projection_visible_blob_refs_lookup"@),
        ]
    } else if i == 3 {
        seq![
            ("index"@, "projection_visible_blob_refs_subject_lookup"@),
        ]
    } else if i == 4 {
        seq![
            ("table"@, "observation_privacy_keys"@),
            ("index"@, "observation_privacy_keys_append"@),
        ]
    } else if i == 5 {
        seq![
            ("table"@, "identity_bridge_candidates"@),
            ("table"@, "identity_bridge_gaps"@),
            ("table"@, "identity_bridge_watermark"@),
            ("table"@, "cutover_transition_log"@),
            ("table"@, "cutover_credentials"@),
            ("table"@, "cutover_unit_metrics"@),
            ("index"@, "identity_bridge_candidates_key_append"@),
            ("index"@, "identity_bridge_candidates_source_append"@),
            ("index"@, "identity_bridge_gaps_source_append"@),
            ("index"@, "cutover_transition_unit_seq"@),
            ("index"@, "cutover_credentials_active"@),
            ("trigger"@, "cutover_transition_log_no_update"@),
            ("trigger"@, "cutover_transition_log_no_delete"@),
        ]
    } else if i == 6 {
        seq![
            ("table"@, "projection_materialization_heads"@),
            ("table"@, "retired_projection_materializations"@),
        ]
    } else {
        Seq::empty()
    }
}

fn objects_of_migration(i: usize) -> (r: Vec<(&'static str, &'static str)>)
    ensures
        pair_views(r@) == migration_objects(i as int),
{
    let list = if i == 0 {
        vec![
            ("index", "observations_identity_append"),
        ]
    } else if i == 1 {
        vec![
            ("table", "observation_stats"),
            ("table", "projection_manifest_fields"),
            ("index", "audit_events_timestamp_id"),
            ("table", "operational_event_stats"),
        ]
    } else if i == 2 {
        vec![
            ("index", "operational_events_correlation_cursor"),
            ("index", "operational_events_stream_cursor"),
            ("index", "operational_events_causation_cursor"),
            ("index", "operational_events_type_cursor"),
            ("index", "operational_events_actor_cursor"),
            ("index", "operational_events_occurred_cursor"),
            ("index", "operational_events_stream_occurred_cursor"),
            ("table", "projection_visible_blob_refs"),
            ("index", "projection_visible_blob_refs_lookup"),
        ]
    } else if i == 3 {
        vec![
            ("index", "projection_visible_blob_refs_subject_lookup"),
        ]
    } else if i == 4 {
        vec![
            ("table", "observation_privacy_keys"),
            ("index", "observation_privacy_keys_append"),
        ]
    } else if i == 5 {
        vec![
            ("table", "identity_bridge_candidates"),
            ("table", "identity_bridge_gaps"),
            ("table", "identity_bridge_watermark"),
            ("table", "cutover_transition_log"),
            ("table", "cutover_credentials"),
            ("table", "cutover_unit_metrics"),
            ("index", "identity_bridge_candidates_key_append"),
            ("index", "identity_bridge_candidates_source_append"),
            ("index", "identity_bridge_gaps_source_append"),
            ("index", "cutover_transition_unit_seq"),
            ("index", "cutover_credentials_active"),
            ("trigger", "cutover_transition_log_no_update"),
            ("trigger", "cutover_transition_log_no_delete"),
        ]
    } else if i == 6 {
        vec![
            ("table", "projection_materialization_heads"),
            ("table", "retired_projection_materializations"),
        ]
    } else {
        Vec::new()
    };
    assert(pair_views(list@) =~= migration_objects(i as int));
    list
}

/// The table and the name of each column that a migration adds and that has to be there.
pub open spec fn migration_columns(i: int) -> Seq<(Seq<char>, Seq<char>)> {
    if i == 2 {
        seq![
            ("operational_events"@, "actor_id"@),
            ("operational_events"@, "causation_id"@),
            ("operational_events"@, "correlation_id"@),
            ("sync_metrics"@, "last_error"@),
        ]
    } else if i == 3 {
        seq![
            ("projection_visible_blob_refs"@, "subject_key"@),
        ]
    } else {
        Seq::empty()
    }
}

fn columns_of_migration(i: usize) -> (r: Vec<(&'static str, &'static str)>)
    ensures
        pair_views(r@) == migration_columns(i as int),
{
    let list = if i == 2 {
        vec![
            ("operational_events", "actor_id"),
            ("operational_events", "causation_id"),
            ("operational_events", "correlation_id"),
            ("sync_metrics", "last_error"),
        ]
    } else if i == 3 {
        vec![
            ("projection_visible_blob_refs", "subject_key"),
        ]
    } else {
        Vec::new()
    };
    assert(pair_views(list@) =~= migration_columns(i as int));
    list
}

/// What a lake says of its own schema: the version and the name of each recorded migration, the
/// kind and the name of each object, and the table and the name of each column.
#[derive(Debug)]
pub struct SchemaState {
    pub migrations: Vec<(i64, String)>,
    pub objects: Vec<(String, String)>,
    pub columns: Vec<(String, String)>,
}

/// The name under which a version is recorded.
pub open spec fn recorded_name(migrations: Seq<(i64, String)>, version: int) -> Option<Seq<char>>
    decreases migrations.len(),
{
    if migrations.len() == 0 {
        None
    } else {
        match recorded_name(migrations.drop_last(), version) {
            Some(name) => Some(name),
            None => if migrations.last().0 == version {
                Some(migrations.last().1@)
            } else {
                None
            },
        }
    }
}

/// Whether a migration is recorded.
pub open spec fn is_recorded(migrations: Seq<(i64, String)>, version: int) -> bool {
    recorded_name(migrations, version) is Some
}

proof fn recorded_name_stays(migrations: Seq<(i64, String)>, version: int, n: int)
    requires
        0 <= n <= migrations.len(),
        recorded_name(migrations.take(n), version) is Some,
    ensures
        recorded_name(migrations, version) == recorded_name(migrations.take(n), version),
    decreases migrations.len() - n,
{
    if n == migrations.len() {
        assert(migrations.take(n) =~= migrations);
    } else {
        assert(migrations.take(n + 1).drop_last() =~= migrations.take(n));
        recorded_name_stays(migrations, version, n + 1);
    }
}

fn find_migration(migrations: &Vec<(i64, String)>, version: i64) -> (r: Option<usize>)
    ensures
        match r {
            Some(i) => i < migrations@.len() && recorded_name(migrations@, version as int) == Some(
                migrations@[i as int].1@,
            ),
            None => recorded_name(migrations@, version as int) is None,
        },
{
    let mut i: usize = 0;
    while i < migrations.len()
        invariant
            i <= migrations@.len(),
            recorded_name(migrations@.take(i as int), version as int) is None,
        decreases migrations@.len() - i,
    {
        assert(migrations@.take(i + 1).drop_last() =~= migrations@.take(i as int));
        if migrations[i].0 == version {
            proof {
                recorded_name_stays(migrations@, version as int, i + 1);
            }
            return Some(i);
        }
        i = i + 1;
    }
    assert(migrations@.take(i as int) =~= migrations@);
    None
}

/// Whether a migration is recorded in the ledger.
pub fn schema_migration_recorded(migrations: &Vec<(i64, String)>, version: i64) -> (r: bool)
    ensures
        r == is_recorded(migrations@, version as int),
{
    find_migration(migrations, version).is_some()
}

/// Whether a list of pairs holds one.
pub open spec fn holds(list: Seq<(String, String)>, pair: (Seq<char>, Seq<char>)) -> bool {
    exists|i: int| 0 <= i < list.len() && (#[trigger] list[i]).0@ == pair.0 && list[i].1@ == pair.1
}

fn has_pair(list: &Vec<(String, String)>, first: &str, second: &str) -> (r: bool)
    ensures
        r == holds(list@, (first@, second@)),
{
    let mut i: usize = 0;
    while i < list.len()
        invariant
            i <= list@.len(),
            forall|j: int|
                0 <= j < i ==> !((#[trigger] list@[j]).0@ == first@ && list@[j].1@ == second@),
        decreases list@.len() - i,
    {
        if str_eq(list[i].0.as_str(), first) && str_eq(list[i].1.as_str(), second) {
            return true;
        }
        i = i + 1;
    }
    false
}

/// The first required pair that a list does not hold.
pub open spec fn first_missing(
    required: Seq<(Seq<char>, Seq<char>)>,
    list: Seq<(String, String)>,
) -> Option<(Seq<char>, Seq<char>)>
    decreases required.len(),
{
    if required.len() == 0 {
        None
    } else {
        match first_missing(required.drop_last(), list) {
            Some(pair) => Some(pair),
            None => if holds(list, required.last()) {
                None
            } else {
                Some(required.last())
            },
        }
    }
}

proof fn missing_stays(
    required: Seq<(Seq<char>, Seq<char>)>,
    list: Seq<(String, String)>,
    n: int,
)
    requires
        0 <= n <= required.len(),
        first_missing(required.take(n), list) is Some,
    ensures
        first_missing(required, list) == first_missing(required.take(n), list),
    decreases required.len() - n,
{
    if n == required.len() {
        assert(required.take(n) =~= required);
    } else {
        assert(required.take(n + 1).drop_last() =~= required.take(n));
        missing_stays(required, list, n + 1);
    }
}

fn find_missing(
    required: &Vec<(&'static str, &'static str)>,
    list: &Vec<(String, String)>,
) -> (r: Option<(&'static str, &'static str)>)
    ensures
        first_missing(pair_views(required@), list@) == (match r {
            Some(p) => Some((p.0@, p.1@)),
            None => None,
        }),
{
    let ghost all = pair_views(required@);
    let mut i: usize = 0;
    while i < required.len()
        invariant
            i <= required@.len(),
            all == pair_views(required@),
            first_missing(all.take(i as int), list@) is None,
        decreases required@.len() - i,
    {
        let (first, second) = required[i];
        proof {
            assert(all.take(i + 1).drop_last() =~= all.take(i as int));
            assert(all.take(i + 1).last() == (first@, second@));
        }
        if !has_pair(list, first, second) {
            proof {
                missing_stays(all, list@, i + 1);
            }
            return Some((first, second));
        }
        i = i + 1;
    }
    assert(all.take(i as int) =~= all);
    None
}

/// The error of a migration that was recorded before the one that it builds on.
pub open spec fn without_prerequisite(version: int) -> PersistenceErrorView {
    super::error::broken(
        "schema migration v"@ + crate::text::decimal(version as nat)
            + " is recorded without prerequisite v"@ + crate::text::decimal((version - 1) as nat),
    )
}

/// The first fault in the order of the recorded migrations, among the first ones.
pub open spec fn order_fault(migrations: Seq<(i64, String)>, n: int) -> Option<PersistenceErrorView>
    decreases n,
{
    if n <= 1 {
        None
    } else {
        match order_fault(migrations, n - 1) {
            Some(e) => Some(e),
            None => if is_recorded(migrations, FIRST_SCHEMA_VERSION + n - 1) && !is_recorded(
                migrations,
                FIRST_SCHEMA_VERSION + n - 2,
            ) {
                Some(without_prerequisite(FIRST_SCHEMA_VERSION + n - 1))
            } else {
                None
            },
        }
    }
}

/// What is wrong with a recorded migration: its name, an object or a column.
pub open spec fn migration_fault(state: SchemaState, i: int) -> Option<PersistenceErrorView> {
    let version = FIRST_SCHEMA_VERSION + i;
    match recorded_name(state.migrations@, version) {
        None => None,
        Some(name) => if name != migration_name(i) {
            Some(
                super::error::broken(
                    "schema migration v"@ + crate::text::decimal(version as nat) + " is named "@
                        + super::error::quoted(name) + ", expected "@ + super::error::quoted(
                        migration_name(i),
                    ),
                ),
            )
        } else {
            match first_missing(migration_objects(i), state.objects@) {
                Some((kind, object)) => Some(
                    super::error::broken(
                        "schema migration object is missing: "@ + kind + " "@ + object,
                    ),
                ),
                None => match first_missing(migration_columns(i), state.columns@) {
                    Some((table, column)) => Some(
                        super::error::broken(table + " column is missing: "@ + column),
                    ),
                    None => None,
                },
            }
        },
    }
}

/// The first fault of the recorded migrations, among the first ones.
pub open spec fn first_migration_fault(state: SchemaState, n: int) -> Option<PersistenceErrorView>
    decreases n,
{
    if n <= 0 {
        None
    } else {
        match first_migration_fault(state, n - 1) {
            Some(e) => Some(e),
            None => migration_fault(state, n - 1),
        }
    }
}

/// The versions that are not recorded, among the first ones.
pub open spec fn pending(migrations: Seq<(i64, String)>, n: int) -> Seq<i64>
    decreases n,
{
    if n <= 0 {
        Seq::empty()
    } else {
        let before = pending(migrations, n - 1);
        if is_recorded(migrations, FIRST_SCHEMA_VERSION + n - 1) {
            before
        } else {
            before.push((FIRST_SCHEMA_VERSION + n - 1) as i64)
        }
    }
}

/// The migrations that a lake needs, or why its schema is refused.
pub open spec fn migration_plan(state: SchemaState) -> Result<Seq<i64>, PersistenceErrorView> {
    match order_fault(state.migrations@, MIGRATION_COUNT as int) {
        Some(e) => Err(e),
        None => match first_migration_fault(state, MIGRATION_COUNT as int) {
            Some(e) => Err(e),
            None => Ok(pending(state.migrations@, MIGRATION_COUNT as int)),
        },
    }
}

proof fn order_fault_stays(migrations: Seq<(i64, String)>, n: int, m: int)
    requires
        n <= m,
        order_fault(migrations, n) is Some,
    ensures
        order_fault(migrations, m) == order_fault(migrations, n),
    decreases m - n,
{
    if n < m {
        order_fault_stays(migrations, n, m - 1);
    }
}

proof fn migration_fault_stays(state: SchemaState, n: int, m: int)
    requires
        n <= m,
        first_migration_fault(state, n) is Some,
    ensures
        first_migration_fault(state, m) == first_migration_fault(state, n),
    decreases m - n,
{
    if n < m {
        migration_fault_stays(state, n, m - 1);
    }
}

fn check_migration(state: &SchemaState, i: usize) -> (r: Result<(), PersistenceError>)
    requires
        i < MIGRATION_COUNT,
    ensures
        match r {
            Ok(()) => migration_fault(*state, i as int) is None,
            Err(e) => migration_fault(*state, i as int) == Some(e@),
        },
{
    let version: i64 = FIRST_SCHEMA_VERSION + i as i64;
    let at = match find_migration(&state.migrations, version) {
        None => {
            return Ok(());
        },
        Some(at) => at,
    };
    let expected = name_of_migration(i);
    let actual = state.migrations[at].1.as_str();
    if !str_eq(actual, expected) {
        let number = decimal_text(version as u64);
        let shown = quote(actual);
        let wanted = quote(expected);
        return Err(
            PersistenceError::SchemaInvariant(
                text6(
                    "schema migration v",
                    number.as_str(),
                    " is named ",
                    shown.as_str(),
                    ", expected ",
                    wanted.as_str(),
                ),
            ),
        );
    }
    let objects = objects_of_migration(i);
    match find_missing(&objects, &state.objects) {
        Some((kind, object)) => {
            return Err(
                PersistenceError::SchemaInvariant(
                    text4("schema migration object is missing: ", kind, " ", object),
                ),
            );
        },
        None => {},
    }
    let columns = columns_of_migration(i);
    match find_missing(&columns, &state.columns) {
        Some((table, column)) => {
            let head = text2(table, " column is missing: ");
            Err(PersistenceError::SchemaInvariant(text2(head.as_str(), column)))
        },
        None => Ok(()),
    }
}

/// The migrations that a lake needs, in the order in which they are applied. A migration that was
/// recorded has to have the one before it, its own name, its objects and its columns.
pub fn apply_schema_migrations(state: &SchemaState) -> (r: Result<Vec<i64>, PersistenceError>)
    ensures
        match r {
            Ok(versions) => migration_plan(*state) == Ok::<Seq<i64>, PersistenceErrorView>(
                versions@,
            ),
            Err(e) => migration_plan(*state) == Err::<Seq<i64>, PersistenceErrorView>(e@),
        },
{
    let mut n: usize = 1;
    while n < MIGRATION_COUNT
        invariant
            1 <= n <= MIGRATION_COUNT,
            order_fault(state.migrations@, n as int) is None,
        decreases MIGRATION_COUNT - n,
    {
        let version: i64 = FIRST_SCHEMA_VERSION + n as i64;
        if schema_migration_recorded(&state.migrations, version) && !schema_migration_recorded(
            &state.migrations,
            version - 1,
        ) {
            proof {
                order_fault_stays(state.migrations@, n + 1, MIGRATION_COUNT as int);
            }
            let number = decimal_text(version as u64);
            let before = decimal_text((version - 1) as u64);
            return Err(
                PersistenceError::SchemaInvariant(
                    text4(
                        "schema migration v",
                        number.as_str(),
                        " is recorded without prerequisite v",
                        before.as_str(),
                    ),
                ),
            );
        }
        n = n + 1;
    }
    let mut versions: Vec<i64> = Vec::new();
    let mut i: usize = 0;
    while i < MIGRATION_COUNT
        invariant
            i <= MIGRATION_COUNT,
            order_fault(state.migrations@, MIGRATION_COUNT as int) is None,
            first_migration_fault(*state, i as int) is None,
            versions@ == pending(state.migrations@, i as int),
        decreases MIGRATION_COUNT - i,
    {
        match check_migration(state, i) {
            Ok(()) => {},
            Err(e) => {
                proof {
                    migration_fault_stays(*state, i + 1, MIGRATION_COUNT as int);
                }
                return Err(e);
            },
        }
        let version: i64 = FIRST_SCHEMA_VERSION + i as i64;
        if !schema_migration_recorded(&state.migrations, version) {
            versions.push(version);
        }
        i = i + 1;
    }
    Ok(versions)
}

/// The ledger after migrations were recorded.
pub open spec fn with_recorded(
    migrations: Seq<(i64, String)>,
    added: Seq<(i64, String)>,
) -> Seq<(i64, String)> {
    migrations + added
}

proof fn recorded_stays_recorded(
    migrations: Seq<(i64, String)>,
    added: Seq<(i64, String)>,
    version: int,
)
    ensures
        is_recorded(migrations, version) ==> recorded_name(migrations + added, version)
            == recorded_name(migrations, version),
        (exists|i: int| 0 <= i < added.len() && (#[trigger] added[i]).0 == version) ==> is_recorded(
            migrations + added,
            version,
        ),
    decreases added.len(),
{
    let all = migrations + added;
    if added.len() == 0 {
        assert(all =~= migrations);
    } else {
        let init = added.drop_last();
        recorded_stays_recorded(migrations, init, version);
        assert(all.drop_last() =~= migrations + init);
        assert(all.last() == added.last());
        if exists|i: int| 0 <= i < added.len() && (#[trigger] added[i]).0 == version {
            let i = choose|i: int| 0 <= i < added.len() && (#[trigger] added[i]).0 == version;
            if i < init.len() {
                assert(init[i].0 == version);
            }
        }
    }
}

proof fn pending_is_missing(migrations: Seq<(i64, String)>, n: int, k: int)
    requires
        0 <= k < n,
    ensures
        pending(migrations, n).contains((FIRST_SCHEMA_VERSION + k) as i64) || is_recorded(
            migrations,
            FIRST_SCHEMA_VERSION + k,
        ),
    decreases n,
{
    let before = pending(migrations, n - 1);
    let now = pending(migrations, n);
    if k < n - 1 {
        pending_is_missing(migrations, n - 1, k);
        if before.contains((FIRST_SCHEMA_VERSION + k) as i64) {
            let i = choose|i: int|
                0 <= i < before.len() && before[i] == (FIRST_SCHEMA_VERSION + k) as i64;
            assert(now[i] == before[i]);
        }
    } else if !is_recorded(migrations, FIRST_SCHEMA_VERSION + k) {
        assert(now[before.len() as int] == (FIRST_SCHEMA_VERSION + k) as i64);
    }
}

proof fn nothing_pending(migrations: Seq<(i64, String)>, n: int)
    requires
        forall|k: int|
            0 <= k < n ==> #[trigger] is_recorded(migrations, FIRST_SCHEMA_VERSION + k),
    ensures
        pending(migrations, n).len() == 0,
        order_fault(migrations, n) is None,
    decreases n,
{
    if n > 0 {
        assert(is_recorded(migrations, FIRST_SCHEMA_VERSION + (n - 1)));
        if n > 1 {
            assert(is_recorded(migrations, FIRST_SCHEMA_VERSION + (n - 2)));
        }
        nothing_pending(migrations, n - 1);
    }
}

/// Once the migrations that a lake needs are recorded, it needs none any more.
pub proof fn applied_migrations_are_not_applied_again(
    state: SchemaState,
    added: Seq<(i64, String)>,
)
    requires
        migration_plan(state) is Ok,
        forall|v: i64| #[trigger]
            migration_plan(state)->Ok_0.contains(v) ==> exists|i: int|
                0 <= i < added.len() && (#[trigger] added[i]).0 == v,
    ensures
        pending(with_recorded(state.migrations@, added), MIGRATION_COUNT as int).len() == 0,
        order_fault(with_recorded(state.migrations@, added), MIGRATION_COUNT as int) is None,
{
    let all = with_recorded(state.migrations@, added);
    assert forall|k: int| 0 <= k < MIGRATION_COUNT implies #[trigger] is_recorded(
        all,
        FIRST_SCHEMA_VERSION + k,
    ) by {
        pending_is_missing(state.migrations@, MIGRATION_COUNT as int, k);
        recorded_stays_recorded(state.migrations@, added, FIRST_SCHEMA_VERSION + k);
        let version = (FIRST_SCHEMA_VERSION + k) as i64;
        if migration_plan(state)->Ok_0.contains(version) {
            let i = choose|i: int| 0 <= i < added.len() && (#[trigger] added[i]).0 == version;
            assert(added[i].0 == FIRST_SCHEMA_VERSION + k);
        }
    }
    nothing_pending(all, MIGRATION_COUNT as int);
}

/// In a ledger that is accepted, every migration below a recorded one is recorded too.
pub proof fn accepted_ledgers_have_no_gaps(migrations: Seq<(i64, String)>, low: int, high: int)
    requires
        order_fault(migrations, MIGRATION_COUNT as int) is None,
        0 <= low <= high < MIGRATION_COUNT,
        is_recorded(migrations, FIRST_SCHEMA_VERSION + high),
    ensures
        is_recorded(migrations, FIRST_SCHEMA_VERSION + low),
    decreases high - low,
{
    if low < high {
        if order_fault(migrations, high + 1) is Some {
            order_fault_stays(migrations, high + 1, MIGRATION_COUNT as int);
        }
        accepted_ledgers_have_no_gaps(migrations, low, high - 1);
    }
}

/// What is done to the table of observations of an older lake.
#[derive(Clone, Copy, Debug, PartialEq, Eq, Structural)]
pub enum ColumnStep {
    AddLeafId,
    AddRoutingKey,
    BackfillRouting,
    AddDigest,
    BackfillDigest,
    Rebuild,
}

/// The steps that the table of observations needs, and why it is refused after them.
#[derive(Debug)]
pub struct ColumnPlan {
    pub steps: Vec<ColumnStep>,
    pub refusal: Option<PersistenceError>,
}

/// A list of one step, where it is needed.
pub open spec fn step_if(needed: bool, step: ColumnStep) -> Seq<ColumnStep> {
    if needed {
        seq![step]
    } else {
        Seq::empty()
    }
}

/// The columns that the table of observations has to have.
pub open spec fn current_columns() -> Seq<Seq<char>> {
    seq![
        "append_seq"@,
        "id"@,
        "leaf_id"@,
        "routing_key"@,
        "identity_key"@,
        "canonical_json_sha256"@,
        "recorded_at"@,
        "observation_json"@,
    ]
}

/// The steps that the place of observations needs.
pub open spec fn routing_steps(columns: Set<Seq<char>>) -> Seq<ColumnStep> {
    step_if(!columns.contains("leaf_id"@), ColumnStep::AddLeafId) + step_if(
        !columns.contains("routing_key"@),
        ColumnStep::AddRoutingKey,
    ) + step_if(
        !columns.contains("leaf_id"@) || !columns.contains("routing_key"@),
        ColumnStep::BackfillRouting,
    )
}

/// The steps that the digest of observations needs, where the content is still in a column.
pub open spec fn digest_steps(columns: Set<Seq<char>>, current: bool) -> Seq<ColumnStep> {
    let legacy = columns.contains("canonical_json"@);
    let digest = columns.contains("canonical_json_sha256"@);
    step_if(!digest, ColumnStep::AddDigest) + step_if(
        legacy && (!current || !digest),
        ColumnStep::BackfillDigest,
    ) + step_if(legacy, ColumnStep::Rebuild)
}

/// The columns of a list that a set lacks, in the order of the list.
pub open spec fn lacking(list: Seq<Seq<char>>, columns: Set<Seq<char>>) -> Seq<Seq<char>>
    decreases list.len(),
{
    if list.len() == 0 {
        Seq::empty()
    } else {
        let before = lacking(list.drop_last(), columns);
        if columns.contains(list.last()) {
            before
        } else {
            before.push(list.last())
        }
    }
}

/// The error of a table that lacks columns.
pub open spec fn missing_columns(columns: Set<Seq<char>>) -> Option<PersistenceErrorView> {
    let missing = lacking(current_columns(), columns);
    if missing.len() == 0 {
        None
    } else {
        Some(
            super::error::broken(
                "observations table is missing current schema columns: "@ + crate::text::join(
                    missing,
                    ", "@,
                ),
            ),
        )
    }
}

/// What the table of observations of a lake needs.
pub open spec fn column_plan(columns: Set<Seq<char>>, current: bool) -> (
    Seq<ColumnStep>,
    Option<PersistenceErrorView>,
) {
    let routing = routing_steps(columns);
    let legacy = columns.contains("canonical_json"@);
    let digest = columns.contains("canonical_json_sha256"@);
    if !digest && !legacy {
        (
            routing,
            Some(
                super::error::broken(
                    "observations table lacks canonical_json_sha256 and legacy canonical_json; cannot migrate duplicate-detection schema"@,
                ),
            ),
        )
    } else {
        (
            routing + digest_steps(columns, current),
            if legacy {
                None
            } else {
                missing_columns(
                    columns.insert("leaf_id"@).insert("routing_key"@).insert(
                        "canonical_json_sha256"@,
                    ),
                )
            },
        )
    }
}

fn has_text(list: &Vec<String>, item: &str) -> (r: bool)
    ensures
        r == crate::text::strings(list@).to_set().contains(item@),
{
    let ghost all = crate::text::strings(list@);
    let mut i: usize = 0;
    while i < list.len()
        invariant
            i <= list@.len(),
            all == crate::text::strings(list@),
            forall|j: int| 0 <= j < i ==> #[trigger] all[j] != item@,
        decreases list@.len() - i,
    {
        assert(all[i as int] == list@[i as int]@);
        if str_eq(list[i].as_str(), item) {
            assert(all.contains(item@));
            return true;
        }
        i = i + 1;
    }
    assert(!all.contains(item@));
    false
}

/// Checks that the table of observations has every column that it has to have.
pub fn require_observation_columns(columns: &Vec<String>) -> (r: Result<(), PersistenceError>)
    ensures
        match r {
            Ok(()) => missing_columns(crate::text::strings(columns@).to_set()) is None,
            Err(e) => missing_columns(crate::text::strings(columns@).to_set()) == Some(e@),
        },
{
    let required = vec![
        "append_seq",
        "id",
        "leaf_id",
        "routing_key",
        "identity_key",
        "canonical_json_sha256",
        "recorded_at",
        "observation_json",
    ];
    let ghost list = current_columns();
    let ghost set = crate::text::strings(columns@).to_set();
    let mut missing: Vec<String> = Vec::new();
    let mut i: usize = 0;
    assert(crate::text::strings(missing@) =~= lacking(list.take(0), set));
    while i < required.len()
        invariant
            i <= required@.len(),
            required@.len() == 8,
            list == current_columns(),
            set == crate::text::strings(columns@).to_set(),
            forall|j: int| 0 <= j < 8 ==> (#[trigger] required@[j])@ == list[j],
            crate::text::strings(missing@) == lacking(list.take(i as int), set),
        decreases required@.len() - i,
    {
        proof {
            assert(list.take(i + 1).drop_last() =~= list.take(i as int));
            assert(list.take(i + 1).last() == required@[i as int]@);
        }
        let ghost before = missing@;
        if !has_text(columns, required[i]) {
            missing.push(required[i].to_owned());
            assert(crate::text::strings(missing@) =~= crate::text::strings(before).push(
                required@[i as int]@,
            ));
        }
        i = i + 1;
    }
    assert(list.take(8) =~= list);
    if missing.len() == 0 {
        return Ok(());
    }
    let joined = join_strings(missing.as_slice(), ", ");
    Err(
        PersistenceError::SchemaInvariant(
            text2("observations table is missing current schema columns: ", joined.as_str()),
        ),
    )
}

fn push_step(steps: &mut Vec<ColumnStep>, needed: bool, step: ColumnStep)
    ensures
        final(steps)@ == old(steps)@ + step_if(needed, step),
{
    if needed {
        steps.push(step);
    }
    assert(steps@ =~= old(steps)@ + step_if(needed, step));
}

/// What the table of observations of a lake needs, given its columns and whether the reads by key
/// are recorded. A table that was rebuilt has all columns.
pub fn migrate_existing_schema(columns: &Vec<String>, current_version_recorded: bool) -> (r:
    ColumnPlan)
    ensures
        ({
            let plan = column_plan(
                crate::text::strings(columns@).to_set(),
                current_version_recorded,
            );
            &&& r.steps@ == plan.0
            &&& match r.refusal {
                Some(e) => plan.1 == Some(e@),
                None => plan.1 is None,
            }
        }),
{
    let ghost set = crate::text::strings(columns@).to_set();
    let leaf = has_text(columns, "leaf_id");
    let routing = has_text(columns, "routing_key");
    let legacy = has_text(columns, "canonical_json");
    let digest = has_text(columns, "canonical_json_sha256");
    let mut steps: Vec<ColumnStep> = Vec::new();
    push_step(&mut steps, !leaf, ColumnStep::AddLeafId);
    push_step(&mut steps, !routing, ColumnStep::AddRoutingKey);
    push_step(&mut steps, !leaf || !routing, ColumnStep::BackfillRouting);
    assert(steps@ =~= routing_steps(set));
    if !digest && !legacy {
        return ColumnPlan {
            steps,
            refusal: Some(
                violation(
                    "observations table lacks canonical_json_sha256 and legacy canonical_json; cannot migrate duplicate-detection schema",
                ),
            ),
        };
    }
    push_step(&mut steps, !digest, ColumnStep::AddDigest);
    push_step(
        &mut steps,
        legacy && (!current_version_recorded || !digest),
        ColumnStep::BackfillDigest,
    );
    push_step(&mut steps, legacy, ColumnStep::Rebuild);
    assert(steps@ =~= routing_steps(set) + digest_steps(set, current_version_recorded));
    if legacy {
        return ColumnPlan { steps, refusal: None };
    }
    let mut after = crate::text::copy_texts(columns);
    after.push("leaf_id".to_owned());
    after.push("routing_key".to_owned());
    after.push("canonical_json_sha256".to_owned());
    proof {
        let texts = crate::text::strings(columns@);
        let more = crate::text::strings(after@);
        let wanted = set.insert("leaf_id"@).insert("routing_key"@).insert(
            "canonical_json_sha256"@,
        );
        assert(more =~= texts.push("leaf_id"@).push("routing_key"@).push(
            "canonical_json_sha256"@,
        ));
        assert forall|t: Seq<char>| more.to_set().contains(t) <==> #[trigger] wanted.contains(
            t,
        ) by {
            if more.contains(t) {
                let i = choose|i: int| 0 <= i < more.len() && more[i] == t;
                if i < texts.len() {
                    assert(texts[i] == t);
                }
            }
            if texts.contains(t) {
                let i = choose|i: int| 0 <= i < texts.len() && texts[i] == t;
                assert(more[i] == t);
            }
            let n = texts.len() as int;
            assert(more[n] == "leaf_id"@ && more[n + 1] == "routing_key"@ && more[n + 2]
                == "canonical_json_sha256"@);
        }
        assert(more.to_set() =~= wanted);
    }
    let refusal = match require_observation_columns(&after) {
        Ok(()) => None,
        Err(e) => Some(e),
    };
    ColumnPlan { steps, refusal }
}

/// A table that has all columns is left as it is.
pub proof fn current_tables_are_left_alone(columns: Set<Seq<char>>)
    requires
        forall|i: int|
            0 <= i < current_columns().len() ==> columns.contains(#[trigger] current_columns()[i]),
        !columns.contains("canonical_json"@),
    ensures
        forall|current: bool| #[trigger] column_plan(columns, current) == (
            Seq::<ColumnStep>::empty(),
            None::<PersistenceErrorView>,
        ),
{
    let list = current_columns();
    assert(columns.contains(list[2]) && columns.contains(list[3]) && columns.contains(list[5]));
    let set = columns.insert("leaf_id"@).insert("routing_key"@).insert("canonical_json_sha256"@);
    assert(set =~= columns);
    nothing_lacks(list, columns);
    assert forall|current: bool| #[trigger] column_plan(columns, current) == (
        Seq::<ColumnStep>::empty(),
        None::<PersistenceErrorView>,
    ) by {
        assert(column_plan(columns, current).0 =~= Seq::<ColumnStep>::empty());
    }
}

proof fn nothing_lacks(list: Seq<Seq<char>>, columns: Set<Seq<char>>)
    requires
        forall|i: int| 0 <= i < list.len() ==> columns.contains(#[trigger] list[i]),
    ensures
        lacking(list, columns).len() == 0,
    decreases list.len(),
{
    if list.len() > 0 {
        let init = list.drop_last();
        assert forall|i: int| 0 <= i < init.len() implies columns.contains(#[trigger] init[i]) by {
            assert(init[i] == list[i]);
        }
        nothing_lacks(init, columns);
        assert(columns.contains(list[list.len() - 1]));
    }
}

/// The digest of an observation whose content is still in a column: the metadata of the observation
/// has to hold the same content.
pub fn legacy_digest(canonical_json: &str, observation: &Observation, append_seq: u64) -> (r: Result<
    String,
    PersistenceError,
>)
    ensures
        crate::text::result_view(r) == (match crate::lake::store::canonical_text(*observation) {
            None => Err::<Seq<char>, PersistenceErrorView>(
                super::error::broken(
                    "stored observation.meta.canonical_json is required for duplicate detection"@,
                ),
            ),
            Some(own) => if own != canonical_json@ {
                Err(
                    super::error::broken(
                        "legacy observations.canonical_json differs from observation.meta.canonical_json at append_seq "@
                            + crate::text::decimal(append_seq as nat),
                    ),
                )
            } else {
                Ok(crate::digest::text_digest(canonical_json@))
            },
        }),
{
    match observation.meta.get_str("canonical_json") {
        None => Err(
            violation("stored observation.meta.canonical_json is required for duplicate detection"),
        ),
        Some(own) => {
            if !str_eq(own, canonical_json) {
                let at = decimal_text(append_seq);
                return Err(
                    PersistenceError::SchemaInvariant(
                        text2(
                            "legacy observations.canonical_json differs from observation.meta.canonical_json at append_seq ",
                            at.as_str(),
                        ),
                    ),
                );
            }
            Ok(canonical_json_sha256(canonical_json))
        },
    }
}

/// Checks that a stored payload is that of the row that holds it.
pub fn check_stored_payload(observation_id: &str, observation: &Observation) -> (r: Result<
    (),
    PersistenceError,
>)
    ensures
        match r {
            Ok(()) => observation.id@ == observation_id@,
            Err(e) => observation.id@ != observation_id@ && e@ == super::error::broken(
                "observation "@ + observation_id@ + " disagrees with stored payload "@
                    + observation.id@,
            ),
        },
{
    if str_eq(observation.id.as_str(), observation_id) {
        Ok(())
    } else {
        Err(
            PersistenceError::SchemaInvariant(
                text4(
                    "observation ",
                    observation_id,
                    " disagrees with stored payload ",
                    observation.id.as_str(),
                ),
            ),
        )
    }
}

/// Checks that the manifest of a projection, which its fields are to be taken from, has fields.
pub fn check_stored_manifest(projection_id: &str, manifest: &Json) -> (r: Result<
    (),
    PersistenceError,
>)
    ensures
        match r {
            Ok(()) => manifest@ is Object,
            Err(e) => !(manifest@ is Object) && e@ == super::error::broken(
                "projection "@ + projection_id@ + " manifest must be a JSON object"@,
            ),
        },
{
    match manifest {
        Json::Object(_) => Ok(()),
        _ => Err(
            PersistenceError::SchemaInvariant(
                text3("projection ", projection_id, " manifest must be a JSON object"),
            ),
        ),
    }
}

/// Refuses an index of blobs that names files by their path.
pub fn check_blob_columns(columns: &Vec<String>) -> (r: Result<(), PersistenceError>)
    ensures
        match r {
            Ok(()) => !crate::text::strings(columns@).to_set().contains("file_path"@),
            Err(e) => crate::text::strings(columns@).to_set().contains("file_path"@) && e@
                == super::error::broken(
                "legacy blobs.file_path schema is unsupported; run the explicit offline blob-index migration before starting LETHE"@,
            ),
        },
{
    if has_text(columns, "file_path") {
        Err(
            violation(
                "legacy blobs.file_path schema is unsupported; run the explicit offline blob-index migration before starting LETHE",
            ),
        )
    } else {
        Ok(())
    }
}

} // verus!
