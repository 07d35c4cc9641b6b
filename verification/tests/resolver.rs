use lethe::domain::{
    AuthorityModel, CaptureModel, EntityRef, IdempotencyKey, Observation, ObservationId,
    ObserverRef, SchemaRef, SemVer, SourceSystemRef,
};
use lethe::json::{object, object2, text};
use lethe::runtime::keyspec_migration::{
    BlueGreenKeyspecMigration, KeyspecVersionSet, MigrationError, MigrationPhase,
    RetainedKeyspecMetadata,
};
use lethe::runtime::partition::{
    initialize_event_json, parse_partition_event, split_commit_event_json, PartitionError,
    PartitionTree,
    PARTITION_EVENT_INITIALIZE, PARTITION_EVENT_SPLIT_COMMIT,
};
use lethe::runtime::resolver::{
    candidate_leaves, streaming_k_way_merge, LeafFilter, PublishedWindow, ResolverError,
};
use lethe::time::Timestamp;

fn leaf_id() -> String {
    format!("lake:{}", uuid::Uuid::now_v7())
}

fn instant(value: &str) -> Timestamp {
    let time = chrono::DateTime::parse_from_rfc3339(value).unwrap().to_utc();
    Timestamp::new(time.timestamp(), time.timestamp_subsec_nanos()).unwrap()
}

fn observation(id: &str, published: &str, recorded_at: &str) -> Observation {
    Observation {
        id: ObservationId::new(id),
        schema: SchemaRef::new("schema:slack-message"),
        schema_version: SemVer::new("1.0.0"),
        observer: ObserverRef::new("obs:slack"),
        source_system: Some(SourceSystemRef::new("sys:slack")),
        actor: None,
        authority_model: AuthorityModel::LakeAuthoritative,
        capture_model: CaptureModel::Event,
        subject: EntityRef::new("message:slack:C01"),
        target: None,
        payload: object(vec![]),
        attachments: vec![],
        published: instant(published),
        recorded_at: instant(recorded_at),
        consent: None,
        idempotency_key: IdempotencyKey::new(&format!("key:{id}")),
        meta: object2(
            "canonical_json",
            text(&format!("{{\"id\":\"{id}\"}}")),
            "source_container",
            text("channel:C01"),
        ),
    }
}

fn split_tree() -> (PartitionTree, String, String) {
    let root = leaf_id();
    let left = leaf_id();
    let right = leaf_id();
    let initialize = parse_partition_event(
        PARTITION_EVENT_INITIALIZE,
        &initialize_event_json(&root).unwrap(),
    )
    .unwrap();
    let commit = parse_partition_event(
        PARTITION_EVENT_SPLIT_COMMIT,
        &split_commit_event_json(&root, &left, &right, 15).unwrap(),
    )
    .unwrap();
    let tree = PartitionTree::from_events(&[initialize, commit]).unwrap();
    (tree, left, right)
}

#[test]
fn candidate_leaves_expands_published_window_to_month_year_buckets() {
    let (tree, left, right) = split_tree();
    let filter = LeafFilter {
        published: Some(PublishedWindow {
            start: instant("2026-04-01T00:00:00Z"),
            end: instant("2026-05-31T23:59:59Z"),
        }),
        source: Some("sys:slack".to_owned()),
        container: Some("channel:C01".to_owned()),
    };

    let leaves = candidate_leaves(&tree, &filter).unwrap();

    assert_eq!(leaves, vec![left, right]);
}

#[test]
fn reads_of_one_month_look_into_one_leaf() {
    let (tree, left, right) = split_tree();
    let filter = LeafFilter {
        published: Some(PublishedWindow {
            start: instant("2026-04-01T00:00:00Z"),
            end: instant("2026-04-30T23:59:59Z"),
        }),
        source: None,
        container: None,
    };
    assert_eq!(candidate_leaves(&tree, &filter).unwrap(), vec![left.clone()]);
    assert_eq!(
        candidate_leaves(&tree, &LeafFilter::default()).unwrap(),
        vec![left, right]
    );
}

#[test]
fn faulty_filters_are_refused() {
    let (tree, _, _) = split_tree();
    let window = LeafFilter {
        published: Some(PublishedWindow {
            start: instant("2026-05-01T00:00:00Z"),
            end: instant("2026-04-30T23:59:59Z"),
        }),
        source: None,
        container: None,
    };
    assert!(matches!(
        candidate_leaves(&tree, &window),
        Err(ResolverError::InvalidPublishedWindow)
    ));
    let container = LeafFilter {
        published: None,
        source: None,
        container: Some("channel:C01".to_owned()),
    };
    assert!(matches!(
        candidate_leaves(&tree, &container),
        Err(ResolverError::ContainerRequiresSource)
    ));
    let source = LeafFilter {
        published: Some(PublishedWindow {
            start: instant("2026-04-01T00:00:00Z"),
            end: instant("2026-04-30T23:59:59Z"),
        }),
        source: Some("a\u{1f}b".to_owned()),
        container: None,
    };
    assert!(matches!(
        candidate_leaves(&tree, &source),
        Err(ResolverError::Partition(_))
    ));
}

#[test]
fn streaming_merge_orders_by_published_recorded_at_id() {
    let first = observation("obs:1", "2026-04-01T00:00:00Z", "2026-04-01T00:01:00Z");
    let second = observation("obs:2", "2026-04-01T00:00:00Z", "2026-04-01T00:02:00Z");
    let third = observation("obs:3", "2026-04-02T00:00:00Z", "2026-04-02T00:01:00Z");
    let ids = vec![first.id.clone(), second.id.clone(), third.id.clone()];

    let merged = streaming_k_way_merge(vec![vec![first, third], vec![second]]).unwrap();

    assert_eq!(
        merged
            .into_iter()
            .map(|observation| observation.id)
            .collect::<Vec<_>>(),
        ids
    );
}

#[test]
fn streaming_merge_rejects_unsorted_leaf_stream() {
    let first = observation("obs:1", "2026-04-01T00:00:00Z", "2026-04-01T00:01:00Z");
    let second = observation("obs:2", "2026-04-01T00:00:00Z", "2026-04-01T00:02:00Z");

    let err = streaming_k_way_merge(vec![vec![second, first]]).unwrap_err();

    assert!(matches!(err, ResolverError::UnsortedLeafStream));
}

#[test]
fn merging_nothing_gives_nothing() {
    assert!(streaming_k_way_merge(vec![vec![], vec![]]).unwrap().is_empty());
}

fn keyspecs(suffix: &str) -> KeyspecVersionSet {
    KeyspecVersionSet {
        routing_keyspec_version: format!("routing-keyspec/{suffix}"),
        identity_keyspec_version: format!("identity-keyspec/{suffix}"),
    }
}

#[test]
fn migration_rejects_in_place_keyspec_change() {
    let err = BlueGreenKeyspecMigration::create(
        keyspecs("v1"),
        keyspecs("v1"),
        "partition_log_old".to_owned(),
        "partition_log_new".to_owned(),
    )
    .unwrap_err();

    assert_eq!(err, MigrationError::UnchangedKeyspec);
}

#[test]
fn migration_requires_bulk_catchup_freeze_cutover_retire_order() {
    let mut migration = BlueGreenKeyspecMigration::create(
        keyspecs("v1"),
        keyspecs("v2"),
        "partition_log_old".to_owned(),
        "partition_log_new".to_owned(),
    )
    .unwrap();

    assert!(matches!(
        migration.cutover_reads().unwrap_err(),
        MigrationError::PhaseOutOfOrder { .. }
    ));
    migration.record_bulk_rehome_mode_b().unwrap();
    migration.record_iterative_catch_up().unwrap();
    migration.freeze().unwrap();
    migration.cutover_reads().unwrap();
    migration.retire_old_structure().unwrap();

    assert_eq!(migration.phase(), MigrationPhase::Retired);
    assert_eq!(
        migration.retained_old_metadata(),
        &RetainedKeyspecMetadata {
            routing_keyspec_version: "routing-keyspec/v1".to_owned(),
            identity_keyspec_version: "identity-keyspec/v1".to_owned(),
            partition_log_name: "partition_log_old".to_owned(),
        }
    );
    assert_eq!(migration.new_partition_log_name(), "partition_log_new");
}

#[test]
fn half_changed_keyspecs_are_accepted() {
    let mut next = keyspecs("v1");
    next.identity_keyspec_version = "identity-keyspec/v2".to_owned();
    let migration = BlueGreenKeyspecMigration::create(
        keyspecs("v1"),
        next,
        "old".to_owned(),
        "new".to_owned(),
    );
    assert_eq!(migration.unwrap().phase(), MigrationPhase::NewStructure);
}

#[test]
fn migrations_know_both_keyspecs() {
    let migration = BlueGreenKeyspecMigration::create(
        keyspecs("v1"),
        keyspecs("v2"),
        "partition_log".to_owned(),
        "partition_log_green".to_owned(),
    )
    .unwrap();
    assert_eq!(migration.old_keyspecs(), &keyspecs("v1"));
    assert_eq!(migration.new_keyspecs(), &keyspecs("v2"));
}

#[test]
fn errors_have_their_texts() {
    assert_eq!(
        MigrationError::PhaseOutOfOrder {
            expected: MigrationPhase::Freeze,
            actual: MigrationPhase::NewStructure
        }
        .message(),
        "migration phase out of order: expected Freeze, actual NewStructure"
    );
    assert_eq!(
        MigrationError::UnchangedKeyspec.message(),
        "old and new keyspec versions must differ"
    );
    assert_eq!(
        ResolverError::Partition(PartitionError::MissingInitialize).message(),
        "partition error: partition log has no initialize event"
    );
    assert_eq!(
        ResolverError::UnsortedLeafStream.message(),
        "leaf stream is not sorted by (published, recorded_at, id)"
    );
}

#[test]
fn equal_observations_of_a_leaf_keep_their_order() {
    let early = "2026-05-01T00:00:00Z";
    let mut first = observation("obs-1", early, early);
    first.idempotency_key = IdempotencyKey::new("written-first");
    let mut second = observation("obs-1", early, early);
    second.idempotency_key = IdempotencyKey::new("written-second");
    let other = observation("obs-0", early, early);

    let merged = streaming_k_way_merge(vec![vec![first, second], vec![other]]).unwrap();
    let keys: Vec<&str> = merged
        .iter()
        .map(|observation| observation.idempotency_key.as_str())
        .collect();
    assert_eq!(merged[0].id.as_str(), "obs-0");
    assert_eq!(keys[1..], ["written-first", "written-second"]);
}
