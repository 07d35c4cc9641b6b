use lethe::domain::{
    AuthorityModel, CaptureModel, EntityRef, IdempotencyKey, Observation, ObservationId,
    ObserverRef, ProjectionRef, SchemaRef, SemVer, SourceSystemRef,
};
use lethe::json::{object, Json};
use lethe::persistence::blobs::{
    blob_ref_of, check_blob_batch, check_blob_size, orphan_files, unique_files, writer_chunk,
};
use lethe::persistence::error::{storage_error, PersistenceError, StorageError};
use lethe::persistence::generations::{ProjectionGenerations, Projections};
use lethe::persistence::identity::{
    append_observations_in_transaction, append_step, bridge_batch, bridge_entry,
    bridge_entry_for, bridge_identity_key, bridged_batch, bridged_step, canonical_json_sha256, check_bridge_batch,
    observation_identity_inputs, outcome_of_step, persist_outcome, rehomed, resolve_bridge,
    v2_identity, AppendStep, BridgeCandidate, BridgeEntry, BridgedStep, DurableAppendOutcome,
    ExistingObservation, RehomeMode, StoredObservation,
};
use lethe::persistence::pages::{
    audit_event_page, check_integrity, indexed_observation, observation_page,
    observations_for_leaf_after, observations_for_privacy_key, retention_modifier,
    supplemental_page, AuditEventCursor,
};
use lethe::persistence::partition_log::{
    append_failover, append_recover, append_split_commit, append_split_prepare,
    blue_green_migrate, check_leaf_capacity, ensure_partition_initialize, first_full_leaf,
    green_observation, migrate_with_transforms,
    partition_tree_snapshot, rebuild_partition_tree_from_log, split_leaf_if_capacity,
    BlueGreenTransform, LogRow,
};
use lethe::persistence::projection::{
    collect_blob_refs, commit_projection_items, commit_projection_leaf_watermark, consent_scope,
    manifest_fields, parse_page_start, projection_items_page, projection_leaf_watermark,
    require_delta, require_new_supplemental, validate_item_key, PageStart, ProjectionItem, ProjectionItemCommit,
    ProjectionItems,
};
use lethe::persistence::schema::{
    apply_schema_migrations, check_blob_columns, check_stored_manifest, check_stored_payload,
    legacy_digest, migrate_existing_schema, name_of_migration, require_observation_columns,
    ColumnStep, SchemaState, CURRENT_SCHEMA_VERSION, FIRST_SCHEMA_VERSION, MIGRATION_COUNT,
};
use lethe::persistence::secrets::{get_encrypted_secret, put_encrypted_secret, EncryptedSecret};
use lethe::persistence::slack::{
    advance_slack_thread_poll_generation, check_slack_thread_discovery, check_slack_thread_poll,
    discovered_in, polled_entry, slack_threads_to_poll, upsert_slack_thread,
    DiscoveredSlackThread, SlackThreadKey,
};
use lethe::persistence::sql::SqlValue;
use lethe::runtime::partition::{
    initialize_event_json, parse_partition_event, routing_key, PartitionTree, RoutedObservation,
    PARTITION_EVENT_INITIALIZE, PARTITION_EVENT_SPLIT_COMMIT, PARTITION_EVENT_SPLIT_PREPARE,
};
use lethe::text_map::TextMap;
use lethe::time::Timestamp;

fn leaf_id() -> String {
    format!("lake:{}", uuid::Uuid::now_v7())
}

fn instant(value: &str) -> Timestamp {
    let time = chrono::DateTime::parse_from_rfc3339(value).unwrap().to_utc();
    Timestamp::new(time.timestamp(), time.timestamp_subsec_nanos()).unwrap()
}

fn convert(value: &serde_json::Value) -> Json {
    match value {
        serde_json::Value::Null => Json::Null,
        serde_json::Value::Bool(b) => Json::Bool(*b),
        serde_json::Value::Number(n) => Json::UInt(n.as_u64().unwrap()),
        serde_json::Value::String(s) => Json::Str(s.clone()),
        serde_json::Value::Array(items) => Json::Array(items.iter().map(convert).collect()),
        serde_json::Value::Object(map) => {
            Json::Object(map.iter().map(|(k, v)| (k.clone(), convert(v))).collect())
        }
    }
}

fn json(source: &str) -> Json {
    convert(&serde_json::from_str(source).unwrap())
}

fn observation(id: &str, key: &str, published: &str, meta: &str) -> Observation {
    Observation {
        id: ObservationId::new(id),
        schema: SchemaRef::new("schema:slack-message"),
        schema_version: SemVer::new("1.0.0"),
        observer: ObserverRef::new("obs:slack"),
        source_system: Some(SourceSystemRef::new("sys:slack")),
        actor: None,
        authority_model: AuthorityModel::LakeAuthoritative,
        capture_model: CaptureModel::Event,
        subject: EntityRef::new("message:slack:1"),
        target: None,
        payload: object(vec![]),
        attachments: vec![],
        published: instant(published),
        recorded_at: instant("2026-05-01T00:00:00Z"),
        consent: None,
        idempotency_key: IdempotencyKey::new(key),
        meta: json(meta),
    }
}

fn april(id: &str, canonical: &str) -> Observation {
    let meta = serde_json::Value::String(canonical.to_owned()).to_string();
    observation(
        id,
        "key:1",
        "2026-04-03T01:02:03Z",
        &format!("{{\"canonical_json\":{meta},\"source_container\":\"channel:C01\"}}"),
    )
}

fn tree(root: &str) -> PartitionTree {
    PartitionTree::from_events(&[parse_partition_event(
        PARTITION_EVENT_INITIALIZE,
        &initialize_event_json(root).unwrap(),
    )
    .unwrap()])
    .unwrap()
}

fn existing(canonical: &str) -> ExistingObservation {
    ExistingObservation {
        id: ObservationId::new("obs:0"),
        canonical_json_sha256: canonical_json_sha256(canonical),
        canonical_json: Some(canonical.to_owned()),
    }
}

fn broken(message: &str) -> PersistenceError {
    PersistenceError::SchemaInvariant(message.to_owned())
}

#[test]
fn new_observations_are_routed_and_digested() {
    let root = leaf_id();
    let step = append_step(&tree(&root), &april("obs:1", "{}"), None).unwrap();
    match step {
        AppendStep::Insert(row) => {
            assert_eq!(row.leaf_id, root);
            assert_eq!(row.identity_key, "key:1");
            assert_eq!(
                row.canonical_json_sha256,
                "44136fa355b3678a1146ad16f7e8649e94fb4fc21fe77e8310c060f61caaff8a"
            );
            assert!(row.routing_key.starts_with("04\u{1f}2026\u{1f}sys:slack"));
        }
        other => panic!("{other:?}"),
    }
}

#[test]
fn known_identities_are_duplicates_or_collisions() {
    let tree = tree(&leaf_id());
    match append_step(&tree, &april("obs:1", "{}"), Some(&existing("{}"))).unwrap() {
        AppendStep::Known(DurableAppendOutcome::Duplicate(id)) => {
            assert_eq!(id.as_str(), "obs:0");
            assert!(discovered_in(&DurableAppendOutcome::Duplicate(id)).is_some());
        }
        other => panic!("{other:?}"),
    }
    match append_step(&tree, &april("obs:1", "{\"a\":1}"), Some(&existing("{}"))).unwrap() {
        AppendStep::Known(DurableAppendOutcome::CanonicalCollision(id)) => {
            assert_eq!(id.as_str(), "obs:0");
            let outcome = DurableAppendOutcome::CanonicalCollision(id);
            assert!(discovered_in(&outcome).is_none());
            assert!(persist_outcome(outcome).is_err());
        }
        other => panic!("{other:?}"),
    }
    let bare = observation("obs:1", "key:1", "2026-04-03T01:02:03Z", "{}");
    assert!(append_step(&tree, &bare, None).is_err());
}

fn keyed(id: &str, key: &str, canonical: &str) -> Observation {
    let mut made = april(id, canonical);
    made.idempotency_key = IdempotencyKey::new(key);
    made
}

#[test]
fn batches_recognise_what_they_wrote_themselves() {
    let tree = tree(&leaf_id());
    let batch = vec![
        keyed("obs:1", "key:a", "{}"),
        keyed("obs:2", "key:b", "{}"),
        keyed("obs:3", "key:a", "{}"),
        keyed("obs:4", "key:a", "{\"x\":1}"),
    ];
    let known = vec![None, Some(existing("{}")), None, None];
    let steps = append_observations_in_transaction(&tree, &batch, &known).unwrap();
    let outcomes = steps
        .into_iter()
        .zip(&batch)
        .map(|(step, observation)| outcome_of_step(step, &observation.id))
        .collect::<Vec<_>>();
    assert_eq!(
        outcomes,
        vec![
            DurableAppendOutcome::Appended(ObservationId::new("obs:1")),
            DurableAppendOutcome::Duplicate(ObservationId::new("obs:0")),
            DurableAppendOutcome::Duplicate(ObservationId::new("obs:1")),
            DurableAppendOutcome::CanonicalCollision(ObservationId::new("obs:1")),
        ]
    );

    let mut faulty = keyed("obs:5", "key:c", "{}");
    faulty.meta = json("{\"source_container\":\"channel:C01\"}");
    assert_eq!(
        append_observations_in_transaction(
            &tree,
            &[keyed("obs:6", "key:d", "{}"), faulty],
            &vec![None, None],
        )
        .err(),
        Some(broken("observation.meta.canonical_json is required for durable ingest"))
    );
}

#[test]
fn bridged_batches_count_duplicates_and_new_observations() {
    let steps = vec![
        (DurableAppendOutcome::Duplicate(ObservationId::new("obs:1")), true),
        (DurableAppendOutcome::Appended(ObservationId::new("obs:2")), false),
        (DurableAppendOutcome::Duplicate(ObservationId::new("obs:3")), false),
        (DurableAppendOutcome::CanonicalCollision(ObservationId::new("obs:4")), true),
    ];
    let (hits, appended) = bridged_batch(&steps);
    assert_eq!(hits, 1);
    assert_eq!(appended, vec![ObservationId::new("obs:2")]);

    assert!(check_bridge_batch(1).is_ok());
    assert_eq!(
        check_bridge_batch(0).err(),
        Some(StorageError::Invariant(
            "identity bridge batch size must be greater than zero".to_owned()
        ))
    );
}

#[test]
fn rehomed_observations_keep_or_recompute_their_identity() {
    let kept = rehomed(april("obs:1", "{}"), &RehomeMode::StoredIdentity).unwrap();
    assert_eq!(kept, april("obs:1", "{}"));
    let bare = observation("obs:1", "key:1", "2026-04-03T01:02:03Z", "{}");
    assert_eq!(
        rehomed(bare, &RehomeMode::StoredIdentity).unwrap_err(),
        broken("rehome mode StoredIdentity requires observation.meta.canonical_json")
    );
    let mode = RehomeMode::RecomputedIdentity {
        identity_key: IdempotencyKey::new("key:2"),
        canonical_json: "{\"b\":2}".to_owned(),
    };
    let moved = rehomed(april("obs:1", "{}"), &mode).unwrap();
    assert_eq!(moved.idempotency_key.as_str(), "key:2");
    assert_eq!(moved.meta.get_str("canonical_json"), Some("{\"b\":2}"));
    assert_eq!(moved.meta.get_str("source_container"), Some("channel:C01"));
    assert_eq!(moved.id.as_str(), "obs:1");
}

fn bridged(seq: u64, canonical: &str) -> StoredObservation {
    let text = serde_json::Value::String(canonical.to_owned()).to_string();
    StoredObservation {
        leaf_id: "lake:x".to_owned(),
        append_seq: seq,
        observation: observation(
            &format!("obs:{seq}"),
            &format!("key:{seq}"),
            "2026-04-03T01:02:03Z",
            &format!(
                "{{\"canonical_json\":{text},\"source_instance\":\"slack:T1\",\"object_id\":\"m1\"}}"
            ),
        ),
    }
}

#[test]
fn identities_of_older_observations_are_bridged() {
    let first = bridged(1, "{}");
    assert_eq!(
        observation_identity_inputs(&first.observation).unwrap(),
        ("slack:T1".to_owned(), "m1".to_owned(), "{}".to_owned())
    );
    let key = bridge_identity_key("slack:T1", "m1", "{}");
    assert_eq!(key, format!("slack:T1:m1:{}", canonical_json_sha256("{}")));
    match bridge_entry(&first.observation) {
        BridgeEntry::Candidate { v2_identity_key, source_instance_id, canonical_json } => {
            assert_eq!(v2_identity_key, key);
            assert_eq!(source_instance_id, "slack:T1");
            assert_eq!(canonical_json, "{}");
        }
        other => panic!("{other:?}"),
    }
    let mut nameless = bridged(2, "{}");
    nameless.observation.meta = json("{\"canonical_json\":\"{}\"}");
    match bridge_entry(&nameless.observation) {
        BridgeEntry::Gap { reason, .. } => {
            assert_eq!(reason, "meta.source_instance is missing or blank");
        }
        other => panic!("{other:?}"),
    }
    let (entries, watermark) = bridge_batch(0, &[first, nameless]);
    assert_eq!(entries.len(), 2);
    assert_eq!(watermark, 2);
    assert_eq!(bridge_batch(5, &[]).1, 5);
    let mut renewed = bridged(1, "{}").observation;
    assert_eq!(
        v2_identity(&renewed, "slack:T1").unwrap_err(),
        broken("v2 observation obs:1 identity does not match bridge formula")
    );
    renewed.idempotency_key = IdempotencyKey::new(&key);
    let (v2, canonical) = v2_identity(&renewed, "slack:T1").unwrap();
    assert_eq!((v2, canonical.as_str()), (key, "{}"));
    assert!(v2_identity(&renewed, "slack:T2").is_err());
}

#[test]
fn bridges_answer_with_the_oldest_candidate() {
    let candidates = vec![
        BridgeCandidate {
            observation_id: ObservationId::new("obs:1"),
            append_seq: 1,
            canonical_json: "{}".to_owned(),
        },
        BridgeCandidate {
            observation_id: ObservationId::new("obs:4"),
            append_seq: 4,
            canonical_json: "{}".to_owned(),
        },
    ];
    let found = resolve_bridge("k", "{}", &candidates);
    assert_eq!(found.winner.as_ref().unwrap().as_str(), "obs:1");
    assert_eq!(found.multiplicity, 2);
    assert!(!found.canonical_collision);
    assert!(matches!(
        bridged_step(&found),
        BridgedStep::Known(DurableAppendOutcome::Duplicate(_))
    ));
    let other = resolve_bridge("k", "{\"a\":1}", &candidates);
    assert!(other.canonical_collision);
    assert!(matches!(
        bridged_step(&other),
        BridgedStep::Known(DurableAppendOutcome::CanonicalCollision(_))
    ));
    assert!(matches!(bridged_step(&resolve_bridge("k", "{}", &[])), BridgedStep::Append));
}

#[test]
fn blobs_are_named_by_their_digest() {
    let (reference, file) = blob_ref_of(b"abc");
    assert_eq!(file, "ba7816bf8f01cfea414140de5dae2223b00361a396177a9cb410ff61f20015ad");
    assert_eq!(reference.as_str(), format!("blob:sha256:{file}"));
    let refs = vec![reference.as_str().to_owned(), "elsewhere:x".to_owned()];
    let files = vec![file, "orphan".to_owned(), "x".to_owned()];
    assert_eq!(orphan_files(&refs, &files), vec!["orphan", "x"]);
}

#[test]
fn oversized_blobs_are_refused_before_anything_is_written() {
    assert!(check_blob_size(4, 4).is_ok());
    assert_eq!(
        check_blob_size(5, 4),
        Err(StorageError::Invariant("blob size 5 exceeds configured maximum 4".to_owned()))
    );
    assert!(check_blob_batch(&[1, 4, 0], 4).is_ok());
    assert_eq!(
        check_blob_batch(&[1, 6, 7], 4),
        Err(StorageError::Invariant(
            "blob at batch index 1 has size 6 exceeding configured maximum 4".to_owned()
        ))
    );
    let names = vec!["b".to_owned(), "a".to_owned(), "b".to_owned()];
    assert_eq!(unique_files(&names), vec!["a", "b"]);
    assert_eq!(writer_chunk(0, 4), 1);
    assert_eq!(writer_chunk(20, 4), 5);
    assert_eq!(writer_chunk(17, 64), 3);
    assert_eq!(writer_chunk(2, 64), 1);
}

#[test]
fn secrets_are_sealed_and_opened() {
    let key = [7u8; 32];
    let secret = put_encrypted_secret(&key, "slack", b"token").unwrap();
    assert_eq!(secret.nonce.len(), 12);
    assert_ne!(secret.ciphertext, b"token");
    assert_eq!(get_encrypted_secret(&key, &secret).unwrap(), b"token");
    let again = put_encrypted_secret(&key, "slack", b"token").unwrap();
    assert_ne!(again.nonce, secret.nonce);
    assert_eq!(
        get_encrypted_secret(&[8u8; 32], &secret).unwrap_err(),
        broken("secret decryption failed")
    );
    let short = EncryptedSecret { nonce: vec![0; 11], ciphertext: vec![] };
    assert_eq!(
        get_encrypted_secret(&key, &short).unwrap_err(),
        broken("stored secret nonce has invalid length")
    );
    for (name, plain) in [(" ", b"token".as_slice()), ("slack", b"".as_slice())] {
        assert_eq!(
            put_encrypted_secret(&key, name, plain).unwrap_err(),
            broken("secret_ref and plaintext must not be empty")
        );
    }
}

fn thread(ts: &str) -> SlackThreadKey {
    SlackThreadKey {
        source_instance: "slack:T1".to_owned(),
        channel_id: "C1".to_owned(),
        thread_ts: ts.to_owned(),
    }
}

#[test]
fn threads_are_noted_and_polled_in_turn() {
    let fresh = upsert_slack_thread(None, &thread("2.0"), 3, 9).unwrap();
    assert_eq!(fresh.reply_cursor, "2.0");
    assert!(fresh.active);
    let polled = polled_entry(Some(fresh), &thread("2.0"), "2.5", false, 6).unwrap();
    assert_eq!(polled.discovered_append_seq, 9);
    let again = upsert_slack_thread(Some(polled), &thread("2.0"), 4, 12).unwrap();
    assert!(again.active);
    assert_eq!(again.reply_cursor, "2.5");
    assert_eq!(again.next_poll_generation, 4);
    assert_eq!(again.discovered_append_seq, 9);

    let quiet = polled_entry(
        Some(upsert_slack_thread(None, &thread("1.0"), 3, 5).unwrap()),
        &thread("1.0"),
        "1.0",
        false,
        5,
    )
    .unwrap();
    let later = polled_entry(
        Some(upsert_slack_thread(None, &thread("3.0"), 3, 5).unwrap()),
        &thread("3.0"),
        "3.0",
        false,
        6,
    )
    .unwrap();
    let queue =
        slack_threads_to_poll("slack:T1", "C1", vec![quiet, later, again], 5, 5, 10).unwrap();
    assert_eq!(
        queue.iter().map(|e| e.key.thread_ts.as_str()).collect::<Vec<_>>(),
        vec!["2.0", "1.0"]
    );
    let first = slack_threads_to_poll("slack:T1", "C1", queue, 5, 5, 1).unwrap();
    assert_eq!(first.len(), 1);
    assert_eq!(first[0].key.thread_ts, "2.0");
}

#[test]
fn faulty_threads_are_refused() {
    let message = |r: Result<(), PersistenceError>| match r {
        Err(PersistenceError::SchemaInvariant(m)) => m,
        other => panic!("{other:?}"),
    };
    let found = |ts: &str, seq: u64| DiscoveredSlackThread {
        key: thread(ts),
        observation_append_seq: seq,
    };
    assert!(check_slack_thread_discovery(2, 5, 9, &[found("1", 3), found("2", 5)]).is_ok());
    assert_eq!(
        message(check_slack_thread_discovery(6, 5, 9, &[])),
        "Slack thread discovery high-water cannot regress from 6 to 5"
    );
    assert_eq!(
        message(check_slack_thread_discovery(2, 10, 9, &[])),
        "Slack thread discovery high-water 10 exceeds observation tail 9"
    );
    assert_eq!(
        message(check_slack_thread_discovery(2, 5, 9, &[found("1", 2)])),
        "Slack thread discovery sequence 2 is outside (2, 5]"
    );
    assert_eq!(
        message(check_slack_thread_discovery(2, 5, 9, &[found(" ", 3)])),
        "Slack thread thread_ts must not be blank"
    );
    assert_eq!(advance_slack_thread_poll_generation(4).unwrap(), 5);
    assert!(advance_slack_thread_poll_generation(u64::MAX).is_err());
    assert!(check_slack_thread_poll(&thread("1"), "1.5", 4, 5, 4).is_ok());
    assert_eq!(
        message(check_slack_thread_poll(&thread("1"), "1.5", 4, 4, 4)),
        "Slack thread next poll generation 4 must be after completed generation 4"
    );
    assert_eq!(
        message(check_slack_thread_poll(&thread("1"), "1.5", 4, 5, 6)),
        "Slack thread poll completed generation 4, current generation is 6"
    );
    assert_eq!(
        polled_entry(None, &thread("1"), "1.5", true, 5).unwrap_err(),
        broken("Slack thread catalog entry not found for slack:T1:C1:1")
    );
    assert_eq!(
        upsert_slack_thread(None, &thread("1"), 1, 0).unwrap_err(),
        broken("Slack thread discovery append sequence must be positive")
    );
    assert_eq!(
        slack_threads_to_poll("slack:T1", "C1", vec![], 1, 1, 0).unwrap_err(),
        broken("Slack thread poll limit must be greater than zero")
    );
    assert_eq!(
        slack_threads_to_poll("slack:T1", "C1", vec![], 1, 2, 3).unwrap_err(),
        broken("Slack thread queue requested generation 1, current generation is 2")
    );
}

fn routed(id: &str, month: u32) -> RoutedObservation {
    RoutedObservation {
        observation_id: id.to_owned(),
        routing_key: routing_key(
            instant(&format!("2026-{month:02}-03T01:02:03Z")),
            "sys:slack",
            "channel:C01",
        )
        .unwrap(),
    }
}

#[test]
fn full_leaves_are_split() {
    let (root, left, right) = (leaf_id(), leaf_id(), leaf_id());
    let tree = tree(&root);
    let list = vec![routed("a", 4), routed("b", 5)];
    let leaves = vec![list];
    assert!(split_leaf_if_capacity(&tree, &leaves, 3, &left, &right).unwrap().is_none());
    assert_eq!(
        split_leaf_if_capacity(&tree, &leaves, 0, &left, &right).unwrap_err(),
        broken("leaf capacity must be greater than zero")
    );
    assert_eq!(
        check_leaf_capacity(0).unwrap_err(),
        broken("leaf capacity must be greater than zero")
    );
    let split = split_leaf_if_capacity(&tree, &leaves, 2, &left, &right).unwrap().unwrap();
    let list = &leaves[0];
    assert_eq!(split.plan.bit_index, 15);
    assert_eq!(split.commit.next_tree.current_leaf_ids(), vec![left.clone(), right.clone()]);
    for (item, target) in list.iter().zip(&split.plan.rehome_targets) {
        assert_eq!(split.commit.next_tree.route(&item.routing_key), target.target_leaf_id);
    }
    let rows = vec![
        (PARTITION_EVENT_INITIALIZE.to_owned(), initialize_event_json(&root).unwrap()),
        (PARTITION_EVENT_SPLIT_PREPARE.to_owned(), split.prepare_json),
        (PARTITION_EVENT_SPLIT_COMMIT.to_owned(), split.commit.event_json),
    ];
    assert_eq!(rebuild_partition_tree_from_log(&rows).unwrap(), split.commit.next_tree);
    assert_eq!(
        append_split_commit(&split.commit.next_tree, &root, &leaf_id(), &leaf_id(), 1).unwrap_err(),
        broken(&format!("split parent is already retired: {root}"))
    );
    let bad = vec![("unknown".to_owned(), "{}".to_owned())];
    assert_eq!(
        rebuild_partition_tree_from_log(&bad).unwrap_err(),
        broken("unknown partition event type: unknown")
    );
    assert!(append_split_prepare(&root, &left, &right).is_ok());
    assert!(append_failover("lake:none", "spool:none").is_err());
    assert!(append_recover(&root, &format!("spool:{}", uuid::Uuid::now_v7())).is_ok());
    assert!(partition_tree_snapshot(None).is_err());
    assert!(partition_tree_snapshot(Some(&tree)).is_ok());
}

#[test]
fn logs_are_opened_under_the_compiled_rules() {
    let root = leaf_id();
    let opening = ensure_partition_initialize(None, &root).unwrap().unwrap();
    let same = (opening.routing_keyspec_json.as_str(), opening.identity_keyspec_json.as_str());
    assert!(ensure_partition_initialize(Some(same), &root).unwrap().is_none());
    assert_eq!(
        ensure_partition_initialize(Some(("{}", same.1)), &root).unwrap_err(),
        broken(
            "partition initialize keyspec does not match compiled keyspec; use blue/green migration"
        )
    );
    assert!(parse_partition_event(PARTITION_EVENT_INITIALIZE, &opening.event_json).is_ok());
    assert!(ensure_partition_initialize(None, "root").is_err());
}

#[test]
fn key_rules_are_changed_beside_the_old_structure() {
    let root = leaf_id();
    assert_eq!(
        blue_green_migrate(
            "routing-keyspec/v1",
            "identity-keyspec/v1",
            &vec![],
            vec![april("obs:1", "{}")],
            &root,
            |_: &Observation| panic!("nothing is transformed"),
        )
        .unwrap_err(),
        broken("blue/green migration requires a changed keyspec version")
    );
    let log = vec![LogRow {
        event_seq: 1,
        event_type: "initialize".to_owned(),
        event_json: "{}".to_owned(),
    }];
    let plan = blue_green_migrate(
        "routing-keyspec/v2",
        "identity-keyspec/v1",
        &log,
        vec![],
        &root,
        |_: &Observation| panic!("nothing is transformed"),
    )
    .unwrap();
    assert!(plan.observations.is_empty());
    assert_eq!(
        plan.retired_log_json,
        "[{\"event_seq\":1,\"event_type\":\"initialize\",\"event_json\":\"{}\"}]"
    );
    assert_eq!(plan.opening.routing_keyspec_json, "{\"version\":\"routing-keyspec/v2\"}");
    let rows = vec![(PARTITION_EVENT_INITIALIZE.to_owned(), plan.opening.event_json)];
    let tree = rebuild_partition_tree_from_log(&rows).unwrap();
    assert_eq!(tree.current_leaf_ids(), vec![root.clone()]);
    let transform = BlueGreenTransform {
        identity_key: IdempotencyKey::new("key:v2"),
        canonical_json: "{\"v\":2}".to_owned(),
        routing_key: "route".to_owned(),
    };
    let (moved, row) = green_observation(april("obs:1", "{}"), &transform, &root);
    assert_eq!(moved.idempotency_key.as_str(), "key:v2");
    assert_eq!(moved.meta.get_str("canonical_json"), Some("{\"v\":2}"));
    assert_eq!(row.leaf_id, root);
    assert_eq!(row.routing_key, "route");
    assert_eq!(row.canonical_json_sha256, canonical_json_sha256("{\"v\":2}"));
}

#[test]
fn pages_are_read_with_bounds() {
    let page = observation_page(4, 10).unwrap();
    assert_eq!(page.values, vec![SqlValue::Integer(4), SqlValue::Integer(10)]);
    assert_eq!(
        observation_page(4, 0).unwrap_err(),
        broken("observation page limit must be greater than zero")
    );
    assert!(matches!(observation_page(u64::MAX, 1), Err(PersistenceError::Sqlite(_))));
    assert_eq!(observations_for_leaf_after("lake:a", 1, 2).unwrap().values.len(), 3);
    assert!(observations_for_leaf_after("lake:a", 1, 0).is_err());
    assert_eq!(
        observations_for_privacy_key(" ").unwrap_err(),
        broken("privacy key must not be blank")
    );
    assert_eq!(observations_for_privacy_key("k").unwrap().values.len(), 1);
    assert_eq!(supplemental_page(None, 3).unwrap().values, vec![SqlValue::Integer(3)]);
    assert_eq!(supplemental_page(Some("t"), 3).unwrap().values.len(), 2);
    let cursor = AuditEventCursor { timestamp: "t".to_owned(), id: "i".to_owned() };
    assert_eq!(audit_event_page(Some(&cursor), 3).unwrap().values.len(), 3);
    assert!(audit_event_page(None, 0).is_err());
    assert_eq!(retention_modifier(30).unwrap(), "-30 days");
    assert!(retention_modifier(0).is_err());
    assert!(check_integrity("ok").is_ok());
    assert_eq!(
        check_integrity("bad page").unwrap_err(),
        broken("SQLite quick_check failed: bad page")
    );
    let stored = indexed_observation("obs:1", "lake:a".to_owned(), 3, april("obs:1", "{}"));
    assert_eq!(stored.unwrap().append_seq, 3);
    assert!(indexed_observation("obs:2", "lake:a".to_owned(), 3, april("obs:1", "{}")).is_err());
}

fn item(key: &str, owner: &str, sort: &str) -> ProjectionItem {
    ProjectionItem {
        item_key: key.to_owned(),
        owner_key: owner.to_owned(),
        sort_key: sort.to_owned(),
        value: json("{\"blob\":\"blob:sha256:abc\"}"),
    }
}

#[test]
fn projection_items_are_replaced_or_changed() {
    let projection = ProjectionRef::new("proj:person-page");
    let none = ProjectionItems::new();
    let replace = ProjectionItemCommit::Replace { items: vec![item("a", "o", "1")] };
    assert!(require_delta(&replace).is_err());
    let one = commit_projection_items(&projection, &none, &replace).unwrap();
    assert!(one.contains("a"));
    let delta = ProjectionItemCommit::Delta {
        inserts: vec![item("b", "o", "2")],
        updates: vec![],
        deletes: vec!["a".to_owned()],
    };
    assert!(require_delta(&delta).is_ok());
    let two = commit_projection_items(&projection, &one, &delta).unwrap();
    assert!(!two.contains("a"));
    assert_eq!(two.get("b").unwrap().sort_key, "2");
    assert!(commit_projection_items(&projection, &two, &delta).is_err());
    let empty = ProjectionItemCommit::Replace { items: vec![item("", "o", "1")] };
    assert!(commit_projection_items(&projection, &two, &empty).is_err());
    assert!(require_new_supplemental("sup:1", 1).is_ok());
    assert!(require_new_supplemental("sup:1", 0).is_err());
}

#[test]
fn projection_pages_are_read_by_keyset() {
    let projection = ProjectionRef::new("proj:person-page");
    let owners = vec!["o".to_owned()];
    let query =
        projection_items_page(&projection, "store", &owners, Some("p"), Some("1"), 5).unwrap();
    assert!(query.sql.contains("sort_key"));
    assert!(projection_items_page(&projection, "store", &owners, None, None, 0).is_err());
    assert!(matches!(parse_page_start("plain").unwrap(), PageStart::AfterSortKey(_)));
    assert_eq!(collect_blob_refs(&item("a", "o", "1").value), vec!["blob:sha256:abc"]);
    assert!(!consent_scope(&projection, "o").is_empty());
    let manifest = json("{\"a\":1,\"b\":2}");
    let stored = vec!["a".to_owned(), "c".to_owned()];
    let write = manifest_fields(&manifest, &stored).unwrap();
    assert_eq!(write.dropped, vec!["c"]);
    let written: Vec<&str> = write.written.iter().map(|field| field.0.as_str()).collect();
    assert_eq!(written, vec!["a", "b"]);
    assert!(manifest_fields(&json("[]"), &vec![]).is_err());
    let mark = projection_leaf_watermark(&projection, "lake:a", None);
    assert_eq!(mark.append_seq, 0);
    assert!(commit_projection_leaf_watermark(3, 3).is_ok());
    assert!(commit_projection_leaf_watermark(3, 2).is_err());
}

#[test]
fn staged_generations_are_published_at_once() {
    let mut generations = ProjectionGenerations::new();
    let target = ProjectionRef::new("target");
    let staging = ProjectionRef::new("staging");
    generations.materialize(&target, "target");
    generations.materialize(&staging, "gen:2");
    assert!(generations
        .move_head(&target, &staging, 2, 3)
        .is_err());
    assert_eq!(generations.active_storage_projection_id(&target), Some("target"));
    generations
        .move_head(&target, &staging, 3, 3)
        .unwrap();
    assert_eq!(generations.active_storage_projection_id(&target), Some("gen:2"));
    assert_eq!(generations.active_storage_projection_id(&staging), None);
    assert_eq!(generations.next_retired(), Some("target"));
    let report = generations.cleanup_retired_projection_generation(5, 0, 3);
    assert_eq!(report.deleted_items, 3);
    assert!(report.has_more);
    let report = generations.cleanup_retired_projection_generation(2, 1, 10);
    assert_eq!((report.deleted_items, report.deleted_visible_blob_refs), (2, 1));
    assert!(!report.has_more);
    assert_eq!(generations.next_retired(), None);
    let head = |a: &str, b: &str| (a.to_owned(), b.to_owned());
    assert!(ProjectionGenerations::restore(vec![head("a", "g")], vec!["h".to_owned()]).is_some());
    assert!(ProjectionGenerations::restore(vec![head("a", "g")], vec!["g".to_owned()]).is_none());
    assert!(
        ProjectionGenerations::restore(vec![head("a", "g"), head("a", "h")], vec![]).is_none()
    );
}

fn complete_state() -> SchemaState {
    let mut state = SchemaState { migrations: vec![], objects: vec![], columns: vec![] };
    for i in 0..MIGRATION_COUNT {
        state
            .migrations
            .push((FIRST_SCHEMA_VERSION + i as i64, name_of_migration(i).to_owned()));
    }
    for (kind, name) in [
        ("index", "observations_identity_append"),
        ("table", "observation_stats"),
        ("table", "projection_manifest_fields"),
        ("index", "audit_events_timestamp_id"),
        ("table", "operational_event_stats"),
        ("index", "operational_events_correlation_cursor"),
        ("index", "operational_events_stream_cursor"),
        ("index", "operational_events_causation_cursor"),
        ("index", "operational_events_type_cursor"),
        ("index", "operational_events_actor_cursor"),
        ("index", "operational_events_occurred_cursor"),
        ("index", "operational_events_stream_occurred_cursor"),
        ("table", "projection_visible_blob_refs"),
        ("index", "projection_visible_blob_refs_lookup"),
        ("index", "projection_visible_blob_refs_subject_lookup"),
        ("table", "observation_privacy_keys"),
        ("index", "observation_privacy_keys_append"),
        ("table", "identity_bridge_candidates"),
        ("table", "identity_bridge_gaps"),
        ("table", "identity_bridge_watermark"),
        ("table", "cutover_transition_log"),
        ("table", "cutover_credentials"),
        ("table", "cutover_unit_metrics"),
        ("index", "identity_bridge_candidates_key_append"),
        ("index", "identity_bridge_candidates_source_append"),
        ("index", "identity_bridge_gaps_source_append"),
        ("index", "cutover_transition_unit_seq"),
        ("index", "cutover_credentials_active"),
        ("trigger", "cutover_transition_log_no_update"),
        ("trigger", "cutover_transition_log_no_delete"),
        ("table", "projection_materialization_heads"),
        ("table", "retired_projection_materializations"),
    ] {
        state.objects.push((kind.to_owned(), name.to_owned()));
    }
    for (table, column) in [
        ("operational_events", "actor_id"),
        ("operational_events", "causation_id"),
        ("operational_events", "correlation_id"),
        ("sync_metrics", "last_error"),
        ("projection_visible_blob_refs", "subject_key"),
    ] {
        state.columns.push((table.to_owned(), column.to_owned()));
    }
    state
}

#[test]
fn migrations_are_applied_once_and_in_order() {
    let fresh = SchemaState { migrations: vec![], objects: vec![], columns: vec![] };
    assert_eq!(apply_schema_migrations(&fresh).unwrap(), vec![9, 10, 11, 12, 13, 14, 15]);
    let complete = complete_state();
    assert!(apply_schema_migrations(&complete).unwrap().is_empty());
    assert_eq!(complete.migrations.last().unwrap().0, CURRENT_SCHEMA_VERSION);

    let mut upgraded = complete_state();
    upgraded.migrations.truncate(5);
    assert_eq!(apply_schema_migrations(&upgraded).unwrap(), vec![14, 15]);

    let mut gap = complete_state();
    gap.migrations.remove(4);
    assert_eq!(
        apply_schema_migrations(&gap).unwrap_err(),
        broken("schema migration v14 is recorded without prerequisite v13")
    );
    let mut renamed = complete_state();
    renamed.migrations[1].1 = "other".to_owned();
    assert_eq!(
        apply_schema_migrations(&renamed).unwrap_err(),
        broken(
            "schema migration v10 is named \"other\", expected \"append_commit_lock_split_scalars\""
        )
    );
    let mut lost = complete_state();
    lost.objects.retain(|(_, name)| name != "cutover_credentials");
    assert_eq!(
        apply_schema_migrations(&lost).unwrap_err(),
        broken("schema migration object is missing: table cutover_credentials")
    );
    let mut column = complete_state();
    column.columns.retain(|(table, _)| table != "sync_metrics");
    assert_eq!(
        apply_schema_migrations(&column).unwrap_err(),
        broken("sync_metrics column is missing: last_error")
    );
}

#[test]
fn older_tables_are_brought_up_to_date() {
    let names = |list: &[&str]| list.iter().map(|s| (*s).to_owned()).collect::<Vec<_>>();
    let current = names(&[
        "append_seq",
        "id",
        "leaf_id",
        "routing_key",
        "identity_key",
        "canonical_json_sha256",
        "recorded_at",
        "observation_json",
    ]);
    let plan = migrate_existing_schema(&current, false);
    assert!(plan.steps.is_empty() && plan.refusal.is_none());
    let legacy = names(&[
        "append_seq",
        "id",
        "identity_key",
        "canonical_json",
        "recorded_at",
        "observation_json",
    ]);
    let plan = migrate_existing_schema(&legacy, false);
    assert_eq!(
        plan.steps,
        vec![
            ColumnStep::AddLeafId,
            ColumnStep::AddRoutingKey,
            ColumnStep::BackfillRouting,
            ColumnStep::AddDigest,
            ColumnStep::BackfillDigest,
            ColumnStep::Rebuild,
        ]
    );
    assert!(plan.refusal.is_none());
    let hopeless = names(&["append_seq", "id", "leaf_id"]);
    let plan = migrate_existing_schema(&hopeless, true);
    assert_eq!(plan.steps, vec![ColumnStep::AddRoutingKey, ColumnStep::BackfillRouting]);
    assert!(plan.refusal.is_some());
    assert_eq!(
        require_observation_columns(&names(&["append_seq", "id", "leaf_id", "routing_key",
            "canonical_json_sha256", "observation_json"]))
        .unwrap_err(),
        broken("observations table is missing current schema columns: identity_key, recorded_at")
    );
    assert!(check_blob_columns(&names(&["blob_ref", "file_name"])).is_ok());
    assert!(check_blob_columns(&names(&["blob_ref", "file_path"])).is_err());
}

#[test]
fn stored_payloads_are_held_to_their_rows() {
    assert_eq!(
        legacy_digest("{}", &april("obs:1", "{}"), 4).unwrap(),
        canonical_json_sha256("{}")
    );
    assert_eq!(
        legacy_digest("{\"a\":1}", &april("obs:1", "{}"), 4).unwrap_err(),
        broken(
            "legacy observations.canonical_json differs from observation.meta.canonical_json at append_seq 4"
        )
    );
    let bare = observation("obs:1", "key:1", "2026-04-03T01:02:03Z", "{}");
    assert!(legacy_digest("{}", &bare, 4).is_err());
    assert!(check_stored_payload("obs:1", &bare).is_ok());
    assert_eq!(
        check_stored_payload("obs:2", &bare).unwrap_err(),
        broken("observation obs:2 disagrees with stored payload obs:1")
    );
}

#[test]
fn contents_that_are_no_json_leave_gaps() {
    let observation = bridged(1, "{}").observation;
    match bridge_entry_for(&observation, None) {
        BridgeEntry::Gap { reason, .. } => {
            assert_eq!(reason, "meta.canonical_json is not valid JSON")
        }
        other => panic!("{other:?}"),
    }
    assert!(matches!(
        bridge_entry_for(&observation, Some(&json("{}"))),
        BridgeEntry::Candidate { .. }
    ));
}

#[test]
fn keys_of_items_are_not_blank() {
    assert!(validate_item_key("item").is_ok());
    assert_eq!(
        validate_item_key(" ").err(),
        Some(broken("projection item item_key must not be blank"))
    );
}

#[test]
fn stored_manifests_have_fields() {
    assert!(check_stored_manifest("proj:a", &json("{}")).is_ok());
    assert_eq!(
        check_stored_manifest("proj:a", &json("[]")).err(),
        Some(broken("projection proj:a manifest must be a JSON object"))
    );
}

#[test]
fn errors_are_reported_to_users_of_the_store() {
    assert_eq!(
        storage_error(broken("x")),
        StorageError::Invariant("x".to_owned())
    );
    assert_eq!(
        storage_error(PersistenceError::CutoverAdmissionDenied("y".to_owned())),
        StorageError::CutoverAdmissionDenied("y".to_owned())
    );
    assert_eq!(broken("x").message(), "schema invariant violation: x");
    assert_eq!(PersistenceError::Io("gone".to_owned()).message(), "io error: gone");
}

#[test]
fn rounds_of_the_bridge_go_on_where_they_stopped() {
    let (first, watermark) = bridge_batch(0, &[bridged(1, "{}"), bridged(2, "{}")]);
    assert_eq!((first.len(), watermark), (2, 2));
    let (second, watermark) = bridge_batch(watermark, &[bridged(3, "{}")]);
    assert_eq!((second.len(), watermark), (1, 3));
    let (third, watermark) = bridge_batch(watermark, &[]);
    assert_eq!((third.len(), watermark), (0, 3));
}

#[test]
fn pages_show_items_that_share_a_sort_key_once() {
    let stored = [("1", "a"), ("1", "b"), ("1", "c"), ("2", "a2")];
    let mut seen = Vec::new();
    let mut cursor: Option<String> = None;
    loop {
        let start = cursor.as_deref().map(|cursor| parse_page_start(cursor).unwrap());
        let page: Vec<_> = stored
            .iter()
            .filter(|(sort_key, item_key)| match &start {
                None => true,
                Some(PageStart::AfterSortKey(s)) => *sort_key > s.as_str(),
                Some(PageStart::AfterItem(s, k)) => (*sort_key, *item_key) > (s.as_str(), k.as_str()),
            })
            .take(2)
            .collect();
        let Some((sort_key, item_key)) = page.last() else { break };
        cursor = Some(format!("{sort_key}\u{1f}{item_key}"));
        seen.extend(page.iter().map(|(_, item_key)| *item_key));
    }
    assert_eq!(seen, vec!["a", "b", "c", "a2"]);
}

#[test]
fn the_first_full_leaf_is_split() {
    let (root, left, right) = (leaf_id(), leaf_id(), leaf_id());
    let whole = vec![vec![routed("a", 4), routed("b", 5)]];
    let tree = tree(&root);
    let tree =
        split_leaf_if_capacity(&tree, &whole, 2, &left, &right).unwrap().unwrap().commit.next_tree;
    let (low, high) = (leaf_id(), leaf_id());
    // The first of the two leaves lies below the capacity.
    let leaves = vec![vec![routed("a", 4)], vec![routed("b", 5), routed("c", 7)]];
    assert_eq!(first_full_leaf(&leaves, 2), Some(1));
    let split = split_leaf_if_capacity(&tree, &leaves, 2, &low, &high).unwrap().unwrap();
    assert_eq!(split.plan.parent_leaf_id, right);
    assert_eq!(
        split.commit.next_tree.current_leaf_ids(),
        vec![left.clone(), low.clone(), high.clone()]
    );
    // Of two full leaves the first one is split; what comes behind it need not be read.
    let both = vec![vec![routed("a", 4), routed("d", 4)]];
    assert_eq!(
        split_leaf_if_capacity(&tree, &both, 2, &low, &high).unwrap_err(),
        broken("routing keys have no discriminating bit")
    );
    assert_eq!(first_full_leaf(&leaves, 3), None);
    assert!(split_leaf_if_capacity(&tree, &leaves, 3, &low, &high).unwrap().is_none());
}

fn transform_of(observation: &Observation) -> BlueGreenTransform {
    BlueGreenTransform {
        identity_key: IdempotencyKey::new(&format!("v2:{}", observation.id.as_str())),
        canonical_json: format!("{{\"of\":\"{}\"}}", observation.id.as_str()),
        routing_key: format!("route:{}", observation.id.as_str()),
    }
}

#[test]
fn migrations_keep_every_observation_in_its_place() {
    let root = leaf_id();
    let lake = || vec![april("obs:1", "{}"), april("obs:2", "{}"), april("obs:3", "{}")];
    let mut asked = Vec::new();
    let plan = blue_green_migrate(
        "routing-keyspec/v2",
        "identity-keyspec/v1",
        &vec![],
        lake(),
        &root,
        |observation: &Observation| {
            asked.push(observation.id.as_str().to_owned());
            Ok(transform_of(observation))
        },
    )
    .unwrap();
    assert_eq!(asked, vec!["obs:1", "obs:2", "obs:3"]);
    assert_eq!(plan.observations.len(), 3);
    for ((green, row), from) in plan.observations.iter().zip(lake()) {
        assert_eq!(green.id, from.id);
        assert_eq!(green.recorded_at, from.recorded_at);
        assert_eq!(green.idempotency_key.as_str(), format!("v2:{}", from.id.as_str()));
        assert_eq!(row.identity_key, format!("v2:{}", from.id.as_str()));
        assert_eq!(row.routing_key, format!("route:{}", from.id.as_str()));
        assert_eq!(row.leaf_id, root);
    }
    // The first failure ends it, and nothing behind it is transformed.
    let mut asked = 0;
    let refused = blue_green_migrate(
        "routing-keyspec/v2",
        "identity-keyspec/v1",
        &vec![],
        lake(),
        &root,
        |observation: &Observation| {
            asked += 1;
            if observation.id.as_str() == "obs:2" {
                Err(broken("no key"))
            } else {
                Ok(transform_of(observation))
            }
        },
    );
    assert_eq!(refused.unwrap_err(), broken("no key"));
    assert_eq!(asked, 2);
    let given = vec![Ok(transform_of(&lake()[0])), Err(broken("first")), Err(broken("second"))];
    let refused =
        migrate_with_transforms("routing-keyspec/v2", "v1", &vec![], lake(), given, &root);
    assert_eq!(refused.unwrap_err(), broken("first"));
}

#[test]
fn publications_bring_their_manifest() {
    let target = ProjectionRef::new("target");
    let staging = ProjectionRef::new("staging");
    let mut generations = ProjectionGenerations::new();
    generations.materialize(&target, "gen:1");
    generations.materialize(&staging, "gen:2");
    let mut manifests = TextMap::new();
    manifests.insert("target", json("{\"generation\":1}"));
    manifests.insert("staging", json("{\"page\":1}"));
    let mut projections = Projections { generations, manifests };
    let next = json("{\"generation\":2}");
    for (staging, manifest, expected) in
        [(&target, &next, 2), (&staging, &next, 3), (&staging, &json("[]"), 2)]
    {
        let refused =
            projections.publish_projection_items_from_staging(&target, staging, manifest, 2, expected);
        assert!(refused.is_err());
        assert_eq!(projections.manifest_of(&target), Some(&json("{\"generation\":1}")));
        assert_eq!(
            projections.manifest_of(&ProjectionRef::new("staging")),
            Some(&json("{\"page\":1}"))
        );
        assert_eq!(projections.generations.active_storage_projection_id(&target), Some("gen:1"));
    }
    assert_eq!(
        projections
            .publish_projection_items_from_staging(&target, &staging, &json("1"), 2, 2)
            .unwrap_err(),
        broken("projection manifest must be a JSON object")
    );
    projections.publish_projection_items_from_staging(&target, &staging, &next, 2, 2).unwrap();
    assert_eq!(projections.manifest_of(&target), Some(&next));
    assert_eq!(projections.manifest_of(&staging), None);
    assert_eq!(projections.generations.active_storage_projection_id(&target), Some("gen:2"));
    assert_eq!(projections.generations.active_storage_projection_id(&staging), None);
}
