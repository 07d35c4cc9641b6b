use lethe::json::{Json, object, object2, entry, text};
use lethe::domain::{
    AuthorityModel, CaptureModel, EntityRef, IdempotencyKey, Observation, ObservationId,
    ObserverRef, SchemaRef, SemVer, SourceSystemRef,
};
use lethe::runtime::partition::{
    checked_initialize_event_json, failover_event_json, identity_keyspec, identity_keyspec_json,
    initialize_event_json, keyspec_initialize_event_json, parse_partition_event,
    plan_capacity_split, recover_event_json, routing_key, routing_key_from_observation,
    routing_keyspec, routing_keyspec_json, split_commit_event_json, split_prepare_event_json,
    CapacitySplitPlan, PartitionError, PartitionLogEvent, PartitionTree, RoutedObservation,
    RoutingKey, SplitCutoverProtocol, SplitCutoverStep, PARTITION_EVENT_FAILOVER,
    PARTITION_EVENT_INITIALIZE, PARTITION_EVENT_RECOVER, PARTITION_EVENT_SPLIT_COMMIT,
    PARTITION_EVENT_SPLIT_PREPARE, PARTITION_SPLIT_REASON_CAPACITY,
};
use lethe::time::Timestamp;

fn leaf_id() -> String {
    format!("lake:{}", uuid::Uuid::now_v7())
}

fn instant(value: &str) -> Timestamp {
    let time = chrono::DateTime::parse_from_rfc3339(value).unwrap().to_utc();
    Timestamp::new(time.timestamp(), time.timestamp_subsec_nanos()).unwrap()
}

fn key(month: &str) -> RoutingKey {
    RoutingKey::from_axes(vec![
        month.to_owned(),
        "2026".to_owned(),
        "sys:slack".to_owned(),
        "channel:C01".to_owned(),
        "2026-04-03T01:02:03.000000000Z".to_owned(),
    ])
    .unwrap()
}

fn event(kind: &str, json: &str) -> PartitionLogEvent {
    parse_partition_event(kind, json).unwrap()
}

fn observation(source: Option<&str>, meta: Json) -> Observation {
    Observation {
        id: ObservationId::new("obs:1"),
        schema: SchemaRef::new("schema:message"),
        schema_version: SemVer::new("1.0.0"),
        observer: ObserverRef::new("obs:slack"),
        source_system: source.map(SourceSystemRef::new),
        actor: None,
        authority_model: AuthorityModel::LakeAuthoritative,
        capture_model: CaptureModel::Event,
        subject: EntityRef::new("message:slack:1"),
        target: None,
        payload: object(vec![]),
        attachments: vec![],
        published: instant("2026-04-03T01:02:03Z"),
        recorded_at: instant("2026-04-03T01:03:03Z"),
        consent: None,
        idempotency_key: IdempotencyKey::new("key:1"),
        meta,
    }
}

#[test]
fn routing_keyspec_pins_axis_order() {
    let axes = routing_keyspec()
        .axes
        .into_iter()
        .map(|axis| axis.name)
        .collect::<Vec<_>>();

    assert_eq!(
        axes,
        vec![
            "coarse_month",
            "coarse_year",
            "source",
            "container",
            "fine_published"
        ]
    );
}

#[test]
fn identity_keyspec_pins_canonical_boundary() {
    let spec = identity_keyspec();

    assert_eq!(spec.structure, "source:object_id:sha256(canonical_content)");
    assert!(spec.canonical_content.included.contains(&"body"));
    assert!(spec.canonical_content.exclude.contains(&"reactions"));
    assert!(spec.canonical_content.normalization.contains(&"unicode_nfc"));
}

#[test]
fn routing_key_uses_month_year_source_container_published_order() {
    let published = instant("2026-04-03T01:02:03.123456789Z");
    let key = routing_key(published, "sys:slack", "channel:C01").unwrap();

    assert_eq!(
        key.axes(),
        &[
            "04".to_owned(),
            "2026".to_owned(),
            "sys:slack".to_owned(),
            "channel:C01".to_owned(),
            "2026-04-03T01:02:03.123456789Z".to_owned()
        ]
    );
}

#[test]
fn split_prepare_does_not_change_replayed_tree() {
    let root = leaf_id();
    let left = leaf_id();
    let right = leaf_id();
    let initialize = event(PARTITION_EVENT_INITIALIZE, &initialize_event_json(&root).unwrap());
    let prepare = event(
        PARTITION_EVENT_SPLIT_PREPARE,
        &split_prepare_event_json(&root, &left, &right).unwrap(),
    );

    let tree = PartitionTree::from_events(&[initialize, prepare]).unwrap();

    assert_eq!(tree.current_leaf_ids(), vec![root]);
}

#[test]
fn split_commit_replays_patricia_tree_and_routes_by_bit_index() {
    let root = leaf_id();
    let left = leaf_id();
    let right = leaf_id();
    let initialize = event(PARTITION_EVENT_INITIALIZE, &initialize_event_json(&root).unwrap());
    let commit = event(
        PARTITION_EVENT_SPLIT_COMMIT,
        &split_commit_event_json(&root, &left, &right, 0).unwrap(),
    );
    let key = RoutingKey::from_axes(vec![
        "04".to_owned(),
        "2026".to_owned(),
        "sys:slack".to_owned(),
        "channel:C01".to_owned(),
        "2026-04-03T01:02:03.000000000Z".to_owned(),
    ])
    .unwrap();

    let tree = PartitionTree::from_events(&[initialize, commit]).unwrap();

    assert_eq!(tree.current_leaf_ids(), vec![left.clone(), right]);
    assert_eq!(tree.route(&key), left);
}

#[test]
fn split_commit_cannot_reuse_retired_parent() {
    let root = leaf_id();
    let left = leaf_id();
    let right = leaf_id();
    let next_left = leaf_id();
    let next_right = leaf_id();
    let initialize = event(PARTITION_EVENT_INITIALIZE, &initialize_event_json(&root).unwrap());
    let first = event(
        PARTITION_EVENT_SPLIT_COMMIT,
        &split_commit_event_json(&root, &left, &right, 2).unwrap(),
    );
    let second = event(
        PARTITION_EVENT_SPLIT_COMMIT,
        &split_commit_event_json(&root, &next_left, &next_right, 3).unwrap(),
    );

    let err = PartitionTree::from_events(&[initialize, first, second]).unwrap_err();

    assert!(matches!(err, PartitionError::SplitParentAlreadyRetired(_)));
}

#[test]
fn capacity_split_is_lazy_and_rehomes_all_parent_contents() {
    let parent = leaf_id();
    let left = leaf_id();
    let right = leaf_id();
    let april = routing_key(instant("2026-04-03T01:02:03Z"), "sys:slack", "channel:C01").unwrap();
    let may = routing_key(instant("2026-05-03T01:02:03Z"), "sys:slack", "channel:C01").unwrap();
    let routed = vec![
        RoutedObservation {
            observation_id: "obs:1".to_owned(),
            routing_key: april,
        },
        RoutedObservation {
            observation_id: "obs:2".to_owned(),
            routing_key: may,
        },
    ];

    assert!(plan_capacity_split(&parent, &routed, 3, &left, &right)
        .unwrap()
        .is_none());
    let plan = plan_capacity_split(&parent, &routed, 2, &left, &right)
        .unwrap()
        .unwrap();

    assert_eq!(plan.rehome_targets.len(), 2);
    assert!(plan
        .rehome_targets
        .iter()
        .any(|target| target.target_leaf_id == left));
    assert!(plan
        .rehome_targets
        .iter()
        .any(|target| target.target_leaf_id == right));
}

#[test]
fn split_cutover_requires_prepare_catchup_barrier_commit_order() {
    let parent = leaf_id();
    let left = leaf_id();
    let right = leaf_id();
    let plan = CapacitySplitPlan {
        parent_leaf_id: parent.clone(),
        left_child_leaf_id: left.clone(),
        right_child_leaf_id: right.clone(),
        bit_index: 8,
        rehome_targets: vec![],
    };
    let mut protocol = SplitCutoverProtocol::prepare(plan);

    let err = protocol.commit().unwrap_err();
    assert!(matches!(err, PartitionError::SplitCutoverOutOfOrder { .. }));

    protocol.catch_up().unwrap();
    protocol.enter_write_barrier().unwrap();
    let commit = protocol.commit().unwrap();

    assert_eq!(protocol.step(), SplitCutoverStep::Committed);
    assert_eq!(commit.parent_leaf_id, parent);
    assert_eq!(commit.left_child_leaf_id, left);
    assert_eq!(commit.right_child_leaf_id, right);
    assert_eq!(commit.bit_index, 8);
    assert_eq!(commit.reason, PARTITION_SPLIT_REASON_CAPACITY);
}

#[test]
fn planned_splits_route_what_they_moved() {
    let parent = leaf_id();
    let left = leaf_id();
    let right = leaf_id();
    let routed = vec![
        RoutedObservation { observation_id: "a".to_owned(), routing_key: key("04") },
        RoutedObservation { observation_id: "b".to_owned(), routing_key: key("05") },
        RoutedObservation { observation_id: "c".to_owned(), routing_key: key("07") },
    ];
    let plan = plan_capacity_split(&parent, &routed, 3, &left, &right).unwrap().unwrap();
    // "04" and "05" first differ in the last bit of their second byte, but "07" differs from both
    // in the bit before.
    assert_eq!(plan.bit_index, 14);
    let mut tree = PartitionTree::from_events(&[event(
        PARTITION_EVENT_INITIALIZE,
        &initialize_event_json(&parent).unwrap(),
    )])
    .unwrap();
    let mut protocol = SplitCutoverProtocol::prepare(plan);
    protocol.catch_up().unwrap();
    protocol.enter_write_barrier().unwrap();
    let commit = protocol.commit().unwrap();
    tree.apply_split_commit(&commit).unwrap();
    for (item, target) in routed.iter().zip(&protocol.plan().rehome_targets) {
        assert_eq!(tree.route(&item.routing_key), target.target_leaf_id);
    }
    assert_eq!(protocol.plan().rehome_targets[0].target_leaf_id, left);
    assert_eq!(protocol.plan().rehome_targets[1].target_leaf_id, left);
    assert_eq!(protocol.plan().rehome_targets[2].target_leaf_id, right);
    assert!(matches!(
        tree.apply_split_commit(&commit),
        Err(PartitionError::DuplicateLeafId(_))
    ));
}

#[test]
fn prefix_searches_find_the_leaf_of_the_key() {
    let root = leaf_id();
    let left = leaf_id();
    let right = leaf_id();
    let tree = PartitionTree::from_events(&[
        event(PARTITION_EVENT_INITIALIZE, &initialize_event_json(&root).unwrap()),
        event(
            PARTITION_EVENT_SPLIT_COMMIT,
            &split_commit_event_json(&root, &left, &right, 15).unwrap(),
        ),
    ])
    .unwrap();
    let april = key("04");
    assert_eq!(tree.route(&april), left);
    for n in 0..=5 {
        let found = tree.candidate_leaf_ids_for_prefix_axes(&april.axes()[..n]).unwrap();
        assert!(found.contains(&left));
    }
    assert_eq!(
        tree.candidate_leaf_ids_for_prefix_axes(&["05".to_owned()]).unwrap(),
        vec![right]
    );
    assert_eq!(tree.root_leaf_id(), root);
    let six = vec!["x".to_owned(); 6];
    assert!(matches!(
        tree.candidate_leaf_ids_for_prefix_axes(&six),
        Err(PartitionError::InvalidRoutingPrefixAxisCount)
    ));
}

#[test]
fn faulty_splits_are_refused() {
    let parent = leaf_id();
    let left = leaf_id();
    let right = leaf_id();
    let one = vec![RoutedObservation { observation_id: "a".to_owned(), routing_key: key("04") }];
    assert!(matches!(
        plan_capacity_split(&parent, &one, 0, &left, &right),
        Err(PartitionError::InvalidSplitCapacity)
    ));
    assert!(matches!(
        plan_capacity_split(&parent, &one, 1, &left, &right),
        Err(PartitionError::InsufficientSplitInput)
    ));
    let same = vec![
        RoutedObservation { observation_id: "a".to_owned(), routing_key: key("04") },
        RoutedObservation { observation_id: "b".to_owned(), routing_key: key("04") },
    ];
    assert!(matches!(
        plan_capacity_split(&parent, &same, 2, &left, &right),
        Err(PartitionError::NoDiscriminatingBit)
    ));
    assert!(matches!(
        plan_capacity_split("lake:none", &same, 2, &left, &right),
        Err(PartitionError::InvalidLeafId(_))
    ));
    assert!(split_prepare_event_json(&parent, &left, &left).is_err());
}

#[test]
fn log_entries_are_read_back() {
    let root = leaf_id();
    let left = leaf_id();
    let right = leaf_id();
    let spool = format!("spool:{}", uuid::Uuid::now_v7());
    let commit = split_commit_event_json(&root, &left, &right, 7).unwrap();
    assert_eq!(
        commit,
        format!(
            "{{\"parent_leaf_id\":\"{root}\",\"left_child_leaf_id\":\"{left}\",\"right_child_leaf_id\":\"{right}\",\"bit_index\":7,\"reason\":\"capacity\"}}"
        )
    );
    match event(PARTITION_EVENT_SPLIT_COMMIT, &commit) {
        PartitionLogEvent::SplitCommit(c) => {
            assert_eq!(c.bit_index, 7);
            assert_eq!(c.parent_leaf_id, root);
        }
        other => panic!("{other:?}"),
    }
    assert!(matches!(
        event(PARTITION_EVENT_FAILOVER, &failover_event_json(&root, &spool).unwrap()),
        PartitionLogEvent::Failover(_)
    ));
    assert!(matches!(
        event(PARTITION_EVENT_RECOVER, &recover_event_json(&root, &spool).unwrap()),
        PartitionLogEvent::Recover(_)
    ));
    assert!(matches!(
        failover_event_json(&root, "spool:none"),
        Err(PartitionError::InvalidLeafId(_))
    ));
    match event(
        PARTITION_EVENT_INITIALIZE,
        &keyspec_initialize_event_json(&root, "routing-keyspec/v2", "identity-keyspec/v2").unwrap(),
    ) {
        PartitionLogEvent::Initialize(e) => {
            assert_eq!(e.root_leaf_id, root);
            assert_eq!(e.routing_keyspec_version, "routing-keyspec/v2");
        }
        other => panic!("{other:?}"),
    }
}

#[test]
fn faulty_log_entries_are_refused() {
    assert!(matches!(
        checked_initialize_event_json("lake:none"),
        Err(PartitionError::InvalidLeafId(_))
    ));
    assert!(matches!(
        parse_partition_event("unknown", "{}"),
        Err(PartitionError::UnknownEventType(_))
    ));
    assert!(matches!(
        parse_partition_event(PARTITION_EVENT_INITIALIZE, "{"),
        Err(PartitionError::Json(_))
    ));
    let root = leaf_id();
    let json = initialize_event_json(&root).unwrap();
    assert!(matches!(PartitionTree::from_events(&[]), Err(PartitionError::MissingInitialize)));
    assert!(matches!(
        PartitionTree::from_events(&[
            event(PARTITION_EVENT_INITIALIZE, &json),
            event(PARTITION_EVENT_INITIALIZE, &json)
        ]),
        Err(PartitionError::DuplicateInitialize)
    ));
    let lost = split_commit_event_json(&leaf_id(), &leaf_id(), &leaf_id(), 0).unwrap();
    assert!(matches!(
        PartitionTree::from_events(&[
            event(PARTITION_EVENT_INITIALIZE, &json),
            event(PARTITION_EVENT_SPLIT_COMMIT, &lost)
        ]),
        Err(PartitionError::SplitParentNotFound(_))
    ));
    assert_eq!(
        PartitionError::EmptyRoutingAxis { axis: "source" }.message(),
        "routing axis source is empty"
    );
}

#[test]
fn routing_keys_come_from_observations() {
    let meta = object2("source_container", text("channel:C01"), "canonical_json", text("{}"));
    let found = routing_key_from_observation(&observation(Some("sys:slack"), meta)).unwrap();
    assert_eq!(
        found.encoded(),
        "04\u{1f}2026\u{1f}sys:slack\u{1f}channel:C01\u{1f}2026-04-03T01:02:03.000000000Z"
    );
    let bad = RoutingKey::from_axes(vec!["a".to_owned()]);
    assert!(matches!(bad, Err(PartitionError::InvalidRoutingAxisCount)));
    let reserved = routing_key(instant("2026-04-03T01:02:03Z"), "a\u{1f}b", "c");
    assert!(matches!(
        reserved,
        Err(PartitionError::ReservedRoutingAxisSeparator { .. })
    ));
    let empty = routing_key(instant("2026-04-03T01:02:03Z"), "", "c");
    assert!(matches!(empty, Err(PartitionError::EmptyRoutingAxis { .. })));
}

#[test]
fn keyspec_texts_name_their_versions() {
    let routing = routing_keyspec_json().unwrap();
    assert!(routing.starts_with("{\"version\":\"routing-keyspec/v1\""));
    let identity = identity_keyspec_json().unwrap();
    assert!(identity.starts_with("{\"version\":\"identity-keyspec/v1\""));
    let members = vec![entry("a", text("b"))];
    assert_eq!(object(members).get_str("a"), Some("b"));
}

#[test]
fn fields_given_twice_are_refused() {
    let leaf = leaf_id();
    let spool = format!("spool:{}", uuid::Uuid::now_v7());
    let once = format!("{{\"leaf_id\":\"{leaf}\",\"failover_id\":\"{spool}\"}}");
    assert!(parse_partition_event(PARTITION_EVENT_FAILOVER, &once).is_ok());
    let twice = format!(
        "{{\"leaf_id\":\"{leaf}\",\"failover_id\":\"a\",\"failover_id\":\"{spool}\"}}"
    );
    assert!(matches!(
        parse_partition_event(PARTITION_EVENT_FAILOVER, &twice),
        Err(PartitionError::Json(_))
    ));
    // The same name, written with an escape.
    let escaped = format!(
        "{{\"leaf_id\":\"{leaf}\",\"failover_id\":\"a\",\"failover\\u005fid\":\"{spool}\"}}"
    );
    assert!(matches!(
        parse_partition_event(PARTITION_EVENT_FAILOVER, &escaped),
        Err(PartitionError::Json(_))
    ));
    // Names that are no fields, names inside other values, and texts that look like names.
    let others = format!(
        "{{\"x\":1,\"x\":{{\"leaf_id\":\"y\"}},\"leaf_id\":\"{leaf}\",\"n\":\"\\\",leaf_id:\",\"failover_id\":\"{spool}\"}}"
    );
    assert!(parse_partition_event(PARTITION_EVENT_FAILOVER, &others).is_ok());
}

#[test]
fn entries_may_be_written_as_lists() {
    let leaf = leaf_id();
    let spool = format!("spool:{}", uuid::Uuid::now_v7());
    let list = format!("[\"{leaf}\",\"{spool}\"]");
    assert!(parse_partition_event(PARTITION_EVENT_RECOVER, &list).is_ok());
    let longer = format!("[\"{leaf}\",\"{spool}\",\"more\"]");
    assert!(parse_partition_event(PARTITION_EVENT_RECOVER, &longer).is_err());
}

#[test]
fn leaves_are_named_by_any_form_of_a_uuid() {
    let plain = "019a3f1e7c2d7b4e8f00aabbccddeeff";
    let hyphens = "019a3f1e-7c2d-7b4e-8f00-AABBCCDDEEFF";
    let named = [
        format!("lake:{plain}"),
        format!("lake:{hyphens}"),
        format!("lake:{{{hyphens}}}"),
        format!("lake:URN:uuid:{hyphens}"),
    ];
    for id in &named {
        assert!(checked_initialize_event_json(id).is_ok());
    }
    let unnamed = [
        format!("lake:{{{plain}}}"),
        format!("lake:urn:uuid:{plain}"),
        format!("lake:{}g", &plain[..31]),
        format!("lake:{}", hyphens.replace('-', "_")),
        format!("lake:{{{hyphens}"),
        "lake:".to_owned(),
        plain.to_owned(),
    ];
    for id in &unnamed {
        assert!(matches!(
            checked_initialize_event_json(id),
            Err(PartitionError::InvalidLeafId(refused)) if refused == *id
        ));
    }
}

#[test]
fn instants_are_written_in_rfc_3339_notation() {
    let at = |seconds: i64, nanos: u32| Timestamp::new(seconds, nanos).unwrap();
    assert_eq!(at(0, 0).rfc3339_nanos(), "1970-01-01T00:00:00.000000000Z");
    assert_eq!(at(0, 0).rfc3339(), "1970-01-01T00:00:00+00:00");
    assert_eq!(at(951_827_696, 120_000_000).rfc3339(), "2000-02-29T12:34:56.120+00:00");
    assert_eq!(at(951_827_696, 120_000).rfc3339(), "2000-02-29T12:34:56.000120+00:00");
    assert_eq!(at(951_827_696, 12).rfc3339(), "2000-02-29T12:34:56.000000012+00:00");
    assert_eq!(at(951_827_696, 12).rfc3339_nanos(), "2000-02-29T12:34:56.000000012Z");
    assert_eq!(at(1_483_228_799, 1_500_000_000).rfc3339(), "2016-12-31T23:59:60.500+00:00");
    assert_eq!(
        at(1_483_228_799, 1_500_000_000).rfc3339_nanos(),
        "2016-12-31T23:59:60.500000000Z"
    );
    assert_eq!(at(-1, 0).rfc3339(), "1969-12-31T23:59:59+00:00");
    assert_eq!(at(-62_167_219_200, 0).rfc3339(), "0000-01-01T00:00:00+00:00");
    assert_eq!(at(-62_167_219_201, 0).rfc3339(), "-0001-12-31T23:59:59+00:00");
    assert_eq!(at(253_402_300_800, 0).rfc3339(), "+10000-01-01T00:00:00+00:00");
    assert_eq!(at(-8_334_601_228_800, 0).rfc3339(), "-262143-01-01T00:00:00+00:00");
    assert_eq!(at(8_210_266_876_799, 0).rfc3339(), "+262142-12-31T23:59:59+00:00");
}
