use lethe::domain::{
    AuthorityModel, CaptureModel, EntityRef, IdempotencyKey, Observation, ObservationId,
    ObserverRef, SchemaRef, SemVer, SourceSystemRef,
};
use lethe::json::{entry, object, text, Json};
use lethe::persistence::cutover::{
    admission_denial, counts_as_stale, credential_ref, cutover_activate, cutover_begin_drain,
    cutover_health, cutover_readiness, cutover_register, cutover_rollback, cutover_state,
    metric_update_sql, parse_phase, record_v2_append_metrics, required_state,
    validate_cutover_unit, BridgeGap, CredentialChange, CutoverApiVersion, CutoverFixture,
    CutoverPhase, CutoverState, TransitionRow, UnitCandidate,
};
use lethe::persistence::error::{PersistenceError, StorageError};
use lethe::persistence::identity::{
    bridge_identity_key, BridgeCandidate, DurableAppendOutcome,
};
use lethe::persistence::inventory::cutover_inventory;
use lethe::persistence::operational::{
    check_event_page, check_requests, check_stream, check_stream_page, check_v2_admission,
    operational_events_by_filter, pin_data_space, start_append, Answer, OperationalAppendOutcome,
    OperationalAppendRequest, OperationalEvent, OperationalEventFilter, Stage, StoredEventRow,
};
use lethe::persistence::sql::SqlValue;
use lethe::time::Timestamp;

fn at(seconds: i64) -> Timestamp {
    Timestamp::new(seconds, 0).unwrap()
}

fn observation(id: &str, key: &str, meta: Vec<(String, Json)>) -> Observation {
    Observation {
        id: ObservationId::new(id),
        schema: SchemaRef::new("schema:message"),
        schema_version: SemVer::new("1.0.0"),
        observer: ObserverRef::new("obs:slack"),
        source_system: Some(SourceSystemRef::new("sys:slack")),
        actor: None,
        authority_model: AuthorityModel::LakeAuthoritative,
        capture_model: CaptureModel::Event,
        subject: EntityRef::new("message:1"),
        target: None,
        payload: object(vec![]),
        attachments: vec![],
        published: at(1_775_000_000),
        recorded_at: at(1_775_000_001),
        consent: None,
        idempotency_key: IdempotencyKey::new(key),
        meta: object(meta),
    }
}

fn state(unit: &str, rows: &[TransitionRow]) -> CutoverState {
    cutover_state(unit, rows, None).unwrap().unwrap()
}

/// A unit that was registered and fenced at the first observation.
fn drained(unit: &str) -> Vec<TransitionRow> {
    let mut rows = vec![cutover_register(None, "owner:test", "register").unwrap().unwrap().row];
    let fence = cutover_begin_drain(&state(unit, &rows), 1, "owner:test", "fence").unwrap();
    rows.push(fence.row);
    rows
}

fn canonical() -> String {
    "{\"body\":\"canary\"}".to_owned()
}

fn fixture(unit: &str) -> CutoverFixture {
    CutoverFixture {
        object_id: "object-1".to_owned(),
        canonical_json: canonical(),
        expected_identity_key: bridge_identity_key(unit, "object-1", &canonical()),
        expected_observation_id: Some(ObservationId::new("obs:1")),
    }
}

fn candidates() -> Vec<BridgeCandidate> {
    vec![BridgeCandidate {
        observation_id: ObservationId::new("obs:1"),
        append_seq: 1,
        canonical_json: canonical(),
    }]
}

fn unit_candidates(unit: &str) -> Vec<UnitCandidate> {
    vec![UnitCandidate {
        v2_identity_key: bridge_identity_key(unit, "object-1", &canonical()),
        canonical_json: canonical(),
    }]
}

#[test]
fn fence_activation_generation_and_rollback_boundary() {
    let mut rows = drained("unit-a");
    let draining = state("unit-a", &rows);
    assert_eq!(draining.phase, CutoverPhase::Draining);
    assert_eq!(draining.fence_append_seq, Some(1));

    let report = cutover_readiness(
        draining,
        1,
        &[],
        &unit_candidates("unit-a"),
        Some(&fixture("unit-a")),
        &candidates(),
    );
    assert!(report.ready, "{report:?}");
    let activation = cutover_activate(&report, "owner:test", "activate").unwrap();
    assert!(matches!(activation.credential, CredentialChange::Issue(CutoverApiVersion::V2)));
    rows.push(activation.row);
    let active = state("unit-a", &rows);
    assert_eq!(active.phase, CutoverPhase::V2Active);
    assert_eq!(active.generation, 2);

    let denial = |version, generation| {
        admission_denial(Some(&active), "unit-a", version, generation, true)
    };
    assert!(denial(CutoverApiVersion::V1, Some(1)).is_some());
    assert!(denial(CutoverApiVersion::V1, Some(2)).is_some());
    assert!(denial(CutoverApiVersion::V2, Some(2)).is_none());
    assert!(denial(CutoverApiVersion::V2, None).is_some());
    assert!(
        admission_denial(Some(&active), "unit-a", CutoverApiVersion::V2, Some(2), false).is_some()
    );
    assert!(counts_as_stale(CutoverApiVersion::V1, true));

    let effects =
        record_v2_append_metrics(&active, 0, &vec![2], "owner:test", "first append").unwrap();
    assert_eq!(effects.v2_ingested, 1);
    rows.push(effects.commit.unwrap().row);
    let committed = state("unit-a", &rows);
    assert_eq!(committed.phase, CutoverPhase::V2Committed);
    match cutover_rollback(&committed, "owner:test", "unsafe") {
        Err(StorageError::CutoverRollbackRefused(reason)) => {
            assert!(reason.contains("forward-fix"));
        }
        other => panic!("{other:?}"),
    }
    let health = cutover_health(committed, 2, &[], &unit_candidates("unit-a"), Some((0, 2)));
    assert_eq!(health.bridge_duplicate_hit_count, 0);
    assert_eq!(health.stale_v1_rejection_count, 2);
    assert_eq!(health.candidate_count, 1);
}

#[test]
fn rollback_before_commit_returns_to_v1() {
    let mut rows = drained("unit-b");
    let back = cutover_rollback(&state("unit-b", &rows), "owner:test", "rollback").unwrap();
    rows.push(back.row);
    let after = state("unit-b", &rows);
    assert_eq!(after.phase, CutoverPhase::V1Active);
    assert_eq!(after.generation, 2);
}

#[test]
fn broken_transition_logs_are_refused() {
    let mut rows = vec![cutover_register(None, "owner:test", "register").unwrap().unwrap().row];
    rows.push(TransitionRow {
        from_phase: "v1_active".to_owned(),
        to_phase: "v2_active".to_owned(),
        generation: 2,
        fence_append_seq: None,
        first_v2_append_seq: None,
    });
    match cutover_state("invalid-unit", &rows, None) {
        Err(PersistenceError::SchemaInvariant(reason)) => {
            assert!(reason.contains("invalid cutover transition"));
        }
        other => panic!("{other:?}"),
    }
    assert!(cutover_state("unit", &[], None).unwrap().is_none());
    assert!(required_state("unit", None).is_err());
    assert!(validate_cutover_unit(" ").is_err());
    assert!(matches!(
        parse_phase("v3"),
        Err(PersistenceError::SchemaInvariant(m)) if m == "unknown cutover phase \"v3\""
    ));
    for phase in [
        CutoverPhase::V1Active,
        CutoverPhase::Draining,
        CutoverPhase::V2Active,
        CutoverPhase::V2Committed,
    ] {
        assert_eq!(parse_phase(phase.as_str()).unwrap(), phase);
    }
}

#[test]
fn units_with_gaps_are_not_ready() {
    let report = cutover_readiness(
        state("unit-a", &drained("unit-a")),
        0,
        &[BridgeGap { append_seq: 1, source_instance_id: Some("unit-a".to_owned()) }],
        &[],
        None,
        &[],
    );
    assert!(!report.ready);
    assert!(!report.watermark_covered);
    assert_eq!(report.bridge_lag, 1);
    assert_eq!(report.unresolved_gap_count, 1);
    assert!(!report.blockers.is_empty());
    assert!(matches!(
        cutover_activate(&report, "owner:test", "activate"),
        Err(StorageError::CutoverConflict(_))
    ));
    let mut wrong = fixture("unit-a");
    wrong.expected_identity_key = "other".to_owned();
    let report = cutover_readiness(
        state("unit-a", &drained("unit-a")),
        1,
        &[],
        &unit_candidates("unit-a"),
        Some(&wrong),
        &candidates(),
    );
    assert!(!report.fixture_identity_stable);
    assert!(!report.ready);
}

#[test]
fn transitions_need_an_authority_and_the_right_phase() {
    assert!(matches!(
        cutover_register(None, " ", "register"),
        Err(StorageError::Invariant(_))
    ));
    let rows = drained("unit-a");
    assert!(cutover_register(Some(&state("unit-a", &rows)), "o", "r").unwrap().is_none());
    assert!(matches!(
        cutover_begin_drain(&state("unit-a", &rows), 4, "o", "r"),
        Err(StorageError::CutoverConflict(_))
    ));
    let name = credential_ref("unit-a", CutoverApiVersion::V2, 2);
    assert!(name.contains("unit-a") && name.contains("v2") && name.contains('2'));
    assert!(metric_update_sql("v2_ingested").is_ok());
    assert!(metric_update_sql("other").is_err());
}

fn text_member(name: &str, value: &str) -> (String, Json) {
    entry(name, text(value))
}

#[test]
fn inventories_report_shared_producers_credentials_and_renames() {
    let first = observation(
        "obs:1",
        "shared-unit:legacy:1",
        vec![
            text_member("canonical_json", "{\"body\":\"one\"}"),
            text_member("source_instance", "shared-unit"),
            text_member("object_id", "object-1"),
            text_member("producer_id", "producer-a"),
            text_member("credential_id", "credential-shared"),
        ],
    );
    let second = observation(
        "obs:2",
        "shared-unit:legacy:2",
        vec![
            text_member("canonical_json", "{\"body\":\"two\"}"),
            text_member("source_instance", "shared-unit"),
            text_member("object_id", "object-2"),
            text_member("producer_id", "producer-b"),
            text_member("credential_id", "credential-shared"),
            text_member("source_instance_id", "renamed-unit"),
        ],
    );
    let inventory = cutover_inventory(&[first, second], &vec![]);
    let item = inventory
        .iter()
        .find(|item| item.source_instance_id == "shared-unit")
        .unwrap();
    assert_eq!(item.producer_ids, vec!["producer-a", "producer-b"]);
    assert_eq!(item.credential_ids, vec!["credential-shared"]);
    for part in ["multiple producers", "one credential reference", "rename detected"] {
        assert!(item.blockers.iter().any(|blocker| blocker.contains(part)), "{part}");
    }
}

fn request(version: u64) -> OperationalAppendRequest {
    OperationalAppendRequest {
        event: OperationalEvent {
            event_id: "event:1".to_owned(),
            data_space_id: "space".to_owned(),
            stream_id: "stream".to_owned(),
            stream_version: version,
            event_type: "observed".to_owned(),
            actor_id: None,
            causation_id: None,
            correlation_id: None,
            occurred_at: at(0),
            observation: observation("obs:1", "key:1", vec![]),
        },
        expected_stream_version: version - 1,
    }
}

#[test]
fn events_are_written_where_the_stream_is_as_expected() {
    let request = request(4);
    let mut run = start_append(false);
    run.next_request();
    assert_eq!(run.stage, Stage::FindByKey);
    run.advance(&request, "sha", Answer::ByKey(None)).unwrap();
    run.advance(&request, "sha", Answer::ById(None)).unwrap();
    run.advance(&request, "sha", Answer::Version(3)).unwrap();
    assert_eq!(run.stage, Stage::AppendObservation);
    let appended = DurableAppendOutcome::Appended(ObservationId::new("obs:1"));
    run.advance(&request, "sha", Answer::Observed(appended)).unwrap();
    assert_eq!(run.stage, Stage::WriteEvent);
    run.advance(&request, "sha", Answer::Written(11)).unwrap();
    assert_eq!(run.stage, Stage::Done);
    assert_eq!(
        run.outcomes,
        vec![OperationalAppendOutcome::Appended { cursor: 11, stream_version: 4 }]
    );
    run.next_request();
    run.advance(&request, "sha", Answer::ByKey(None)).unwrap();
    run.advance(&request, "sha", Answer::ById(None)).unwrap();
    run.advance(&request, "sha", Answer::Version(9)).unwrap();
    assert_eq!(
        run.outcomes[1],
        OperationalAppendOutcome::VersionConflict { expected: 3, actual: 9 }
    );
}

#[test]
fn repeated_events_are_told_apart_from_collisions() {
    let request = request(1);
    let row = |sha: &str| StoredEventRow {
        cursor: 5,
        stream_version: 1,
        event_sha256: sha.to_owned(),
        event_id: "event:1".to_owned(),
    };
    let mut run = start_append(false);
    run.next_request();
    run.advance(&request, "sha", Answer::ByKey(Some(row("sha")))).unwrap();
    assert_eq!(
        run.outcomes,
        vec![OperationalAppendOutcome::Duplicate { cursor: 5, stream_version: 1 }]
    );
    run.next_request();
    assert!(matches!(
        run.advance(&request, "sha", Answer::ByKey(Some(row("other")))),
        Err(StorageError::OperationalIdempotencyCollision(key)) if key == "key:1"
    ));
    let mut run = start_append(false);
    run.next_request();
    run.advance(&request, "sha", Answer::ByKey(None)).unwrap();
    assert!(matches!(
        run.advance(&request, "sha", Answer::ById(Some((5, "other".to_owned())))),
        Err(StorageError::OperationalEventIdCollision(id)) if id == "event:1"
    ));
}

#[test]
fn bridged_appends_find_the_event_of_the_older_observation() {
    let request = request(1);
    let mut run = start_append(true);
    run.next_request();
    run.advance(&request, "sha", Answer::ByKey(None)).unwrap();
    assert_eq!(run.stage, Stage::AppendBridged);
    let outcome = DurableAppendOutcome::Duplicate(ObservationId::new("obs:0"));
    run.advance(&request, "sha", Answer::Bridged { outcome, bridge_hit: true }).unwrap();
    assert_eq!(run.stage, Stage::FindByObservation(ObservationId::new("obs:0")));
    run.advance(&request, "sha", Answer::ByObservation(Some((3, 1)))).unwrap();
    assert_eq!(run.bridge_hits, 1);
    assert_eq!(
        run.outcomes,
        vec![OperationalAppendOutcome::Duplicate { cursor: 3, stream_version: 1 }]
    );
    let mut run = start_append(true);
    run.next_request();
    run.advance(&request, "sha", Answer::ByKey(None)).unwrap();
    let outcome = DurableAppendOutcome::CanonicalCollision(ObservationId::new("obs:0"));
    assert!(matches!(
        run.advance(&request, "sha", Answer::Bridged { outcome, bridge_hit: false }),
        Err(StorageError::Invariant(m))
            if m == "history v2 canonical collision with observation obs:0"
    ));
}

#[test]
fn requests_and_pages_are_checked_first() {
    assert!(check_requests(&[request(1)], "space").is_ok());
    assert!(check_requests(&[request(1)], "other").is_err());
    let mut jump = request(1);
    jump.event.stream_version = 3;
    assert!(check_requests(&[jump], "space").is_err());
    assert!(check_v2_admission("unit", Some(1)).is_ok());
    assert!(check_v2_admission("unit", Some(0)).is_err());
    assert!(check_v2_admission(" ", None).is_err());
    assert!(pin_data_space("space", None).unwrap());
    assert!(!pin_data_space("space", Some("space")).unwrap());
    assert!(pin_data_space("space", Some("other")).is_err());
    assert!(pin_data_space(" ", None).is_err());
    assert!(check_event_page(0).is_err());
    assert!(check_stream_page("s", 1).is_ok());
    assert!(check_stream_page(" ", 1).is_err());
    assert!(check_stream(" ").is_err());
}

#[test]
fn filters_become_clauses() {
    let filter = OperationalEventFilter {
        correlation_id: Some("c".to_owned()),
        causation_id: None,
        event_type: None,
        stream_id: Some("s".to_owned()),
        actor_id: None,
        occurred_at_from: Some(at(0)),
        occurred_at_to: None,
    };
    let query = operational_events_by_filter(&filter, "space", 7, 20).unwrap();
    assert_eq!(
        query.sql,
        "SELECT cursor, event_json FROM operational_events WHERE data_space_id = ? AND cursor > ? AND correlation_id = ? AND stream_id = ? AND occurred_at >= ? ORDER BY cursor LIMIT ?"
    );
    assert_eq!(query.values[0], SqlValue::Text("space".to_owned()));
    assert_eq!(query.values[4], SqlValue::Text("1970-01-01T00:00:00+00:00".to_owned()));
    assert_eq!(query.values[5], SqlValue::Integer(20));
    let blank = OperationalEventFilter { correlation_id: Some(" ".to_owned()), ..filter };
    assert!(operational_events_by_filter(&blank, "space", 7, 20).is_err());
}
