use lethe::adapter::conformance::{
    canonical_identity_changes_on_content_change,
    canonical_identity_stable_under_side_state_change, source_adapter_contract, AdapterTrial,
    Heartbeat, ObservationDraft,
};
use lethe::binary64::Binary64;
use lethe::domain::{
    AuthorityModel, CaptureModel, EntityRef, IdempotencyKey, Observation, ObservationId,
    ObserverRef, SchemaRef, SemVer, SourceSystemRef,
};
use lethe::json::{boolean, object, object1, object2, text, Json};
use lethe::lake::store::{AppendOutcome, LakeStore, CANONICAL_JSON_META_KEY};
use lethe::registry::entity_type::{base_entity_types, SeedEntityType};
use lethe::time::Timestamp;

fn now() -> Timestamp {
    let time = chrono::Utc::now();
    Timestamp::new(time.timestamp(), time.timestamp_subsec_nanos()).unwrap()
}

fn canonical(key: &str, body: &str) -> Json {
    let content = format!("{{\"source\":\"test\",\"object_id\":\"{key}\",\"body\":\"{body}\"}}");
    object1(CANONICAL_JSON_META_KEY, text(&content))
}

fn sample_obs(key: &str) -> Observation {
    Observation {
        id: ObservationId::new(&uuid::Uuid::now_v7().to_string()),
        schema: SchemaRef::new("schema:test"),
        schema_version: SemVer::new("1.0.0"),
        observer: ObserverRef::new("obs:test"),
        source_system: None,
        actor: None,
        authority_model: AuthorityModel::LakeAuthoritative,
        capture_model: CaptureModel::Event,
        subject: EntityRef::new("msg:1"),
        target: None,
        payload: object(vec![]),
        attachments: vec![],
        published: now(),
        recorded_at: now(),
        consent: None,
        idempotency_key: IdempotencyKey::new(key),
        meta: canonical(key, "hello"),
    }
}

#[test]
fn append_and_get() {
    let mut lake = LakeStore::new();
    let obs = sample_obs("k1");
    let id = obs.id.clone();
    assert!(lake.append(obs).is_ok());
    assert!(lake.get(&id).is_some());
    assert_eq!(lake.len(), 1);
}

#[test]
fn duplicate_idempotency_key_rejected() {
    let mut lake = LakeStore::new();
    let o1 = sample_obs("dup");
    let o2 = sample_obs("dup");
    let id1 = lake.append(o1).unwrap();
    let result = lake.append(o2);
    assert_eq!(result, Err(id1));
    assert_eq!(lake.len(), 1);
}

#[test]
fn duplicate_identity_key_with_different_payload_is_duplicate_when_canonical_matches() {
    let mut lake = LakeStore::new();
    let o1 = sample_obs("dup-different");
    let mut o2 = sample_obs("dup-different");
    o2.payload = object1("changed", boolean(true));
    let id1 = lake.append(o1).unwrap();
    let result = lake.append_idempotent(o2);
    assert_eq!(result, AppendOutcome::Duplicate(id1));
    assert_eq!(lake.len(), 1);
}

#[test]
fn duplicate_identity_key_with_different_canonical_json_is_conflict() {
    let mut lake = LakeStore::new();
    let o1 = sample_obs("canonical-collision");
    let mut o2 = sample_obs("canonical-collision");
    o2.meta = canonical("canonical-collision", "changed");

    let id1 = lake.append(o1).unwrap();
    let result = lake.append_idempotent(o2);

    assert_eq!(result, AppendOutcome::Conflict(id1));
    assert_eq!(lake.len(), 1);
}

#[test]
fn watermark_and_since() {
    let mut lake = LakeStore::new();
    assert!(lake.watermark().is_none());

    lake.append(sample_obs("a")).unwrap();
    let wm = lake.watermark().unwrap();
    assert_eq!(wm.position, 1);

    lake.append(sample_obs("b")).unwrap();
    let since = lake.since(wm.position);
    assert_eq!(since.len(), 1);
}

#[test]
fn filter_by_schema() {
    let mut lake = LakeStore::new();
    lake.append(sample_obs("x")).unwrap();
    let hits = lake.by_schema(&SchemaRef::new("schema:test"));
    assert_eq!(hits.len(), 1);
    let misses = lake.by_schema(&SchemaRef::new("schema:other"));
    assert!(misses.is_empty());
}

#[test]
fn filters_by_subject_and_observer_keep_the_order_of_appends() {
    let mut lake = LakeStore::new();
    assert!(lake.is_empty());
    let first = lake.append(sample_obs("a")).unwrap();
    let mut other = sample_obs("b");
    other.subject = EntityRef::new("msg:2");
    lake.append(other).unwrap();
    let third = lake.append(sample_obs("c")).unwrap();
    let hits = lake.by_subject(&EntityRef::new("msg:1"));
    assert_eq!(hits.iter().map(|o| o.id.clone()).collect::<Vec<_>>(), vec![first, third]);
    assert_eq!(lake.by_observer(&ObserverRef::new("obs:test")).len(), 3);
    assert_eq!(lake.list().len(), 3);
    assert!(lake.since(7).is_empty());
}

fn draft(key: &str, meta: Json) -> ObservationDraft {
    ObservationDraft {
        observer: ObserverRef::new("obs:slack"),
        source_system: Some(SourceSystemRef::new("sys:slack")),
        idempotency_key: IdempotencyKey::new(key),
        meta,
    }
}

fn trial(key: &str, cursor: Option<&str>) -> AdapterTrial {
    AdapterTrial {
        observer: ObserverRef::new("obs:slack"),
        source_system: SourceSystemRef::new("sys:slack"),
        heartbeat: Heartbeat {
            observer: ObserverRef::new("obs:slack"),
            source_system: Some(SourceSystemRef::new("sys:slack")),
        },
        drafts: vec![draft(key, object(vec![]))],
        next_cursor: cursor.map(str::to_owned),
    }
}

#[test]
fn adapters_name_themselves_and_carry_keys() {
    assert!(source_adapter_contract(&trial("k", Some("c"))));
    assert!(source_adapter_contract(&trial("k", None)));
    assert!(!source_adapter_contract(&trial(" ", None)));
    assert!(!source_adapter_contract(&trial("k", Some("  "))));
    let mut stranger = trial("k", None);
    stranger.heartbeat.source_system = None;
    assert!(!source_adapter_contract(&stranger));
}

#[test]
fn identities_follow_the_content_alone() {
    let before = draft("k", object1("canonical_json", text("{}")));
    let aside = draft("k", object2("canonical_json", text("{}"), "reactions", text("+1")));
    let after = draft("l", object1("canonical_json", text("{\"a\":1}")));
    assert!(canonical_identity_stable_under_side_state_change(&before, &aside));
    assert!(!canonical_identity_changes_on_content_change(&before, &aside));
    assert!(canonical_identity_changes_on_content_change(&before, &after));
    assert!(!canonical_identity_stable_under_side_state_change(&before, &after));
    let number = |key: &str, n: f64| {
        let value = Json::Float(Binary64 { bits: n.to_bits() });
        draft(key, object1("canonical_json", value))
    };
    let zero = number("k", 0.0);
    assert!(canonical_identity_stable_under_side_state_change(&zero, &number("k", -0.0)));
    assert!(!canonical_identity_changes_on_content_change(&zero, &number("l", -0.0)));
    assert!(canonical_identity_changes_on_content_change(&zero, &number("l", 0.5)));
}

#[test]
fn seeds_are_registered_by_the_system() {
    let seeds = vec![SeedEntityType {
        id: "et:person".to_owned(),
        name: "Person".to_owned(),
        description: "A person".to_owned(),
        parent: Some("et:agent".to_owned()),
        attributes: vec!["name".to_owned()],
    }];
    let at = now();
    let types = base_entity_types(&seeds, at);
    assert_eq!(types.len(), 1);
    assert_eq!(types[0].id.as_str(), "et:person");
    assert_eq!(types[0].parent.as_ref().unwrap().as_str(), "et:agent");
    assert_eq!(types[0].registered_by.as_deref(), Some("system"));
    assert!(types[0].registered_at.is_some());
}
