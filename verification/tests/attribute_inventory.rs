use lethe::attribute_inventory::{
    build_inventory_documents, canonicalize_segment, parse_count, parse_inventory_command, summarize_documents,
    AttributeAliasCatalog, AttributeAliasDefinition, AttributeCandidate,
    AttributeInventoryDocument, AttributeInventoryState, CandidateValueKind, InventoryCommand,
    KnownAttribute, ReviewAction,
};
use lethe::domain::EntityRef;
use lethe::inventory_review::{
    parse_options, pending_in_document, review_turn, ReviewTurn,
};
use lethe::profile::{
    FrontendProfile, GalleryImage, PersonProfile, ProfilePic, StudentProfile, StudentProperties,
};
use lethe::text_map::TextMap;
use lethe::time::Timestamp;

fn now() -> Timestamp {
    Timestamp::new(1_775_000_000, 0).unwrap()
}

fn candidate(key: &str, path: &str, value: &str) -> AttributeCandidate {
    AttributeCandidate {
        candidate_key: key.to_owned(),
        attribute_path: path.to_owned(),
        source_path: path.to_owned(),
        label: "Hobbies".to_owned(),
        value: value.to_owned(),
        value_kind: CandidateValueKind::ShortText,
    }
}

fn person() -> PersonProfile {
    let mut properties = StudentProperties::default();
    properties.hobbies = vec!["Basketball".into()];
    PersonProfile {
        person_id: EntityRef::new("person:test"),
        display_name: "Test User".into(),
        self_intro_text: Some("Hello world".into()),
        last_activity: None,
        frontend_profile: Some(FrontendProfile {
            source_document_id: "document:gslides:test#slide:1".into(),
            source_canonical_uri: Some("https://example.com/slide".into()),
            thumbnail_ref: None,
            thumbnail_url: None,
            profile: StudentProfile {
                email: Some("test@example.com".into()),
                generated_email: None,
                name: "Test User".into(),
                bio_text: Some("Longer biography".into()),
                profile_pic: Some(ProfilePic {
                    coordinates: None,
                    description: Some("Portrait".into()),
                    url: Some("https://example.com/p.png".into()),
                }),
                gallery_images: vec![GalleryImage {
                    coordinates: None,
                    description: Some("Club activity".into()),
                    url: None,
                }],
                properties,
                attributes: vec!["friendly".into()],
                source_slide_object_id: None,
                source_document_id: Some("document:gslides:test#slide:1".into()),
                source_canonical_uri: Some("https://example.com/slide".into()),
                thumbnail_blob_ref: None,
                thumbnail_url: None,
                companion_to_slide_object_id: None,
            },
        }),
    }
}

#[test]
fn build_inventory_documents_flattens_dynamic_strings() {
    let docs = build_inventory_documents(&[person()]);
    let doc = &docs[0];
    assert!(doc
        .candidates
        .iter()
        .any(|candidate| candidate.attribute_path == "profile.properties.hobbies[]"
            && candidate.value == "Basketball"));
    assert!(doc
        .candidates
        .iter()
        .any(|candidate| candidate.attribute_path == "profile.gallery_images[].description"
            && candidate.value == "Club activity"));
    assert!(doc
        .candidates
        .iter()
        .any(|candidate| candidate.attribute_path == "person.self_intro_text"
            && candidate.value == "Hello world"));
    // Metadata paths must be excluded (M)
    assert!(!doc
        .candidates
        .iter()
        .any(|candidate| candidate.attribute_path == "profile.source_document_id"));
    assert!(!doc
        .candidates
        .iter()
        .any(|candidate| candidate.attribute_path == "profile.source_canonical_uri"));
    assert!(!doc
        .candidates
        .iter()
        .any(|candidate| candidate.attribute_path == "profile.profile_pic.url"));
}

#[test]
fn state_suggests_exact_path_matches_first() {
    let candidate = AttributeCandidate {
        candidate_key: "k".into(),
        attribute_path: "profile.properties.hobbies[]".into(),
        source_path: "profile.properties.hobbies[0]".into(),
        label: "Hobbies".into(),
        value: "Basketball".into(),
        value_kind: CandidateValueKind::ShortText,
    };
    let state = AttributeInventoryState {
        version: 1,
        known_attributes: vec![
            KnownAttribute {
                id: "hobbies".into(),
                display_name: "Hobbies".into(),
                source_paths: vec!["profile.properties.hobbies[]".into()],
                examples: vec![],
                review_count: 1,
            },
            KnownAttribute {
                id: "likes".into(),
                display_name: "Likes".into(),
                source_paths: vec!["profile.properties.likes[]".into()],
                examples: vec![],
                review_count: 1,
            },
        ],
        reviewed_candidates: TextMap::new(),
    };

    let suggestions = state.suggestions_for(&candidate);
    assert_eq!(suggestions[0].id, "hobbies");
}

#[test]
fn parse_inventory_commands_supports_review_actions() {
    assert_eq!(parse_inventory_command("1").unwrap(), InventoryCommand::PickSuggestion(1));
    assert_eq!(
        parse_inventory_command("e hobbies").unwrap(),
        InventoryCommand::MapExisting("hobbies".into())
    );
    assert_eq!(
        parse_inventory_command("n Favorite Food").unwrap(),
        InventoryCommand::CreateNew("Favorite Food".into())
    );
    assert_eq!(parse_inventory_command("s").unwrap(), InventoryCommand::Skip);
    assert_eq!(parse_inventory_command("q").unwrap(), InventoryCommand::Quit);
}

#[test]
fn summarize_documents_groups_candidates_by_attribute_path() {
    let documents = vec![AttributeInventoryDocument {
        document_key: "doc-1".into(),
        person_id: "person:test".into(),
        display_name: "Test".into(),
        source_document_id: None,
        source_canonical_uri: None,
        last_activity: None,
        candidates: vec![
            AttributeCandidate {
                candidate_key: "a".into(),
                attribute_path: "profile.properties.hobbies[]".into(),
                source_path: "profile.properties.Hobbies[0]".into(),
                label: "Hobbies".into(),
                value: "Basketball".into(),
                value_kind: CandidateValueKind::ShortText,
            },
            AttributeCandidate {
                candidate_key: "b".into(),
                attribute_path: "profile.properties.hobbies[]".into(),
                source_path: "profile.properties.Hobbies[1]".into(),
                label: "Hobbies".into(),
                value: "Piano".into(),
                value_kind: CandidateValueKind::ShortText,
            },
        ],
    }];

    let groups = summarize_documents(&documents);
    assert_eq!(groups.len(), 1);
    assert_eq!(groups[0].attribute_path, "profile.properties.hobbies[]");
    assert_eq!(groups[0].occurrence_count, 2);
}

#[test]
fn commands_that_say_nothing_are_explained() {
    assert!(parse_inventory_command("x").is_err());
    assert!(parse_inventory_command("n ").is_err());
    assert_eq!(parse_inventory_command("?").unwrap(), InventoryCommand::Help);
    assert_eq!(parse_count("12").unwrap(), 12);
    assert!(parse_count("1x").is_err());
    assert!(parse_count("").is_err());
}

#[test]
fn reviews_are_remembered() {
    let mut state = AttributeInventoryState::default();
    let hobby = candidate("k1", "profile.properties.hobbies[]", "Basketball");
    assert!(!state.is_reviewed(&hobby));
    let turn = review_turn(
        &mut state,
        &hobby,
        &[],
        InventoryCommand::CreateNew("Hobbies".to_owned()),
        now(),
    );
    match turn {
        ReviewTurn::Created(id) => assert_eq!(id, "hobbies"),
        other => panic!("{other:?}"),
    }
    assert!(state.is_reviewed(&hobby));
    let reviewed = state.reviewed_candidates.get("k1").unwrap();
    assert!(matches!(reviewed.action, ReviewAction::New));
    assert_eq!(reviewed.attribute_id.as_deref(), Some("hobbies"));

    let second = candidate("k2", "profile.properties.hobbies[]", "Piano");
    let suggestions = state.suggestions_for(&second);
    assert_eq!(suggestions[0].id, "hobbies");
    let turn = review_turn(
        &mut state,
        &second,
        &suggestions,
        InventoryCommand::PickSuggestion(1),
        now(),
    );
    assert!(matches!(turn, ReviewTurn::Reviewed));
    assert_eq!(state.known_attributes[0].examples, vec!["Basketball", "Piano"]);
    let missing = review_turn(
        &mut state,
        &second,
        &suggestions,
        InventoryCommand::PickSuggestion(9),
        now(),
    );
    assert!(matches!(missing, ReviewTurn::AskAgain(_)));
    let skipped = candidate("k3", "profile.bio_text", "Hello");
    assert!(matches!(
        review_turn(&mut state, &skipped, &[], InventoryCommand::Skip, now()),
        ReviewTurn::Reviewed
    ));
    assert!(state.is_reviewed(&skipped));
    assert!(matches!(
        review_turn(&mut state, &skipped, &[], InventoryCommand::Help, now()),
        ReviewTurn::Explain
    ));
    assert!(matches!(
        review_turn(&mut state, &skipped, &[], InventoryCommand::Quit, now()),
        ReviewTurn::Quit
    ));
}

#[test]
fn merged_catalogs_come_out_again() {
    let mut state = AttributeInventoryState::default();
    state.merge_alias_catalog(AttributeAliasCatalog {
        version: 1,
        attributes: vec![AttributeAliasDefinition {
            id: "hobbies".to_owned(),
            display_name: "Hobbies".to_owned(),
            aliases: vec!["profile.properties.hobbies[]".to_owned()],
            examples: vec!["Piano".to_owned()],
        }],
    });
    let catalog = state.export_alias_catalog();
    assert_eq!(catalog.attributes.len(), 1);
    assert_eq!(catalog.attributes[0].id, "hobbies");
    assert_eq!(catalog.attributes[0].aliases, vec!["profile.properties.hobbies[]"]);
}

#[test]
fn options_are_read_in_order() {
    let args = vec!["--offset=1".to_owned(), "--offset=2".to_owned(), "--limit=5".to_owned()];
    let options = parse_options(&args).unwrap();
    assert_eq!(options.offset, 2);
    assert_eq!(options.limit, Some(5));
    assert!(parse_options(&["--limit=x".to_owned()]).is_err());
    let docs = build_inventory_documents(&[person()]);
    let pending = docs[0].candidates.len();
    let state = AttributeInventoryState::default();
    assert_eq!(pending_in_document(&state, &docs[0]), pending);
    let shown = parse_options(&[]).unwrap().select(docs);
    assert_eq!(shown.len(), 1);
}

fn known(id: &str, name: &str, review_count: usize) -> KnownAttribute {
    KnownAttribute {
        id: id.to_owned(),
        display_name: name.to_owned(),
        source_paths: vec![format!("profile.{id}")],
        examples: vec!["x".to_owned()],
        review_count,
    }
}

fn inventory(known_attributes: Vec<KnownAttribute>) -> AttributeInventoryState {
    AttributeInventoryState { version: 1, known_attributes, reviewed_candidates: TextMap::new() }
}

#[test]
fn persons_of_one_rank_keep_their_order() {
    let mut first = person();
    let mut second = person();
    first.frontend_profile.as_mut().unwrap().source_document_id = "document:b".to_owned();
    second.frontend_profile.as_mut().unwrap().source_document_id = "document:a".to_owned();
    let mut recent = person();
    recent.last_activity = Some(now());
    recent.frontend_profile.as_mut().unwrap().source_document_id = "document:c".to_owned();
    let documents = build_inventory_documents(&[first, second, recent]);
    let keys = documents.iter().map(|d| d.document_key.as_str()).collect::<Vec<_>>();
    assert_eq!(keys, vec!["document:c", "document:b", "document:a"]);
}

#[test]
fn exported_catalogs_fill_a_fresh_inventory() {
    let state = inventory(vec![known("club", "Club", 2), known("hobbies", "Hobbies", 3)]);
    let mut fresh = AttributeInventoryState::default();
    fresh.merge_alias_catalog(state.export_alias_catalog());
    assert_eq!(fresh.known_attributes.len(), 2);
    for (given, read) in state.known_attributes.iter().zip(&fresh.known_attributes) {
        assert_eq!(given.id, read.id);
        assert_eq!(given.display_name, read.display_name);
        assert_eq!(given.source_paths, read.source_paths);
        assert_eq!(given.examples, read.examples);
        assert_eq!(read.review_count, 0);
    }
}

#[test]
fn attributes_keep_distinct_identities() {
    let mut state = inventory(vec![known("club", "Club", 2)]);
    let found = candidate("k", "profile.club", "Chess");
    assert_eq!(
        state.review_new(&found, "CLUB", now()),
        Err("attribute id already exists: club".to_owned())
    );
    state.merge_alias_catalog(AttributeAliasCatalog {
        version: 1,
        attributes: vec![AttributeAliasDefinition {
            id: "club".to_owned(),
            display_name: "Society".to_owned(),
            aliases: vec!["profile.society".to_owned()],
            examples: vec![],
        }],
    });
    assert_eq!(state.known_attributes.len(), 1);
    assert_eq!(state.known_attributes[0].display_name, "Club");
    assert_eq!(state.known_attributes[0].source_paths, vec!["profile.club", "profile.society"]);
}

#[test]
fn exports_end_without_a_review() {
    let export = parse_options(&["--export-aliases=a.json".to_owned()]).unwrap();
    assert!(export.ends_without_review());
    let both =
        parse_options(&["--export-aliases=a.json".to_owned(), "--interactive".to_owned()]).unwrap();
    assert!(!both.ends_without_review());
    assert!(!parse_options(&[]).unwrap().ends_without_review());
}

#[test]
fn path_segments_are_canonical() {
    let mut person = person();
    let profile = &mut person.frontend_profile.as_mut().unwrap().profile;
    profile.properties.ask_me_about = Some("Chess".into());
    profile.properties.dob = Some("May".into());
    profile.properties.mbti = Some("INTJ".into());
    let docs = build_inventory_documents(&[person]);
    let paths: Vec<&str> =
        docs[0].candidates.iter().map(|candidate| candidate.attribute_path.as_str()).collect();
    assert!(paths.contains(&"profile.properties.ask_me_about"));
    assert!(paths.contains(&"profile.properties.do_b"));
    assert!(paths.contains(&"profile.properties.mbti"));
}

#[test]
fn segments_are_made_canonical_once() {
    for (key, canonical) in [
        ("Ask Me About", "ask_me_about"),
        ("__DoB--2", "do_b_2"),
        ("camelCaseX9", "camel_case_x9"),
        ("日本", ""),
    ] {
        assert_eq!(canonicalize_segment(key), canonical);
        assert_eq!(canonicalize_segment(canonical), canonical);
    }
}
