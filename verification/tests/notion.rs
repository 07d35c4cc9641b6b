use lethe::binary64::Binary64;
use lethe::adapter::error::AdapterError;
use lethe::adapter::writeback::notion::blocks::{
    build_gallery_section, build_page_blocks, truncate_rich_text_content, NotionMediaRef,
    MAX_RICH_TEXT_CHARS,
};
use lethe::adapter::writeback::notion::client::{
    create_upload_request, lookup_email, normalized_payload, page_api_version_from_media_refs,
    page_url, send_upload_endpoint, status_error, target_page, trash_request, upload_outcome,
    value_contains_file_upload, write_action, Method, NotionClient, NotionConfig, WriteAction,
    API_VERSION, FILE_UPLOAD_API_VERSION,
};
use lethe::adapter::writeback::notion::naming::{keep_once_by_name, normalize_property_name};
use lethe::adapter::writeback::notion::pictures::{
    blob_file, blob_ref_sha256, cover_source, gallery_pictures, gallery_prefix,
    match_source_image_candidate, persist_dir, source_picture, upload_name_of, CoverSource,
    SourceImageCandidate,
};
use lethe::adapter::writeback::notion::properties::{
    database_schema, DatabaseSchema, NotionProperty,
};
use lethe::attribute_inventory::{AttributeAliasCatalog, AttributeAliasDefinition};
use lethe::digest::sha256_hex;
use lethe::json::{object1, text, Json};
use lethe::profile::{GalleryImage, ProfilePic, StudentProfile, StudentProperties};
use lethe::text_map::TextMap;

fn pct(value: f64) -> Binary64 {
    Binary64 { bits: value.to_bits() }
}

fn convert(value: &serde_json::Value) -> Json {
    match value {
        serde_json::Value::Null => Json::Null,
        serde_json::Value::Bool(b) => Json::Bool(*b),
        serde_json::Value::Number(n) => match n.as_u64() {
            Some(u) => Json::UInt(u),
            None => match n.as_i64() {
                Some(i) => Json::NegInt(i),
                None => Json::Float(pct(n.as_f64().unwrap())),
            },
        },
        serde_json::Value::String(s) => Json::Str(s.clone()),
        serde_json::Value::Array(items) => Json::Array(items.iter().map(convert).collect()),
        serde_json::Value::Object(map) => {
            Json::Object(map.iter().map(|(k, v)| (k.clone(), convert(v))).collect())
        }
    }
}

fn json(source: &str) -> Json {
    convert(&serde_json::from_str(source).unwrap())
}

/// The value under a path of member names and positions.
fn at<'a>(value: &'a Json, path: &[&str]) -> &'a Json {
    let mut found = value;
    for step in path {
        found = match found {
            Json::Array(items) => &items[step.parse::<usize>().unwrap()],
            other => other.get(step).unwrap_or(&Json::Null),
        };
    }
    found
}

fn str_at<'a>(value: &'a Json, path: &[&str]) -> Option<&'a str> {
    at(value, path).as_str()
}

fn fixture_client(person_id_property_name: &str) -> NotionClient {
    let mut properties = TextMap::new();
    let mut names = TextMap::new();
    for (name, property_type) in [
        ("Birthplace", "rich_text"),
        ("Major_interests", "rich_text"),
        ("Hashtag", "rich_text"),
        ("Source Slide URL", "url"),
        ("Last Synced At", "date"),
        ("Projection Version", "rich_text"),
        ("Status", "status"),
        ("Visibility", "checkbox"),
        (person_id_property_name, "rich_text"),
    ] {
        properties.insert(
            name,
            NotionProperty {
                property_type: property_type.to_string(),
            },
        );
        names.insert(&normalize_property_name(name), name.to_string());
    }
    NotionClient {
        config: NotionConfig::new("test-token", "test-db"),
        schema: DatabaseSchema {
            title_property: "Name".into(),
            email_property: Some("Email".into()),
            actual_names_by_normalized: names,
            properties,
        },
    }
}

fn sample_profile() -> StudentProfile {
    StudentProfile {
        email: Some("sayaka@example.com".into()),
        generated_email: None,
        name: "彦野 沙彩花".into(),
        bio_text: Some("自己紹介テキスト".into()),
        profile_pic: None,
        gallery_images: vec![],
        properties: StudentProperties::default(),
        attributes: vec![],
        source_slide_object_id: Some("slide-1".into()),
        source_document_id: Some("document:gslides:test#slide:slide-1".into()),
        source_canonical_uri: Some(
            "https://docs.google.com/presentation/d/test/edit#slide=id.slide-1".into(),
        ),
        thumbnail_blob_ref: None,
        thumbnail_url: None,
        companion_to_slide_object_id: None,
    }
}

fn heading_titles(blocks: &[Json]) -> Vec<String> {
    blocks
        .iter()
        .filter(|block| str_at(block, &["type"]) == Some("heading_2"))
        .filter_map(|block| str_at(block, &["heading_2", "rich_text", "0", "text", "content"]))
        .map(str::to_string)
        .collect()
}

fn count_block_type(value: &Json, block_type: &str) -> usize {
    match value {
        Json::Object(members) => {
            usize::from(value.get_str("type") == Some(block_type))
                + members
                    .iter()
                    .map(|(_, child)| count_block_type(child, block_type))
                    .sum::<usize>()
        }
        Json::Array(values) => values
            .iter()
            .map(|child| count_block_type(child, block_type))
            .sum(),
        _ => 0,
    }
}

fn candidates() -> Vec<SourceImageCandidate> {
    vec![
        SourceImageCandidate {
            object_id: "left".into(),
            source_url: "https://example.com/left.png".into(),
            blob_ref: "blob:sha256:left".into(),
            center_x_pct: pct(20.0),
            center_y_pct: pct(30.0),
        },
        SourceImageCandidate {
            object_id: "right".into(),
            source_url: "https://example.com/right.png".into(),
            blob_ref: "blob:sha256:right".into(),
            center_x_pct: pct(80.0),
            center_y_pct: pct(75.0),
        },
    ]
}

#[test]
fn source_image_matching_supports_legacy_thousand_scale_coordinates() {
    let candidates = candidates();

    let matched = match_source_image_candidate(&candidates, pct(800.0), pct(750.0)).unwrap();

    assert_eq!(candidates[matched].object_id, "right");
}

#[test]
fn full_profile_produces_all_sections() {
    let mut profile = sample_profile();
    profile.profile_pic = Some(ProfilePic {
        coordinates: None,
        description: Some("portrait".into()),
        url: Some("https://example.com/profile.png".into()),
    });
    profile.gallery_images = vec![GalleryImage {
        coordinates: None,
        description: Some("猫の写真".into()),
        url: Some("https://example.com/gallery.png".into()),
    }];
    profile.properties.nickname = Some("さやか".into());
    profile.properties.birthplace = Some("栃木県".into());
    profile.properties.major = Some("電気工学".into());
    profile.properties.affiliation = Some("HLAB College".into());
    profile.properties.mbti = Some("ENFP".into());
    profile.properties.sns = Some("https://example.com/sns".into());
    profile.properties.hobbies = vec!["写真".into()];
    profile.properties.interests = vec!["エネルギー".into()];
    profile.properties.likes = vec!["コーンスープ".into()];
    profile.properties.new_challenges = Some("海外で学ぶ".into());

    let gallery = vec![(
        0usize,
        NotionMediaRef::External("https://example.com/gallery.png".into()),
    )];
    let blocks = build_page_blocks(
        &profile,
        Some(&NotionMediaRef::External("https://example.com/profile.png".into())),
        &gallery,
        profile.source_canonical_uri.as_deref(),
    );

    assert_eq!(str_at(blocks.first().unwrap(), &["type"]), Some("callout"));
    assert_eq!(
        heading_titles(&blocks),
        vec!["About", "Highlights", "Gallery", "Source"]
    );
    assert!(blocks.iter().any(|block| str_at(block, &["type"]) == Some("toggle")));
    assert!(blocks.iter().any(|block| str_at(block, &["type"]) == Some("bookmark")));
}

#[test]
fn missing_hobbies_interests_likes_skips_highlights() {
    let profile = sample_profile();
    let blocks = build_page_blocks(&profile, None, &[], profile.source_canonical_uri.as_deref());
    assert!(!heading_titles(&blocks).iter().any(|title| title == "Highlights"));
}

#[test]
fn partial_toggles_only_present_fields() {
    let mut profile = sample_profile();
    profile.properties.new_challenges = Some("Rust を学ぶ".into());
    let blocks = build_page_blocks(&profile, None, &[], None);
    let toggles = blocks
        .iter()
        .filter(|block| str_at(block, &["type"]) == Some("toggle"))
        .count();
    assert_eq!(toggles, 1);
    assert!(blocks
        .iter()
        .any(|block| format!("{block:?}").contains("New Challenges")));
}

#[test]
fn gallery_respects_max_9() {
    let mut profile = sample_profile();
    profile.gallery_images = (0..12)
        .map(|index| GalleryImage {
            coordinates: None,
            description: Some(format!("image-{index}")),
            url: Some(format!("https://example.com/{index}.png")),
        })
        .collect();
    let gallery = (0..12)
        .map(|index| {
            (
                index,
                NotionMediaRef::External(format!("https://example.com/{index}.png")),
            )
        })
        .collect::<Vec<_>>();
    let blocks = build_page_blocks(&profile, None, &gallery, None);
    let image_count = blocks
        .iter()
        .map(|block| count_block_type(block, "image"))
        .sum::<usize>();
    assert_eq!(image_count, 9);
}

#[test]
fn single_gallery_image_does_not_emit_column_list() {
    let mut profile = sample_profile();
    profile.gallery_images = vec![GalleryImage {
        coordinates: None,
        description: Some("single".into()),
        url: Some("https://example.com/one.png".into()),
    }];
    let gallery = vec![(0usize, NotionMediaRef::FileUpload("upload-1".into()))];
    let blocks = build_page_blocks(&profile, None, &gallery, None);
    let gallery_section = build_gallery_section(&profile, &gallery).unwrap();
    assert!(blocks.iter().any(|block| str_at(block, &["type"]) == Some("image")));
    assert!(!gallery_section
        .iter()
        .any(|block| str_at(block, &["type"]) == Some("column_list")));
}

#[test]
fn dividers_not_orphaned() {
    let mut profile = sample_profile();
    profile.bio_text = None;
    profile.properties.hobbies = vec!["写真".into()];
    let blocks = build_page_blocks(&profile, None, &[], profile.source_canonical_uri.as_deref());
    assert_ne!(str_at(blocks.first().unwrap(), &["type"]), Some("divider"));
    assert_ne!(str_at(blocks.last().unwrap(), &["type"]), Some("divider"));
    for pair in blocks.windows(2) {
        assert!(!(str_at(&pair[0], &["type"]) == Some("divider")
            && str_at(&pair[1], &["type"]) == Some("divider")));
    }
}

#[test]
fn sns_url_becomes_link() {
    let mut profile = sample_profile();
    profile.properties.sns = Some("https://example.com/sns".into());
    let blocks = build_page_blocks(&profile, None, &[], None);
    let about = blocks
        .iter()
        .find(|block| str_at(block, &["type"]) == Some("table"))
        .unwrap();
    assert_eq!(
        str_at(
            about,
            &["table", "children", "0", "table_row", "cells", "1", "0", "text", "link", "url"]
        ),
        Some("https://example.com/sns")
    );
}

#[test]
fn about_table_skips_none_rows() {
    let mut profile = sample_profile();
    profile.properties.nickname = Some("さやか".into());
    let blocks = build_page_blocks(&profile, None, &[], None);
    let about = blocks
        .iter()
        .find(|block| str_at(block, &["type"]) == Some("table"))
        .unwrap();
    match at(about, &["table", "children"]) {
        Json::Array(rows) => assert_eq!(rows.len(), 1),
        other => panic!("{other:?}"),
    }
}

#[test]
fn build_property_updates_keeps_major_as_major_interests() {
    let payload = json(
        r#"{"properties": {"Major": "CS", "Interests": ["AI", "Robotics"], "Birthplace": "Tokyo"}}"#,
    );
    let props =
        fixture_client("LETHE Person ID").build_property_updates(None, "田中太郎", &payload);
    assert_eq!(
        str_at(&props, &["Major_interests", "rich_text", "0", "text", "content"]),
        Some("CS")
    );
    assert!(props.get("Birthplace").is_some());
    assert!(props.get("Name").is_some());
}

#[test]
fn build_property_updates_populates_metadata_without_attribute_fallbacks() {
    let payload = json(
        r##"{
            "attributes": ["AI", "ML"],
            "_lethe": {
                "person_id": "person:alice",
                "projection_version": "proj:person-page@0.1.0",
                "last_synced_at": "2026-03-28T11:00:00Z",
                "source_slide_url": "https://example.com/slide",
                "status": "Done",
                "visibility": true
            },
            "properties": {
                "Hashtags": ["#rust"],
                "Major": "CS"
            }
        }"##,
    );

    let props =
        fixture_client("LETHE Person ID").build_property_updates(None, "田中太郎", &payload);

    assert_eq!(
        str_at(&props, &["Hashtag", "rich_text", "0", "text", "content"]),
        Some("#rust")
    );
    assert_eq!(
        str_at(&props, &["LETHE Person ID", "rich_text", "0", "text", "content"]),
        Some("person:alice")
    );
    assert_eq!(str_at(&props, &["Status", "status", "name"]), Some("Done"));
    assert_eq!(at(&props, &["Visibility", "checkbox"]), &Json::Bool(true));
}

#[test]
fn build_property_updates_supports_japanese_alias_named_properties() {
    let mut client = fixture_client("LETHE Person ID");
    for (normalized, actual) in [
        ("呼ばれたい名前", "呼ばれたい名前"),
        ("趣味特技", "趣味・特技"),
        ("好きなもの", "好きなもの"),
        ("カレッジで挑戦したいこと", "カレッジで挑戦したいこと"),
    ] {
        client
            .schema
            .actual_names_by_normalized
            .insert(normalized, actual.to_string());
        client.schema.properties.insert(
            actual,
            NotionProperty {
                property_type: "rich_text".to_string(),
            },
        );
    }

    let payload = json(
        r#"{"properties": {"Nickname": "さやか", "Hobbies": ["写真", "散歩"], "Likes": ["コーヒー"], "New Challenges": "もっと話す"}}"#,
    );

    let props = client.build_property_updates(None, "田中太郎", &payload);

    assert_eq!(
        str_at(&props, &["呼ばれたい名前", "rich_text", "0", "text", "content"]),
        Some("さやか")
    );
    assert_eq!(
        str_at(&props, &["趣味・特技", "rich_text", "0", "text", "content"]),
        Some("写真, 散歩")
    );
    assert_eq!(
        str_at(&props, &["好きなもの", "rich_text", "0", "text", "content"]),
        Some("コーヒー")
    );
    assert_eq!(
        str_at(&props, &["カレッジで挑戦したいこと", "rich_text", "0", "text", "content"]),
        Some("もっと話す")
    );
}

#[test]
fn headers_reject_invalid_bearer_token() {
    let mut client = fixture_client("LETHE Person ID");
    client.config.token = "bad\r\ntoken".into();
    assert!(matches!(
        client.headers_for_version(&client.config.api_version),
        Err(AdapterError::AuthFailure { .. })
    ));
}

#[test]
fn headers_reject_invalid_api_version() {
    let mut client = fixture_client("LETHE Person ID");
    client.config.api_version = "bad\r\nversion".into();
    assert!(matches!(
        client.headers_for_version(&client.config.api_version),
        Err(AdapterError::Other(_))
    ));
}

#[test]
fn media_ref_file_upload_image_block_uses_file_upload_type() {
    let block = NotionMediaRef::FileUpload("upload-123".into()).to_image_block();
    assert_eq!(str_at(&block, &["type"]), Some("image"));
    assert_eq!(str_at(&block, &["image", "type"]), Some("file_upload"));
    assert_eq!(str_at(&block, &["image", "file_upload", "id"]), Some("upload-123"));
}

#[test]
fn media_ref_external_image_block_uses_external_type() {
    let block = NotionMediaRef::External("https://example.com/thumb.png".into()).to_image_block();
    assert_eq!(str_at(&block, &["type"]), Some("image"));
    assert_eq!(str_at(&block, &["image", "type"]), Some("external"));
    assert_eq!(
        str_at(&block, &["image", "external", "url"]),
        Some("https://example.com/thumb.png")
    );
}

#[test]
fn sound_headers_carry_token_and_version() {
    let client = fixture_client("LETHE Person ID");
    let headers = client.headers_for_version(API_VERSION).unwrap();
    assert!(headers.contains(&("authorization".to_owned(), "Bearer test-token".to_owned())));
    assert!(headers.contains(&("notion-version".to_owned(), API_VERSION.to_owned())));
    assert_eq!(client.auth_headers_for_version(API_VERSION).unwrap().len(), 2);
}

#[test]
fn updates_name_properties_of_the_database_alone() {
    let payload = json(r#"{"properties": {"Nickname": "さやか", "Birthplace": "Tokyo"}}"#);
    let client = fixture_client("LETHE Person ID");
    let catalog = AttributeAliasCatalog {
        version: 1,
        attributes: vec![AttributeAliasDefinition {
            id: "hashtag".to_owned(),
            display_name: "Hashtag".to_owned(),
            aliases: vec!["properties.Nickname".to_owned()],
            examples: vec![],
        }],
    };
    match client.build_property_updates(Some(&catalog), "T", &payload) {
        Json::Object(members) => {
            for (name, _) in &members {
                assert!(
                    name == "Name" || name == "Email" || client.schema.properties.contains_key(name)
                );
            }
        }
        other => panic!("{other:?}"),
    }
}

#[test]
fn names_are_compared_without_case_and_marks() {
    assert_eq!(normalize_property_name("Major_Interests"), "majorinterests");
    assert_eq!(normalize_property_name("趣味・特技"), "趣味特技");
    assert_eq!(
        keep_once_by_name(&vec!["A b".to_owned(), "a-B".to_owned(), "c".to_owned()]),
        vec!["A b".to_owned(), "c".to_owned()]
    );
    let schema = database_schema(&vec![
        ("名前".to_owned(), "title".to_owned()),
        ("E-Mail".to_owned(), "email".to_owned()),
        ("Major Interests".to_owned(), "rich_text".to_owned()),
    ]);
    assert_eq!(schema.title_property, "名前");
    assert_eq!(schema.email_property.as_deref(), Some("E-Mail"));
    let (name, property) = schema
        .resolve_property(&vec!["nothing".to_owned(), "major_interests".to_owned()])
        .unwrap();
    assert_eq!(name, "Major Interests");
    assert_eq!(property.property_type, "rich_text");
}

#[test]
fn long_texts_are_cut() {
    let long = "あ".repeat(MAX_RICH_TEXT_CHARS + 1);
    let cut = truncate_rich_text_content(&long);
    assert_eq!(cut.chars().count(), MAX_RICH_TEXT_CHARS);
    assert!(cut.ends_with('…'));
    assert_eq!(truncate_rich_text_content("short"), "short");
}

#[test]
fn requests_name_their_endpoints() {
    let client = fixture_client("LETHE Person ID");
    let schema = client.schema_request();
    assert_eq!(schema.endpoint, "/databases/test-db");
    assert_eq!(schema.method, Method::Get);
    let found = client.find_page_request(Some("a@b.c"), "T");
    assert_eq!(found.endpoint, "/databases/test-db/query");
    assert!(format!("{:?}", found.body).contains("a@b.c"));
    let by_title = client.find_page_request(None, "T");
    assert!(format!("{:?}", by_title.body).contains("Name"));
    assert_eq!(client.children_request("p").endpoint, "/blocks/p/children");
    assert_eq!(trash_request("p").endpoint, "/pages/p");
    assert_eq!(send_upload_endpoint("u"), "/file_uploads/u/send");
    let upload = create_upload_request("a.png", "image/png", 7);
    assert_eq!(at(&upload.body.unwrap(), &["content_length"]), &Json::UInt(7));
}

#[test]
fn pages_are_created_or_updated() {
    let client = fixture_client("LETHE Person ID");
    let none = Json::Object(vec![]);
    assert!(client.page_request(Some("p"), &none, None, None).is_none());
    let create = client.page_request(None, &none, None, None).unwrap();
    assert_eq!(create.endpoint, "/pages");
    assert_eq!(create.api_version, API_VERSION);
    assert_eq!(
        str_at(create.body.as_ref().unwrap(), &["parent", "database_id"]),
        Some("test-db")
    );
    let cover = NotionMediaRef::FileUpload("u".into());
    let update = client.page_request(Some("p"), &none, Some(&cover), None).unwrap();
    assert_eq!(update.endpoint, "/pages/p");
    assert_eq!(update.method, Method::Patch);
    assert_eq!(update.api_version, FILE_UPLOAD_API_VERSION);
    assert_eq!(page_api_version_from_media_refs(None, Some(&cover)), FILE_UPLOAD_API_VERSION);
    assert_eq!(target_page(&None, Some("q")).as_deref(), Some("q"));
    assert_eq!(target_page(&Some("p".to_owned()), Some("q")).as_deref(), Some("p"));
    assert_eq!(write_action(&None), WriteAction::Created);
    assert_eq!(write_action(&Some("p".to_owned())), WriteAction::Updated);
    assert_eq!(page_url("ab-cd-ef"), "https://www.notion.so/abcdef");
}

#[test]
fn bodies_are_replaced_block_by_block() {
    let client = fixture_client("LETHE Person ID");
    let image = NotionMediaRef::FileUpload("u".into()).to_image_block();
    assert!(value_contains_file_upload(&image));
    let steps = client.stacking_update(
        "p",
        &vec!["b1".to_owned(), "b2".to_owned()],
        &vec![image],
    );
    assert_eq!(
        steps.iter().map(|s| s.endpoint.clone()).collect::<Vec<_>>(),
        vec!["/blocks/b1", "/blocks/b2", "/blocks/p/children"]
    );
    assert_eq!(steps[0].method, Method::Delete);
    assert_eq!(steps[2].api_version, FILE_UPLOAD_API_VERSION);
    assert!(client.stacking_update("p", &vec![], &vec![]).is_empty());
    let plain = object1("type", text("paragraph"));
    assert!(!value_contains_file_upload(&plain));
    assert_eq!(client.append_children_request("p", &vec![plain]).api_version, API_VERSION);
}

#[test]
fn answers_are_judged_by_their_status() {
    assert!(status_error(200, "200 OK", "").is_none());
    assert!(matches!(
        status_error(429, "429", ""),
        Some(AdapterError::RateLimited { retry_after_secs: 1 })
    ));
    assert!(matches!(
        status_error(403, "403 Forbidden", ""),
        Some(AdapterError::AuthFailure { .. })
    ));
    match status_error(500, "500 Internal Server Error", "oops") {
        Some(AdapterError::Other(m)) => {
            assert_eq!(m, "Notion API error (500 Internal Server Error): oops");
        }
        other => panic!("{other:?}"),
    }
    assert_eq!(
        upload_outcome("u", "uploaded").unwrap(),
        NotionMediaRef::FileUpload("u".to_owned())
    );
    match upload_outcome("u", "pending") {
        Err(AdapterError::Other(m)) => assert!(m.contains("unexpected status pending")),
        other => panic!("{other:?}"),
    }
}

#[test]
fn payloads_carry_what_stands_beside_the_profile() {
    let profile = sample_profile();
    let given = json(r#"{"_lethe": {"status": "Done"}, "other": 1}"#);
    let payload = normalized_payload(&profile, &given);
    assert_eq!(str_at(&payload, &["_lethe", "status"]), Some("Done"));
    assert_eq!(str_at(&payload, &["name"]), Some("彦野 沙彩花"));
    assert!(payload.get("other").is_none());
    assert_eq!(lookup_email(&profile, "person:1"), "sayaka@example.com");
    let mut nameless = sample_profile();
    nameless.email = None;
    assert_eq!(lookup_email(&nameless, "person:1"), "person:1");
}

#[test]
fn pictures_are_found_by_place_or_address() {
    let list = candidates();
    assert_eq!(
        source_picture(&list, Some((pct(19.0), pct(31.0))), None),
        Some(0)
    );
    assert_eq!(
        source_picture(&list, None, Some("https://example.com/right.png")),
        Some(1)
    );
    assert_eq!(source_picture(&list, None, Some("https://example.com/none.png")), None);
    assert_eq!(match_source_image_candidate(&list, pct(-1.0), pct(0.0)), None);
    let mut profile = sample_profile();
    profile.gallery_images = vec![
        GalleryImage { coordinates: None, description: None, url: None },
        GalleryImage {
            coordinates: None,
            description: None,
            url: Some("https://example.com/right.png".to_owned()),
        },
    ];
    assert_eq!(gallery_pictures(&profile, &[None, None], &list), vec![(1, 1)]);
}

#[test]
fn contents_lie_where_their_digest_says() {
    let hash = sha256_hex(b"picture");
    let reference = format!("blob:sha256:{hash}");
    assert_eq!(blob_ref_sha256(&reference), Some(hash.as_str()));
    assert_eq!(blob_ref_sha256("blob:sha256:left"), None);
    let config = NotionConfig::new("t", "d");
    assert!(matches!(blob_file(&config, &reference), Err(AdapterError::Other(_))));
    assert!(matches!(persist_dir(&config), Err(AdapterError::Other(_))));
    let config = config.with_blob_dir("/blobs").with_public_base_url(None);
    assert_eq!(blob_file(&config, &reference).unwrap(), ("/blobs", hash.as_str()));
    assert!(matches!(blob_file(&config, "blob:left"), Err(AdapterError::Other(_))));
    assert_eq!(persist_dir(&config).unwrap(), "/blobs");
    let (name, content_type) = upload_name_of("lethe-cover", &[0xff, 0xd8, 0xff, 0xe0]);
    assert!(name.starts_with("lethe-cover-"));
    assert!(name.ends_with(".jpg"));
    assert_eq!(content_type, "image/jpeg");
    let (other, other_type) = upload_name_of("lethe-cover", b"unknown");
    assert!(other.ends_with(".png"));
    assert_eq!(other_type, "image/png");
    for gif in [b"GIF89a", b"GIF87a"] {
        let (name, content_type) = upload_name_of("lethe-cover", gif);
        assert!(name.ends_with(".gif"));
        assert_eq!(content_type, "image/gif");
    }
    let (webp, webp_type) = upload_name_of("lethe-cover", b"RIFF\x10\0\0\0WEBPVP8 ");
    assert!(webp.ends_with(".webp"));
    assert_eq!(webp_type, "image/webp");
    let (wave, wave_type) = upload_name_of("lethe-cover", b"RIFF\x10\0\0\0WAVEfmt ");
    assert!(wave.ends_with(".png"));
    assert_eq!(wave_type, "image/png");
    assert_eq!(gallery_prefix(3), "lethe-gallery-3");
}

#[test]
fn covers_prefer_the_stored_thumbnail() {
    let mut profile = sample_profile();
    assert!(cover_source(&profile).is_none());
    profile.thumbnail_url = Some("https://example.com/t.png".to_owned());
    assert!(matches!(cover_source(&profile), Some(CoverSource::External(_))));
    profile.thumbnail_blob_ref = Some("blob:sha256:x".to_owned());
    assert!(matches!(cover_source(&profile), Some(CoverSource::Thumbnail(_))));
    profile.thumbnail_blob_ref = None;
    profile.thumbnail_url = Some("/local".to_owned());
    assert!(cover_source(&profile).is_none());
}
