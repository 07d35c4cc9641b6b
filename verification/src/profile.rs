//! Profiles of persons, as they are read from self introductions.

use vstd::prelude::*;

use crate::binary64::Binary64;
use crate::domain::EntityRef;
use crate::json::{array, entry, object, opt_text, text, texts, Json, JsonView};
use crate::time::Timestamp;

verus! {

/// Where an image lies on a slide.
#[derive(Debug, PartialEq)]
pub struct ImageCoordinates {
    pub x: Binary64,
    pub y: Binary64,
}

/// The picture of a person.
#[derive(Debug, PartialEq)]
pub struct ProfilePic {
    pub coordinates: Option<ImageCoordinates>,
    pub description: Option<String>,
    pub url: Option<String>,
}

/// A picture of a gallery.
#[derive(Debug, PartialEq)]
pub struct GalleryImage {
    pub coordinates: Option<ImageCoordinates>,
    pub description: Option<String>,
    pub url: Option<String>,
}

/// What a person says of themself.
#[derive(Debug, PartialEq)]
pub struct StudentProperties {
    pub nickname: Option<String>,
    pub birthplace: Option<String>,
    pub dob: Option<String>,
    pub major: Option<String>,
    pub affiliation: Option<String>,
    pub mbti: Option<String>,
    pub sns: Option<String>,
    pub hashtags: Vec<String>,
    pub hobbies: Vec<String>,
    pub interests: Vec<String>,
    pub likes: Vec<String>,
    pub dislikes: Option<String>,
    pub new_challenges: Option<String>,
    pub ask_me_about: Option<String>,
    pub turning_point: Option<String>,
    pub btw: Option<String>,
    pub message: Option<String>,
}

impl Default for StudentProperties {
    /// Properties of which nothing is known.
    fn default() -> (r: StudentProperties)
        ensures
            r.nickname is None && r.birthplace is None && r.dob is None && r.major is None,
            r.affiliation is None && r.mbti is None && r.sns is None && r.dislikes is None,
            r.new_challenges is None && r.ask_me_about is None && r.turning_point is None,
            r.btw is None && r.message is None,
            r.hashtags@.len() == 0 && r.hobbies@.len() == 0 && r.interests@.len() == 0,
            r.likes@.len() == 0,
    {
        StudentProperties {
            nickname: None,
            birthplace: None,
            dob: None,
            major: None,
            affiliation: None,
            mbti: None,
            sns: None,
            hashtags: Vec::new(),
            hobbies: Vec::new(),
            interests: Vec::new(),
            likes: Vec::new(),
            dislikes: None,
            new_challenges: None,
            ask_me_about: None,
            turning_point: None,
            btw: None,
            message: None,
        }
    }
}

/// The profile of a student.
#[derive(Debug, PartialEq)]
pub struct StudentProfile {
    pub email: Option<String>,
    pub generated_email: Option<String>,
    pub name: String,
    pub bio_text: Option<String>,
    pub profile_pic: Option<ProfilePic>,
    pub gallery_images: Vec<GalleryImage>,
    pub properties: StudentProperties,
    pub attributes: Vec<String>,
    pub source_slide_object_id: Option<String>,
    pub source_document_id: Option<String>,
    pub source_canonical_uri: Option<String>,
    pub thumbnail_blob_ref: Option<String>,
    pub thumbnail_url: Option<String>,
    pub companion_to_slide_object_id: Option<String>,
}

/// A profile with the document that it was read from.
#[derive(Debug, PartialEq)]
pub struct FrontendProfile {
    pub source_document_id: String,
    pub source_canonical_uri: Option<String>,
    pub thumbnail_ref: Option<String>,
    pub thumbnail_url: Option<String>,
    pub profile: StudentProfile,
}

/// A person as the pages show them.
#[derive(Debug, PartialEq)]
pub struct PersonProfile {
    pub person_id: EntityRef,
    pub display_name: String,
    pub self_intro_text: Option<String>,
    pub last_activity: Option<Timestamp>,
    pub frontend_profile: Option<FrontendProfile>,
}

/// The JSON value of coordinates.
pub open spec fn coordinates_value(coordinates: Option<ImageCoordinates>) -> JsonView {
    match coordinates {
        Some(c) => JsonView::Object(
            seq![("x"@, JsonView::Float(c.x)), ("y"@, JsonView::Float(c.y))],
        ),
        None => JsonView::Null,
    }
}

/// The JSON value of a picture.
pub open spec fn picture_value(
    coordinates: Option<ImageCoordinates>,
    description: Option<String>,
    url: Option<String>,
) -> JsonView {
    JsonView::Object(
        seq![
            ("coordinates"@, coordinates_value(coordinates)),
            ("description"@, crate::json::opt_text_value(description)),
            ("url"@, crate::json::opt_text_value(url)),
        ],
    )
}

/// The JSON value of the properties of a profile.
pub open spec fn properties_value(p: StudentProperties) -> JsonView {
    JsonView::Object(
        seq![
            ("Nickname"@, crate::json::opt_text_value(p.nickname)),
            ("Birthplace"@, crate::json::opt_text_value(p.birthplace)),
            ("DoB"@, crate::json::opt_text_value(p.dob)),
            ("Major"@, crate::json::opt_text_value(p.major)),
            ("Affiliation"@, crate::json::opt_text_value(p.affiliation)),
            ("MBTI"@, crate::json::opt_text_value(p.mbti)),
            ("SNS"@, crate::json::opt_text_value(p.sns)),
            ("Hashtags"@, crate::json::text_list(crate::text::strings(p.hashtags@))),
            ("Hobbies"@, crate::json::text_list(crate::text::strings(p.hobbies@))),
            ("Interests"@, crate::json::text_list(crate::text::strings(p.interests@))),
            ("Likes"@, crate::json::text_list(crate::text::strings(p.likes@))),
            ("Dislikes"@, crate::json::opt_text_value(p.dislikes)),
            ("New Challenges"@, crate::json::opt_text_value(p.new_challenges)),
            ("Ask Me About"@, crate::json::opt_text_value(p.ask_me_about)),
            ("Turning Point"@, crate::json::opt_text_value(p.turning_point)),
            ("BTW"@, crate::json::opt_text_value(p.btw)),
            ("Message"@, crate::json::opt_text_value(p.message)),
        ],
    )
}

/// The JSON value of a profile.
pub open spec fn profile_value(p: StudentProfile) -> JsonView {
    JsonView::Object(
        seq![
            ("email"@, crate::json::opt_text_value(p.email)),
            ("generated_email"@, crate::json::opt_text_value(p.generated_email)),
            ("name"@, JsonView::Str(p.name@)),
            ("bio_text"@, crate::json::opt_text_value(p.bio_text)),
            (
                "profile_pic"@,
                match p.profile_pic {
                    Some(pic) => picture_value(pic.coordinates, pic.description, pic.url),
                    None => JsonView::Null,
                },
            ),
            (
                "gallery_images"@,
                JsonView::Array(
                    p.gallery_images@.map_values(
                        |image: GalleryImage|
                            picture_value(image.coordinates, image.description, image.url),
                    ),
                ),
            ),
            ("properties"@, properties_value(p.properties)),
            ("attributes"@, crate::json::text_list(crate::text::strings(p.attributes@))),
            ("source_slide_object_id"@, crate::json::opt_text_value(p.source_slide_object_id)),
            ("source_document_id"@, crate::json::opt_text_value(p.source_document_id)),
            ("source_canonical_uri"@, crate::json::opt_text_value(p.source_canonical_uri)),
            ("thumbnail_blob_ref"@, crate::json::opt_text_value(p.thumbnail_blob_ref)),
            ("thumbnail_url"@, crate::json::opt_text_value(p.thumbnail_url)),
            (
                "companion_to_slide_object_id"@,
                crate::json::opt_text_value(p.companion_to_slide_object_id),
            ),
        ],
    )
}

fn coordinates_json(coordinates: &Option<ImageCoordinates>) -> (r: Json)
    ensures
        r@ == coordinates_value(*coordinates),
{
    match coordinates {
        Some(c) => {
            let members = vec![entry("x", Json::Float(c.x)), entry("y", Json::Float(c.y))];
            let r = object(members);
            assert(r@->Object_0 =~= coordinates_value(*coordinates)->Object_0);
            r
        },
        None => Json::Null,
    }
}

fn picture_json(
    coordinates: &Option<ImageCoordinates>,
    description: &Option<String>,
    url: &Option<String>,
) -> (r: Json)
    ensures
        r@ == picture_value(*coordinates, *description, *url),
{
    let r = object(
        vec![
            entry("coordinates", coordinates_json(coordinates)),
            entry("description", opt_text(description)),
            entry("url", opt_text(url)),
        ],
    );
    assert(r@->Object_0 =~= picture_value(*coordinates, *description, *url)->Object_0);
    r
}

fn properties_json(p: &StudentProperties) -> (r: Json)
    ensures
        r@ == properties_value(*p),
{
    let r = object(
        vec![
            entry("Nickname", opt_text(&p.nickname)),
            entry("Birthplace", opt_text(&p.birthplace)),
            entry("DoB", opt_text(&p.dob)),
            entry("Major", opt_text(&p.major)),
            entry("Affiliation", opt_text(&p.affiliation)),
            entry("MBTI", opt_text(&p.mbti)),
            entry("SNS", opt_text(&p.sns)),
            entry("Hashtags", texts(&p.hashtags)),
            entry("Hobbies", texts(&p.hobbies)),
            entry("Interests", texts(&p.interests)),
            entry("Likes", texts(&p.likes)),
            entry("Dislikes", opt_text(&p.dislikes)),
            entry("New Challenges", opt_text(&p.new_challenges)),
            entry("Ask Me About", opt_text(&p.ask_me_about)),
            entry("Turning Point", opt_text(&p.turning_point)),
            entry("BTW", opt_text(&p.btw)),
            entry("Message", opt_text(&p.message)),
        ],
    );
    assert(r@->Object_0 =~= properties_value(*p)->Object_0);
    r
}

/// The JSON value of a profile.
pub fn profile_json(p: &StudentProfile) -> (r: Json)
    ensures
        r@ == profile_value(*p),
{
    let pic = match &p.profile_pic {
        Some(pic) => picture_json(&pic.coordinates, &pic.description, &pic.url),
        None => Json::Null,
    };
    assert(pic@ == profile_value(*p)->Object_0[4].1);
    let mut images: Vec<Json> = Vec::new();
    let mut i: usize = 0;
    while i < p.gallery_images.len()
        invariant
            i <= p.gallery_images.len(),
            images.len() == i,
            forall|j: int|
                0 <= j < i ==> (#[trigger] images@[j])@ == picture_value(
                    p.gallery_images@[j].coordinates,
                    p.gallery_images@[j].description,
                    p.gallery_images@[j].url,
                ),
        decreases p.gallery_images.len() - i,
    {
        let image = &p.gallery_images[i];
        images.push(picture_json(&image.coordinates, &image.description, &image.url));
        i = i + 1;
    }
    let gallery = array(images);
    assert(gallery@->Array_0 =~= profile_value(*p)->Object_0[5].1->Array_0);
    let r = object(
        vec![
            entry("email", opt_text(&p.email)),
            entry("generated_email", opt_text(&p.generated_email)),
            entry("name", text(p.name.as_str())),
            entry("bio_text", opt_text(&p.bio_text)),
            entry("profile_pic", pic),
            entry("gallery_images", gallery),
            entry("properties", properties_json(&p.properties)),
            entry("attributes", texts(&p.attributes)),
            entry("source_slide_object_id", opt_text(&p.source_slide_object_id)),
            entry("source_document_id", opt_text(&p.source_document_id)),
            entry("source_canonical_uri", opt_text(&p.source_canonical_uri)),
            entry("thumbnail_blob_ref", opt_text(&p.thumbnail_blob_ref)),
            entry("thumbnail_url", opt_text(&p.thumbnail_url)),
            entry("companion_to_slide_object_id", opt_text(&p.companion_to_slide_object_id)),
        ],
    );
    assert(r@->Object_0 =~= profile_value(*p)->Object_0);
    r
}

} // verus!
