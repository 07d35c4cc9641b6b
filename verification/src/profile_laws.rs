//! Laws of profiles.

use vstd::prelude::*;
use vstd::string::*;

use crate::json::JsonView;
use crate::profile::{ImageCoordinates, StudentProfile, StudentProperties};

verus! {

/// Whether a member of an object has a name and holds an optional text.
pub open spec fn has_text(value: JsonView, at: int, name: Seq<char>, t: Option<String>) -> bool {
    &&& value is Object
    &&& 0 <= at < value->Object_0.len()
    &&& value->Object_0[at].0 == name
    &&& t is None ==> value->Object_0[at].1 == JsonView::Null
    &&& t is Some ==> value->Object_0[at].1 == JsonView::Str(t->0@)
}

/// Whether a member of an object has a name and holds a list of texts.
pub open spec fn has_texts(value: JsonView, at: int, name: Seq<char>, list: Seq<String>) -> bool {
    &&& value is Object
    &&& 0 <= at < value->Object_0.len()
    &&& value->Object_0[at].0 == name
    &&& value->Object_0[at].1 is Array
    &&& value->Object_0[at].1->Array_0.len() == list.len()
    &&& forall|i: int|
        0 <= i < list.len() ==> #[trigger] value->Object_0[at].1->Array_0[i] == JsonView::Str(
            list[i]@,
        )
}

/// What a person says of themself is written member by member, each under its own name.
pub proof fn properties_are_written_by_name(p: StudentProperties)
    ensures
        ({
            let v = crate::profile::properties_value(p);
            &&& v->Object_0.len() == 17
            &&& has_text(v, 0, "Nickname"@, p.nickname)
            &&& has_text(v, 1, "Birthplace"@, p.birthplace)
            &&& has_text(v, 2, "DoB"@, p.dob)
            &&& has_text(v, 3, "Major"@, p.major)
            &&& has_text(v, 4, "Affiliation"@, p.affiliation)
            &&& has_text(v, 5, "MBTI"@, p.mbti)
            &&& has_text(v, 6, "SNS"@, p.sns)
            &&& has_texts(v, 7, "Hashtags"@, p.hashtags@)
            &&& has_texts(v, 8, "Hobbies"@, p.hobbies@)
            &&& has_texts(v, 9, "Interests"@, p.interests@)
            &&& has_texts(v, 10, "Likes"@, p.likes@)
            &&& has_text(v, 11, "Dislikes"@, p.dislikes)
            &&& has_text(v, 12, "New Challenges"@, p.new_challenges)
            &&& has_text(v, 13, "Ask Me About"@, p.ask_me_about)
            &&& has_text(v, 14, "Turning Point"@, p.turning_point)
            &&& has_text(v, 15, "BTW"@, p.btw)
            &&& has_text(v, 16, "Message"@, p.message)
        }),
{
}

/// A picture is written with where it lies, what it shows and its address.
pub proof fn pictures_are_written_by_name(
    coordinates: Option<ImageCoordinates>,
    description: Option<String>,
    url: Option<String>,
)
    ensures
        ({
            let v = crate::profile::picture_value(coordinates, description, url);
            &&& v->Object_0.len() == 3
            &&& v->Object_0[0].0 == "coordinates"@
            &&& coordinates is None ==> v->Object_0[0].1 == JsonView::Null
            &&& coordinates matches Some(c) ==> v->Object_0[0].1 is Object
                && v->Object_0[0].1->Object_0 == seq![
                ("x"@, JsonView::Float(c.x)),
                ("y"@, JsonView::Float(c.y)),
            ]
            &&& has_text(v, 1, "description"@, description)
            &&& has_text(v, 2, "url"@, url)
        }),
{
}

/// A profile is written member by member, each under its own name.
pub proof fn profiles_are_written_by_name(p: StudentProfile, i: int)
    ensures
        ({
            let v = crate::profile::profile_value(p);
            &&& v->Object_0.len() == 14
            &&& has_text(v, 0, "email"@, p.email)
            &&& has_text(v, 1, "generated_email"@, p.generated_email)
            &&& v->Object_0[2] == ("name"@, JsonView::Str(p.name@))
            &&& has_text(v, 3, "bio_text"@, p.bio_text)
            &&& v->Object_0[4].0 == "profile_pic"@
            &&& p.profile_pic is None ==> v->Object_0[4].1 == JsonView::Null
            &&& p.profile_pic matches Some(pic) ==> v->Object_0[4].1
                == crate::profile::picture_value(pic.coordinates, pic.description, pic.url)
            &&& v->Object_0[5].0 == "gallery_images"@
            &&& v->Object_0[5].1 is Array
            &&& v->Object_0[5].1->Array_0.len() == p.gallery_images@.len()
            &&& 0 <= i < p.gallery_images@.len() ==> v->Object_0[5].1->Array_0[i]
                == crate::profile::picture_value(
                p.gallery_images@[i].coordinates,
                p.gallery_images@[i].description,
                p.gallery_images@[i].url,
            )
            &&& v->Object_0[6] == ("properties"@, crate::profile::properties_value(p.properties))
            &&& has_texts(v, 7, "attributes"@, p.attributes@)
            &&& has_text(v, 8, "source_slide_object_id"@, p.source_slide_object_id)
            &&& has_text(v, 9, "source_document_id"@, p.source_document_id)
            &&& has_text(v, 10, "source_canonical_uri"@, p.source_canonical_uri)
            &&& has_text(v, 11, "thumbnail_blob_ref"@, p.thumbnail_blob_ref)
            &&& has_text(v, 12, "thumbnail_url"@, p.thumbnail_url)
            &&& has_text(v, 13, "companion_to_slide_object_id"@, p.companion_to_slide_object_id)
        }),
{
}

} // verus!
