//! Laws of single operations, stated of what the functions return.

use vstd::prelude::*;
use vstd::string::*;

use crate::adapter::error::{AdapterError, AdapterErrorView};
use crate::adapter::writeback::image_crop::{CropError, CropRegion, CropType};
use crate::adapter::writeback::notion::blocks::{AboutValue, MediaView, NotionMediaRef};
use crate::adapter::writeback::notion::client::{
    ApiRequest, Method, NotionClient, NotionConfig, WriteAction,
};
use crate::adapter::writeback::notion::pictures::{CoverSource, CoverView};
use crate::binary64::Binary64;
use crate::domain::{Observation, ObservationId};
use crate::json::JsonView;
use crate::lake::store::{LakeStore, Watermark};
use crate::profile::{StudentProfile, StudentProperties};
use crate::qa::{QaError, QaErrorView, QuestionAnswer, QuestionClass, SourceContext};
use crate::runtime::partition::PartitionTree;
use crate::runtime::tree::TreeView;

verus! {

/// An answer that is given begins with the text of the first passage of enough confidence, and that
/// passage is its first source.
pub proof fn given_answers_begin_with_the_first_passage(
    question: &str,
    class: QuestionClass,
    destination: &str,
    contexts: Vec<SourceContext>,
    r: QuestionAnswer,
    first: int,
)
    requires
        call_ensures(
            crate::qa::answer_with_contexts,
            (question, class, destination, contexts),
            r,
        ),
        class == QuestionClass::Answer,
        0 <= first < contexts@.len(),
        0x3f00_0000 <= contexts@[first].confidence <= 0x7f80_0000,
        forall|i: int|
            0 <= i < first ==> !(0x3f00_0000 <= (#[trigger] contexts@[i]).confidence
                <= 0x7f80_0000),
    ensures
        !r@.escalated,
        r@.answer.len() >= contexts@[first].text@.len(),
        r@.answer.take(contexts@[first].text@.len() as int) == contexts@[first].text@,
        r@.provenance.len() > 0,
        r@.provenance[0] == contexts@[first].observation_id@,
{
    crate::qa_laws::answers_quote_the_first_confident_passage(
        question@,
        class,
        destination@,
        contexts@,
    );
    assert(0x3f00_0000 <= contexts@[first].confidence <= 0x7f80_0000);
}

/// A birthplace and a day of birth that are given stand in rows of their own labels.
pub proof fn birthplace_and_birthday_stand_in_their_rows(
    properties: &StudentProperties,
    r: Vec<(String, AboutValue)>,
    place: Seq<char>,
    day: Seq<char>,
)
    requires
        call_ensures(
            crate::adapter::writeback::notion::blocks::build_about_rows,
            (properties,),
            r,
        ),
        place.len() > 0,
        day.len() > 0,
        properties.birthplace is Some,
        properties.birthplace->0@ == place,
        properties.dob is Some,
        properties.dob->0@ == day,
    ensures
        crate::adapter::writeback::notion::blocks::row_views(r@).contains(
            ("出身"@, crate::adapter::writeback::notion::blocks::AboutView::Text(place)),
        ),
        crate::adapter::writeback::notion::blocks::row_views(r@).contains(
            ("誕生日"@, crate::adapter::writeback::notion::blocks::AboutView::Text(day)),
        ),
{
    crate::adapter::writeback::notion::blocks_laws::facts_stand_beside_their_labels(
        *properties,
        place,
    );
    crate::adapter::writeback::notion::blocks_laws::facts_stand_beside_their_labels(
        *properties,
        day,
    );
}

/// The crop of an image that is turned on its side is the crop turned on its side: what is done
/// across is done down.
pub proof fn turned_images_are_cropped_alike(
    width: u32,
    height: u32,
    x: Binary64,
    y: Binary64,
    crop_type: CropType,
    upright: Result<CropRegion, CropError>,
    turned: Result<CropRegion, CropError>,
)
    requires
        call_ensures(
            crate::adapter::writeback::image_crop::crop_region,
            (width, height, x, y, crop_type),
            upright,
        ),
        call_ensures(
            crate::adapter::writeback::image_crop::crop_region,
            (height, width, y, x, crop_type),
            turned,
        ),
    ensures
        upright is Ok && turned is Ok ==> upright->Ok_0.left == turned->Ok_0.top
            && upright->Ok_0.top == turned->Ok_0.left && upright->Ok_0.width
            == turned->Ok_0.height && upright->Ok_0.height == turned->Ok_0.width,
{
    crate::adapter::writeback::image_crop_laws::crops_are_alike_in_both_directions(
        width,
        height,
        x,
        y,
        crop_type,
    );
}

/// A reason for a flag is kept without the space around it and has to say something; a flag changes
/// just one entry of the log.
pub proof fn flags_have_a_reason(
    reason: &str,
    id: i64,
    changed: usize,
    kept: Result<String, QaError>,
    done: Result<(), QaError>,
)
    requires
        call_ensures(crate::qa::flag_reason, (reason,), kept),
        call_ensures(crate::qa::flag_outcome, (id, changed), done),
    ensures
        kept is Ok <==> !crate::text::blank(reason@),
        kept matches Ok(t) ==> t@ == crate::text::trimmed(reason@),
        kept matches Err(e) ==> e@ == QaErrorView::InvalidInput("flag reason must be non-empty"@),
        done is Ok <==> changed == 1,
        done is Err && id >= 0 ==> done->Err_0@ == QaErrorView::NotFound(
            "answer log entry "@ + crate::text::decimal(id as nat),
        ),
{
    assert(crate::text::padded(id as nat, 0) =~= crate::text::decimal(id as nat));
}

/// The cover of a page is the thumbnail that was stored, else the address of one on the web, else
/// nothing.
pub proof fn covers_prefer_what_was_stored(profile: &StudentProfile, r: Option<CoverSource>)
    requires
        call_ensures(crate::adapter::writeback::notion::pictures::cover_source, (profile,), r),
    ensures
        profile.thumbnail_blob_ref matches Some(blob) ==> r is Some && r->0@ == CoverView::Thumbnail(
            blob@,
        ),
        profile.thumbnail_blob_ref is None && profile.thumbnail_url is None ==> r is None,
        profile.thumbnail_blob_ref is None && profile.thumbnail_url is Some
            && crate::text::begins(profile.thumbnail_url->0@, "http"@) ==> r is Some && r->0@
            == CoverView::External(profile.thumbnail_url->0@),
        profile.thumbnail_blob_ref is None && profile.thumbnail_url is Some
            && !crate::text::begins(profile.thumbnail_url->0@, "http"@) ==> r is None,
{
}

/// A person is looked up by their own address, else by the one that was made for them, else by their
/// identity.
pub proof fn persons_are_looked_up_by_address(profile: &StudentProfile, entity: &str, r: &str)
    requires
        call_ensures(
            crate::adapter::writeback::notion::client::lookup_email,
            (profile, entity),
            r,
        ),
    ensures
        profile.email matches Some(email) ==> r@ == email@,
        profile.email is None && profile.generated_email is Some ==> r@
            == profile.generated_email->0@,
        profile.email is None && profile.generated_email is None ==> r@ == entity@,
{
}

/// A page that is known is written to before one that was found; a page is changed where there is one
/// and created where there is none.
pub proof fn known_pages_are_written_to(
    external_id: &Option<String>,
    found: Option<&str>,
    target: Option<String>,
    action: WriteAction,
)
    requires
        call_ensures(
            crate::adapter::writeback::notion::client::target_page,
            (external_id, found),
            target,
        ),
        call_ensures(crate::adapter::writeback::notion::client::write_action, (&target,), action),
    ensures
        *external_id matches Some(id) ==> target is Some && target->0@ == id@,
        *external_id is None && found is Some ==> target is Some && target->0@ == found->0@,
        *external_id is None && found is None ==> target is None,
        target is Some <==> action == WriteAction::Updated,
        target is None <==> action == WriteAction::Created,
{
}

/// The configuration of a writeback starts with its token and its database alone; a directory and an
/// address that are added change nothing else.
pub proof fn configurations_start_with_token_and_database(
    token: &str,
    database: &str,
    dir: &str,
    url: Option<String>,
    first: NotionConfig,
    second: NotionConfig,
    third: NotionConfig,
)
    requires
        call_ensures(NotionConfig::new, (token, database), first),
        call_ensures(NotionConfig::with_blob_dir, (first, dir), second),
        call_ensures(NotionConfig::with_public_base_url, (second, url), third),
    ensures
        third.token@ == token@,
        third.database_id@ == database@,
        first.blob_dir is None,
        first.public_base_url is None,
        third.blob_dir is Some,
        third.blob_dir->0@ == dir@,
        third.public_base_url == url,
        third.api_version@ == "2022-06-28"@,
{
}

/// Requests go to the addresses of what they are about: the database, the children of a block, a new
/// upload, and a page that is thrown away.
pub proof fn requests_go_to_what_they_are_about(
    client: &NotionClient,
    id: &str,
    content_type: &str,
    length: usize,
    schema: ApiRequest,
    children: ApiRequest,
    upload: ApiRequest,
    trash: ApiRequest,
    send: String,
)
    requires
        call_ensures(NotionClient::schema_request, (client,), schema),
        call_ensures(NotionClient::children_request, (client, id), children),
        call_ensures(
            crate::adapter::writeback::notion::client::create_upload_request,
            (id, content_type, length),
            upload,
        ),
        call_ensures(crate::adapter::writeback::notion::client::trash_request, (id,), trash),
        call_ensures(crate::adapter::writeback::notion::client::send_upload_endpoint, (id,), send),
    ensures
        schema@.method == Method::Get,
        schema@.endpoint == "/databases/"@ + client.config.database_id@,
        schema@.body is None,
        schema@.api_version == client.config.api_version@,
        children@.method == Method::Get,
        children@.endpoint == "/blocks/"@ + id@ + "/children"@,
        children@.body is None,
        children@.api_version == client.config.api_version@,
        upload@.method == Method::Post,
        upload@.endpoint == "/file_uploads"@,
        upload@.body == Some(
            JsonView::Object(
                seq![
                    ("filename"@, JsonView::Str(id@)),
                    ("content_type"@, JsonView::Str(content_type@)),
                    ("content_length"@, JsonView::UInt(length as u64)),
                ],
            ),
        ),
        upload@.api_version == "2026-03-11"@,
        trash@.method == Method::Patch,
        trash@.endpoint == "/pages/"@ + id@,
        trash@.body == Some(JsonView::Object(seq![("in_trash"@, JsonView::Bool(true))])),
        trash@.api_version == "2026-03-11"@,
        send@ == "/file_uploads/"@ + id@ + "/send"@,
{
}

/// An upload has succeeded just where its status says so; it is then a picture of its own identity.
pub proof fn uploads_succeed_by_status(
    id: &str,
    status: &str,
    r: Result<NotionMediaRef, AdapterError>,
)
    requires
        call_ensures(crate::adapter::writeback::notion::client::upload_outcome, (id, status), r),
    ensures
        r is Ok <==> status@ == "uploaded"@,
        r matches Ok(media) ==> media@ == MediaView::FileUpload(id@),
        r matches Err(e) ==> e@ == AdapterErrorView::Other(
            "Notion file upload "@ + id@ + " ended with unexpected status "@ + status@,
        ),
{
}

/// A store tells its last observation and how many there are, gives back what follows a position, and
/// finds the first observation of an identity.
pub proof fn stores_tell_what_they_hold(
    store: &LakeStore,
    position: usize,
    id: &ObservationId,
    mark: Option<Watermark>,
    rest: &[Observation],
    found: Option<&Observation>,
    i: int,
)
    requires
        call_ensures(LakeStore::watermark, (store,), mark),
        call_ensures(LakeStore::since, (store, position), rest),
        call_ensures(LakeStore::get, (store, id), found),
        0 <= i < store@.len(),
    ensures
        mark is Some,
        mark->0.position == store@.len(),
        mark->0.last_id@ == store@[store@.len() - 1].id@,
        mark->0.recorded_at == store@[store@.len() - 1].recorded_at,
        position <= store@.len() ==> rest@.len() == store@.len() - position,
        position > store@.len() ==> rest@.len() == 0,
        position <= i ==> rest@[i - position] == store@[i],
        store@[i].id@ == id@ && (forall|j: int| 0 <= j < i ==> (#[trigger] store@[j]).id@ != id@)
            ==> found is Some && *found->0 == store@[i],
{
    if store@[i].id@ == id@ && (forall|j: int| 0 <= j < i ==> (#[trigger] store@[j]).id@ != id@) {
        assert(found is Some);
        let k = choose|k: int|
            0 <= k < store@.len() && #[trigger] store@[k] == *found->0 && found->0.id@ == id@
                && forall|j: int| 0 <= j < k ==> (#[trigger] store@[j]).id@ != id@;
        if k < i {
            assert(store@[k].id@ != id@);
        } else if i < k {
            assert(store@[i].id@ != id@);
        }
    }
}

/// The root leaf of a tree is the one that it began with: the leaf itself, or the one that was split
/// first.
pub proof fn trees_keep_their_root(tree: &PartitionTree, r: &str)
    requires
        call_ensures(PartitionTree::root_leaf_id, (tree,), r),
    ensures
        tree@ matches TreeView::Leaf { id } ==> r@ == id,
        tree@ matches TreeView::Split { parent, bit, left, right } ==> r@ == parent,
{
}

} // verus!
