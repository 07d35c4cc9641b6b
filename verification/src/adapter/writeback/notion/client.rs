//! Requests to the Notion API: what is asked, in which order, and what the answers mean.

use vstd::prelude::*;
use vstd::string::*;

use crate::adapter::error::{AdapterError, AdapterErrorView};
use crate::attribute_inventory::AttributeAliasCatalog;
use crate::json::{
    array, boolean, number, object1, object2, object3, put_member, text, Json, JsonView,
};
use crate::profile::{profile_json, StudentProfile};
use crate::text::{chars_of, str_eq};

use super::blocks::NotionMediaRef;
use super::properties::{build_property_updates, DatabaseSchema};

verus! {

/// The version of the API that pages are written with.
pub const API_VERSION: &'static str = "2022-06-28";

/// The version of the API that uploaded files need.
pub const FILE_UPLOAD_API_VERSION: &'static str = "2026-03-11";

/// Where the API lies.
pub const BASE_URL: &'static str = "https://api.notion.com/v1";

/// How to reach a database.
#[derive(Debug)]
pub struct NotionConfig {
    /// The token of the integration.
    pub token: String,
    /// The database that holds the pages.
    pub database_id: String,
    /// The directory where blobs lie that are uploaded.
    pub blob_dir: Option<String>,
    /// The address under which blobs can be reached.
    pub public_base_url: Option<String>,
    /// The version of the API that requests name.
    pub api_version: String,
}

impl NotionConfig {
    pub fn new(token: &str, database_id: &str) -> (r: NotionConfig)
        ensures
            r.token@ == token@,
            r.database_id@ == database_id@,
            r.blob_dir is None,
            r.public_base_url is None,
            r.api_version@ == API_VERSION@,
    {
        NotionConfig {
            token: token.to_owned(),
            database_id: database_id.to_owned(),
            blob_dir: None,
            public_base_url: None,
            api_version: API_VERSION.to_owned(),
        }
    }

    pub fn with_blob_dir(self, blob_dir: &str) -> (r: NotionConfig)
        ensures
            r.token == self.token,
            r.database_id == self.database_id,
            crate::text::opt_string(r.blob_dir) == Some(blob_dir@),
            r.public_base_url == self.public_base_url,
            r.api_version == self.api_version,
    {
        let mut config = self;
        config.blob_dir = Some(blob_dir.to_owned());
        config
    }

    pub fn with_public_base_url(self, public_base_url: Option<String>) -> (r: NotionConfig)
        ensures
            r.token == self.token,
            r.database_id == self.database_id,
            r.blob_dir == self.blob_dir,
            r.public_base_url == public_base_url,
            r.api_version == self.api_version,
    {
        let mut config = self;
        config.public_base_url = public_base_url;
        config
    }
}

/// A page as the API answers it.
#[derive(Debug)]
pub struct NotionPage {
    pub id: String,
    pub url: Option<String>,
    pub properties: Json,
}

/// A block as the API answers it.
#[derive(Debug)]
pub struct NotionBlock {
    pub id: String,
    pub block_type: String,
    pub raw: Json,
}

/// What a request does.
#[derive(Debug, Clone, Copy, PartialEq, Eq, Structural)]
pub enum Method {
    Get,
    Post,
    Patch,
    Delete,
}

/// A request to the API.
#[derive(Debug)]
pub struct ApiRequest {
    pub method: Method,
    pub endpoint: String,
    pub body: Option<Json>,
    pub api_version: String,
}

/// What a request asks.
pub struct RequestView {
    pub method: Method,
    pub endpoint: Seq<char>,
    pub body: Option<JsonView>,
    pub api_version: Seq<char>,
}

impl View for ApiRequest {
    type V = RequestView;

    open spec fn view(&self) -> RequestView {
        RequestView {
            method: self.method,
            endpoint: self.endpoint@,
            body: match self.body {
                Some(b) => Some(b@),
                None => None,
            },
            api_version: self.api_version@,
        }
    }
}

/// Whether a text can stand in the value of a header.
pub open spec fn header_safe(value: Seq<char>) -> bool {
    let bytes = vstd::utf8::encode_utf8(value);
    forall|i: int|
        0 <= i < bytes.len() ==> ((#[trigger] bytes[i]) >= 32 && bytes[i] != 127) || bytes[i] == 9
}

/// Tries a text as the value of a header with the `from_str` of `reqwest`'s `HeaderValue`. The
/// contract claims that it is taken where each byte is at least 32 and not 127, or is 9, and what
/// the error says otherwise.
#[verifier::external_body]
fn try_header(value: &str) -> (r: Result<(), String>)
    ensures
        match r {
            Ok(()) => header_safe(value@),
            Err(message) => !header_safe(value@) && message@ == "failed to parse header value"@,
        },
{
    match reqwest::header::HeaderValue::from_str(value) {
        Ok(_) => Ok(()),
        Err(e) => Err(e.to_string()),
    }
}

/// Headers by name and value.
pub open spec fn header_views(headers: Seq<(String, String)>) -> Seq<(Seq<char>, Seq<char>)> {
    headers.map_values(|h: (String, String)| (h.0@, h.1@))
}

/// The headers that name the token and the version of the API, or why there are none.
pub open spec fn auth_headers(token: Seq<char>, api_version: Seq<char>) -> Result<
    Seq<(Seq<char>, Seq<char>)>,
    AdapterErrorView,
> {
    if !header_safe("Bearer "@ + token) {
        Err(
            AdapterErrorView::AuthFailure(
                "invalid Notion bearer token header: failed to parse header value"@,
            ),
        )
    } else if !header_safe(api_version) {
        Err(
            AdapterErrorView::Other(
                "invalid Notion-Version header: failed to parse header value"@,
            ),
        )
    } else {
        Ok(seq![("authorization"@, "Bearer "@ + token), ("notion-version"@, api_version)])
    }
}

/// The property updates, requests and decisions of one database.
#[derive(Debug)]
pub struct NotionClient {
    pub config: NotionConfig,
    pub schema: DatabaseSchema,
}

impl NotionClient {
    /// The headers of a request that sends no JSON.
    pub fn auth_headers_for_version(&self, api_version: &str) -> (r: Result<
        Vec<(String, String)>,
        AdapterError,
    >)
        ensures
            (match r {
                Ok(headers) => Ok(header_views(headers@)),
                Err(e) => Err(e@),
            }) == auth_headers(self.config.token@, api_version@),
    {
        let mut bearer = "Bearer ".to_owned();
        bearer.append(self.config.token.as_str());
        match try_header(bearer.as_str()) {
            Ok(()) => {},
            Err(e) => {
                let mut message = "invalid Notion bearer token header: ".to_owned();
                message.append(e.as_str());
                proof {
                    reveal_strlit("invalid Notion bearer token header: ");
                    reveal_strlit("failed to parse header value");
                    reveal_strlit("invalid Notion bearer token header: failed to parse header value");
                    assert(message@
                        =~= "invalid Notion bearer token header: failed to parse header value"@);
                }
                return Err(AdapterError::AuthFailure { message });
            },
        }
        match try_header(api_version) {
            Ok(()) => {},
            Err(e) => {
                let mut message = "invalid Notion-Version header: ".to_owned();
                message.append(e.as_str());
                proof {
                    reveal_strlit("invalid Notion-Version header: ");
                    reveal_strlit("failed to parse header value");
                    reveal_strlit("invalid Notion-Version header: failed to parse header value");
                    assert(message@
                        =~= "invalid Notion-Version header: failed to parse header value"@);
                }
                return Err(AdapterError::Other(message));
            },
        }
        let ghost given = bearer@;
        let headers = vec![
            ("authorization".to_owned(), bearer),
            ("notion-version".to_owned(), api_version.to_owned()),
        ];
        assert(header_views(headers@) =~= seq![
            ("authorization"@, given),
            ("notion-version"@, api_version@),
        ]);
        Ok(headers)
    }

    /// The headers of a request that sends JSON.
    pub fn headers_for_version(&self, api_version: &str) -> (r: Result<
        Vec<(String, String)>,
        AdapterError,
    >)
        ensures
            (match r {
                Ok(headers) => Ok(header_views(headers@)),
                Err(e) => Err(e@),
            }) == (match auth_headers(self.config.token@, api_version@) {
                Ok(headers) => Ok(headers.push(("content-type"@, "application/json"@))),
                Err(e) => Err(e),
            }),
    {
        match self.auth_headers_for_version(api_version) {
            Ok(mut headers) => {
                let ghost before = headers@;
                headers.push(("content-type".to_owned(), "application/json".to_owned()));
                assert(header_views(headers@) =~= header_views(before).push(
                    ("content-type"@, "application/json"@),
                ));
                Ok(headers)
            },
            Err(e) => Err(e),
        }
    }

    /// The property updates of a page for a profile, with the attributes of a catalog where there
    /// is one.
    pub fn build_property_updates(
        &self,
        catalog: Option<&AttributeAliasCatalog>,
        title: &str,
        payload: &Json,
    ) -> (r: Json)
        ensures
            r@ == JsonView::Object(
                super::properties::property_updates(
                    self.schema,
                    super::properties::catalog_attributes(catalog),
                    title@,
                    payload@,
                ),
            ),
    {
        build_property_updates(&self.schema, catalog, title, payload)
    }

    /// Asks for the properties of the database.
    pub fn schema_request(&self) -> (r: ApiRequest)
        ensures
            r@ == (RequestView {
                method: Method::Get,
                endpoint: "/databases/"@ + self.config.database_id@,
                body: None,
                api_version: self.config.api_version@,
            }),
    {
        ApiRequest {
            method: Method::Get,
            endpoint: endpoint("/databases/", self.config.database_id.as_str(), ""),
            body: None,
            api_version: self.config.api_version.clone(),
        }
    }

    /// Asks for the page of a person: by address where the database has a property for it, else by
    /// title.
    pub fn find_page_request(&self, email: Option<&str>, title: &str) -> (r: ApiRequest)
        ensures
            r@ == (RequestView {
                method: Method::Post,
                endpoint: "/databases/"@ + self.config.database_id@ + "/query"@,
                body: Some(page_filter(self.schema, crate::json::opt_str(email), title@)),
                api_version: self.config.api_version@,
            }),
    {
        let filter = match (email, &self.schema.email_property) {
            (Some(email), Some(property)) => object1(
                "filter",
                object2(
                    "property",
                    text(property.as_str()),
                    "email",
                    object1("equals", text(email)),
                ),
            ),
            _ => object1(
                "filter",
                object2(
                    "property",
                    text(self.schema.title_property.as_str()),
                    "title",
                    object1("equals", text(title)),
                ),
            ),
        };
        ApiRequest {
            method: Method::Post,
            endpoint: endpoint("/databases/", self.config.database_id.as_str(), "/query"),
            body: Some(filter),
            api_version: self.config.api_version.clone(),
        }
    }

    /// Creates a page, or updates one where there is anything to update.
    pub fn page_request(
        &self,
        page_id: Option<&str>,
        properties: &Json,
        cover: Option<&NotionMediaRef>,
        icon: Option<&NotionMediaRef>,
    ) -> (r: Option<ApiRequest>)
        ensures
            (match r {
                Some(request) => Some(request@),
                None => None,
            }) == page_step(
                self.config.database_id@,
                crate::json::opt_str(page_id),
                properties@,
                super::blocks::opt_media(cover),
                super::blocks::opt_media(icon),
            ),
    {
        let mut members: Vec<(String, Json)> = Vec::new();
        assert(crate::json::member_views(members@) =~= Seq::empty());
        match page_id {
            None => {
                put_member(
                    &mut members,
                    "parent",
                    object1("database_id", text(self.config.database_id.as_str())),
                );
            },
            Some(_) => {
                if no_members(properties) && cover.is_none() && icon.is_none() {
                    return None;
                }
            },
        }
        put_member(&mut members, "properties", properties.copy());
        match cover {
            Some(media) => {
                put_member(&mut members, "cover", media.to_page_value());
            },
            None => {},
        }
        match icon {
            Some(media) => {
                put_member(&mut members, "icon", media.to_page_value());
            },
            None => {},
        }
        let body = crate::json::object(members);
        let version = page_api_version_from_media_refs(cover, icon).to_owned();
        match page_id {
            None => Some(
                ApiRequest {
                    method: Method::Post,
                    endpoint: "/pages".to_owned(),
                    body: Some(body),
                    api_version: version,
                },
            ),
            Some(id) => Some(
                ApiRequest {
                    method: Method::Patch,
                    endpoint: endpoint("/pages/", id, ""),
                    body: Some(body),
                    api_version: version,
                },
            ),
        }
    }

    /// Asks for the blocks of a page.
    pub fn children_request(&self, block_id: &str) -> (r: ApiRequest)
        ensures
            r@ == (RequestView {
                method: Method::Get,
                endpoint: "/blocks/"@ + block_id@ + "/children"@,
                body: None,
                api_version: self.config.api_version@,
            }),
    {
        ApiRequest {
            method: Method::Get,
            endpoint: endpoint("/blocks/", block_id, "/children"),
            body: None,
            api_version: self.config.api_version.clone(),
        }
    }

    /// Replaces the body of a page: takes away each block that is there, then adds the new ones,
    /// where there are any.
    pub fn stacking_update(&self, page_id: &str, existing: &Vec<String>, children: &Vec<Json>) -> (r:
        Vec<ApiRequest>)
        ensures
            request_views(r@) == stacking_steps(
                page_id@,
                crate::text::strings(existing@),
                crate::json::values(children@),
                self.config.api_version@,
            ),
    {
        let ghost ids = crate::text::strings(existing@);
        let ghost version = self.config.api_version@;
        let mut out: Vec<ApiRequest> = Vec::new();
        let mut i: usize = 0;
        while i < existing.len()
            invariant
                i <= existing.len(),
                ids == crate::text::strings(existing@),
                version == self.config.api_version@,
                out.len() == i,
                forall|j: int| 0 <= j < i ==> (#[trigger] out@[j])@ == delete_step(ids[j], version),
            decreases existing.len() - i,
        {
            out.push(
                ApiRequest {
                    method: Method::Delete,
                    endpoint: endpoint("/blocks/", existing[i].as_str(), ""),
                    body: None,
                    api_version: self.config.api_version.clone(),
                },
            );
            i = i + 1;
        }
        let ghost deletes = ids.map_values(|id: Seq<char>| delete_step(id, version));
        assert(request_views(out@) =~= deletes);
        if children.len() > 0 {
            let ghost before = out@;
            let request = self.append_children_request(page_id, children);
            out.push(request);
            assert(request_views(out@) =~= request_views(before).push(request@));
        }
        out
    }

    /// Adds blocks to a page.
    pub fn append_children_request(&self, block_id: &str, children: &Vec<Json>) -> (r: ApiRequest)
        ensures
            r@ == append_step(
                block_id@,
                crate::json::values(children@),
                self.config.api_version@,
            ),
    {
        let mut copies: Vec<Json> = Vec::new();
        let mut uploads = false;
        let mut i: usize = 0;
        while i < children.len()
            invariant
                i <= children.len(),
                copies.len() == i,
                forall|j: int| 0 <= j < i ==> (#[trigger] copies@[j])@ == children@[j]@,
                uploads == exists|j: int| 0 <= j < i && holds_upload((#[trigger] children@[j])@),
            decreases children.len() - i,
        {
            if value_contains_file_upload(&children[i]) {
                uploads = true;
            }
            copies.push(children[i].copy());
            i = i + 1;
        }
        let ghost blocks = crate::json::values(children@);
        proof {
            if uploads {
                let j = choose|j: int| 0 <= j < i && holds_upload((#[trigger] children@[j])@);
                assert(holds_upload(blocks[j]));
            } else {
                assert forall|j: int| 0 <= j < blocks.len() implies !holds_upload(
                    #[trigger] blocks[j],
                ) by {
                    assert(blocks[j] == children@[j]@);
                }
            }
        }
        let list = array(copies);
        assert(list@->Array_0 =~= blocks);
        ApiRequest {
            method: Method::Patch,
            endpoint: endpoint("/blocks/", block_id, "/children"),
            body: Some(object1("children", list)),
            api_version: if uploads {
                FILE_UPLOAD_API_VERSION.to_owned()
            } else {
                self.config.api_version.clone()
            },
        }
    }
}

/// What a page is searched by.
pub open spec fn page_filter(
    schema: DatabaseSchema,
    email: Option<Seq<char>>,
    title: Seq<char>,
) -> JsonView {
    let (property, kind, value) = match (email, schema.email_property) {
        (Some(email), Some(property)) => (property@, "email"@, email),
        _ => (schema.title_property@, "title"@, title),
    };
    JsonView::Object(
        seq![
            (
                "filter"@,
                JsonView::Object(
                    seq![
                        ("property"@, JsonView::Str(property)),
                        (kind, JsonView::Object(seq![("equals"@, JsonView::Str(value))])),
                    ],
                ),
            ),
        ],
    )
}

/// Whether a picture was uploaded.
pub open spec fn is_upload(media: Option<super::blocks::MediaView>) -> bool {
    media matches Some(super::blocks::MediaView::FileUpload(_))
}

/// The version of the API that a page with some pictures needs.
pub open spec fn page_version(
    cover: Option<super::blocks::MediaView>,
    icon: Option<super::blocks::MediaView>,
) -> Seq<char> {
    if is_upload(cover) || is_upload(icon) {
        FILE_UPLOAD_API_VERSION@
    } else {
        API_VERSION@
    }
}

/// The version of the API that a page with some pictures needs.
pub fn page_api_version_from_media_refs(
    cover: Option<&NotionMediaRef>,
    icon: Option<&NotionMediaRef>,
) -> (r: &'static str)
    ensures
        r@ == page_version(super::blocks::opt_media(cover), super::blocks::opt_media(icon)),
{
    match cover {
        Some(NotionMediaRef::FileUpload(_)) => {
            return FILE_UPLOAD_API_VERSION;
        },
        _ => {},
    }
    match icon {
        Some(NotionMediaRef::FileUpload(_)) => FILE_UPLOAD_API_VERSION,
        _ => API_VERSION,
    }
}

/// Members with a picture, where there is one.
pub open spec fn with_media(
    members: Seq<(Seq<char>, JsonView)>,
    name: Seq<char>,
    media: Option<super::blocks::MediaView>,
) -> Seq<(Seq<char>, JsonView)> {
    match media {
        Some(m) => crate::json::set_member(members, name, super::blocks::media_value(m)),
        None => members,
    }
}

/// The request that creates a page, or updates one where there is anything to update.
pub open spec fn page_step(
    database_id: Seq<char>,
    page_id: Option<Seq<char>>,
    properties: JsonView,
    cover: Option<super::blocks::MediaView>,
    icon: Option<super::blocks::MediaView>,
) -> Option<RequestView> {
    let parent = match page_id {
        None => crate::json::set_member(
            Seq::empty(),
            "parent"@,
            JsonView::Object(seq![("database_id"@, JsonView::Str(database_id))]),
        ),
        Some(_) => Seq::empty(),
    };
    let body = JsonView::Object(
        with_media(
            with_media(
                crate::json::set_member(parent, "properties"@, properties),
                "cover"@,
                cover,
            ),
            "icon"@,
            icon,
        ),
    );
    match page_id {
        None => Some(
            RequestView {
                method: Method::Post,
                endpoint: "/pages"@,
                body: Some(body),
                api_version: page_version(cover, icon),
            },
        ),
        Some(id) => if lacks_members(properties) && cover is None && icon is None {
            None
        } else {
            Some(
                RequestView {
                    method: Method::Patch,
                    endpoint: "/pages/"@ + id,
                    body: Some(body),
                    api_version: page_version(cover, icon),
                },
            )
        },
    }
}

/// Whether a value is no object, or one without members.
pub open spec fn lacks_members(value: JsonView) -> bool {
    match value {
        JsonView::Object(members) => members.len() == 0,
        _ => true,
    }
}

fn no_members(value: &Json) -> (r: bool)
    ensures
        r == lacks_members(value@),
{
    match value {
        Json::Object(members) => members.len() == 0,
        _ => true,
    }
}

fn endpoint(head: &str, id: &str, tail: &str) -> (r: String)
    ensures
        r@ == head@ + id@ + tail@,
        tail@ == ""@ ==> r@ == head@ + id@,
{
    let mut out = head.to_owned();
    out.append(id);
    out.append(tail);
    proof {
        reveal_strlit("");
        if tail@ == ""@ {
            assert(out@ =~= head@ + id@);
        }
    }
    out
}

/// Whether an uploaded file is named anywhere in a value.
pub open spec fn holds_upload(value: JsonView) -> bool
    decreases value,
{
    match value {
        JsonView::Object(members) => {
            ||| crate::json::as_text(crate::json::member(value, "type"@)) == Some("file_upload"@)
            ||| exists|i: int| 0 <= i < members.len() && holds_upload((#[trigger] members[i]).1)
        },
        JsonView::Array(items) => exists|i: int|
            0 <= i < items.len() && holds_upload(#[trigger] items[i]),
        _ => false,
    }
}

proof fn array_holds_upload(items: Seq<JsonView>, at: int)
    requires
        0 <= at < items.len(),
        holds_upload(items[at]),
    ensures
        holds_upload(JsonView::Array(items)),
{
    let v = JsonView::Array(items);
    assert(v->Array_0 == items);
    assert(v->Array_0[at] == items[at]);
    assert(holds_upload(v->Array_0[at]));
}

/// Whether an uploaded file is named anywhere in a value.
pub fn value_contains_file_upload(value: &Json) -> (r: bool)
    ensures
        r == holds_upload(value@),
    decreases value,
{
    match value {
        Json::Object(members) => {
            match value.get_str("type") {
                Some(kind) => {
                    if str_eq(kind, "file_upload") {
                        return true;
                    }
                },
                None => {},
            }
            let ghost views = value@->Object_0;
            let mut i: usize = 0;
            while i < members.len()
                invariant
                    i <= members.len(),
                    *value matches Json::Object(own) && own == *members,
                    value@ == JsonView::Object(views),
                    views.len() == members@.len(),
                    forall|j: int| 0 <= j < i ==> !holds_upload((#[trigger] views[j]).1),
                decreases members.len() - i,
            {
                assert(views[i as int].1 == members@[i as int].1@);
                if value_contains_file_upload(&members[i].1) {
                    return true;
                }
                i = i + 1;
            }
            false
        },
        Json::Array(items) => {
            let ghost views = value@->Array_0;
            let mut i: usize = 0;
            while i < items.len()
                invariant
                    i <= items.len(),
                    *value matches Json::Array(own) && own == *items,
                    value@ == JsonView::Array(views),
                    views.len() == items@.len(),
                    forall|j: int| 0 <= j < i ==> !holds_upload(#[trigger] views[j]),
                decreases items.len() - i,
            {
                assert(views[i as int] == items@[i as int]@);
                if value_contains_file_upload(&items[i]) {
                    proof {
                        array_holds_upload(views, i as int);
                    }
                    return true;
                }
                i = i + 1;
            }
            false
        },
        _ => false,
    }
}

/// What requests ask.
pub open spec fn request_views(requests: Seq<ApiRequest>) -> Seq<RequestView> {
    requests.map_values(|r: ApiRequest| r@)
}

/// The request that takes a block away.
pub open spec fn delete_step(block_id: Seq<char>, api_version: Seq<char>) -> RequestView {
    RequestView {
        method: Method::Delete,
        endpoint: "/blocks/"@ + block_id,
        body: None,
        api_version,
    }
}

/// The request that adds blocks.
pub open spec fn append_step(
    block_id: Seq<char>,
    blocks: Seq<JsonView>,
    api_version: Seq<char>,
) -> RequestView {
    RequestView {
        method: Method::Patch,
        endpoint: "/blocks/"@ + block_id + "/children"@,
        body: Some(JsonView::Object(seq![("children"@, JsonView::Array(blocks))])),
        api_version: if exists|i: int| 0 <= i < blocks.len() && holds_upload(#[trigger] blocks[i]) {
            FILE_UPLOAD_API_VERSION@
        } else {
            api_version
        },
    }
}

/// The requests that replace the body of a page.
pub open spec fn stacking_steps(
    page_id: Seq<char>,
    existing: Seq<Seq<char>>,
    blocks: Seq<JsonView>,
    api_version: Seq<char>,
) -> Seq<RequestView> {
    let deletes = existing.map_values(|id: Seq<char>| delete_step(id, api_version));
    if blocks.len() > 0 {
        deletes.push(append_step(page_id, blocks, api_version))
    } else {
        deletes
    }
}

/// The request that announces an upload.
pub fn create_upload_request(filename: &str, content_type: &str, length: usize) -> (r: ApiRequest)
    ensures
        r@ == (RequestView {
            method: Method::Post,
            endpoint: "/file_uploads"@,
            body: Some(
                JsonView::Object(
                    seq![
                        ("filename"@, JsonView::Str(filename@)),
                        ("content_type"@, JsonView::Str(content_type@)),
                        ("content_length"@, JsonView::UInt(length as u64)),
                    ],
                ),
            ),
            api_version: FILE_UPLOAD_API_VERSION@,
        }),
{
    let body = object3(
        "filename",
        text(filename),
        "content_type",
        text(content_type),
        "content_length",
        number(length as u64),
    );
    ApiRequest {
        method: Method::Post,
        endpoint: "/file_uploads".to_owned(),
        body: Some(body),
        api_version: FILE_UPLOAD_API_VERSION.to_owned(),
    }
}

/// Where the bytes of an upload are sent.
pub fn send_upload_endpoint(upload_id: &str) -> (r: String)
    ensures
        r@ == "/file_uploads/"@ + upload_id@ + "/send"@,
{
    endpoint("/file_uploads/", upload_id, "/send")
}

/// What the answer to an upload means: the picture, where its status says that it was taken.
pub fn upload_outcome(upload_id: &str, status: &str) -> (r: Result<NotionMediaRef, AdapterError>)
    ensures
        (match r {
            Ok(media) => Ok(media@),
            Err(e) => Err(e@),
        }) == (if status@ == "uploaded"@ {
            Ok(super::blocks::MediaView::FileUpload(upload_id@))
        } else {
            Err(
                AdapterErrorView::Other(
                    "Notion file upload "@ + upload_id@ + " ended with unexpected status "@
                        + status@,
                ),
            )
        }),
{
    if str_eq(status, "uploaded") {
        Ok(NotionMediaRef::FileUpload(upload_id.to_owned()))
    } else {
        let mut message = "Notion file upload ".to_owned();
        message.append(upload_id);
        message.append(" ended with unexpected status ");
        message.append(status);
        Err(AdapterError::Other(message))
    }
}

/// The request that moves a page to the trash.
pub fn trash_request(external_id: &str) -> (r: ApiRequest)
    ensures
        r@ == (RequestView {
            method: Method::Patch,
            endpoint: "/pages/"@ + external_id@,
            body: Some(JsonView::Object(seq![("in_trash"@, JsonView::Bool(true))])),
            api_version: FILE_UPLOAD_API_VERSION@,
        }),
{
    ApiRequest {
        method: Method::Patch,
        endpoint: endpoint("/pages/", external_id, ""),
        body: Some(object1("in_trash", boolean(true))),
        api_version: FILE_UPLOAD_API_VERSION.to_owned(),
    }
}

/// What a status says that is no success: too many requests, a refused token, or another error,
/// with the text of the status and of the answer.
pub open spec fn status_failure(
    status: u16,
    status_text: Seq<char>,
    body: Seq<char>,
) -> Option<AdapterErrorView> {
    if status == 429 {
        Some(AdapterErrorView::RateLimited(1))
    } else if status == 401 || status == 403 {
        Some(AdapterErrorView::AuthFailure("Notion API "@ + status_text))
    } else if 400 <= status < 600 {
        Some(AdapterErrorView::Other("Notion API error ("@ + status_text + "): "@ + body))
    } else {
        None
    }
}

/// The error that a status stands for, where it stands for one.
pub fn status_error(status: u16, status_text: &str, body: &str) -> (r: Option<AdapterError>)
    ensures
        (match r {
            Some(e) => Some(e@),
            None => None,
        }) == status_failure(status, status_text@, body@),
{
    if status == 429 {
        Some(AdapterError::RateLimited { retry_after_secs: 1 })
    } else if status == 401 || status == 403 {
        let mut message = "Notion API ".to_owned();
        message.append(status_text);
        Some(AdapterError::AuthFailure { message })
    } else if 400 <= status && status < 600 {
        let mut message = "Notion API error (".to_owned();
        message.append(status_text);
        message.append("): ");
        message.append(body);
        Some(AdapterError::Other(message))
    } else {
        None
    }
}

/// The address by which the page of a profile is found.
pub fn lookup_email<'a>(profile: &'a StudentProfile, entity_id: &'a str) -> (r: &'a str)
    ensures
        r@ == (match (
            crate::text::opt_string(profile.email),
            crate::text::opt_string(profile.generated_email),
        ) {
            (Some(email), _) => email,
            (None, Some(email)) => email,
            (None, None) => entity_id@,
        }),
{
    match &profile.email {
        Some(email) => email.as_str(),
        None => match &profile.generated_email {
            Some(email) => email.as_str(),
            None => entity_id,
        },
    }
}

/// Members with those of another value of the given name, where it has one.
pub open spec fn with_carried(
    members: Seq<(Seq<char>, JsonView)>,
    given: JsonView,
    name: Seq<char>,
) -> Seq<(Seq<char>, JsonView)> {
    match crate::json::member(given, name) {
        Some(value) => crate::json::set_member(members, name, value),
        None => members,
    }
}

/// A profile as JSON, with what the given payload says beside it.
pub fn normalized_payload(profile: &StudentProfile, given: &Json) -> (r: Json)
    ensures
        r@ == JsonView::Object(
            with_carried(
                with_carried(crate::profile::profile_value(*profile)->Object_0, given@, "_lethe"@),
                given@,
                "_lethe_source_images"@,
            ),
        ),
{
    let value = profile_json(profile);
    let ghost start = crate::profile::profile_value(*profile)->Object_0;
    match value {
        Json::Object(own) => {
            let mut members = own;
            assert(crate::json::member_views(members@) =~= start);
            match given.get("_lethe") {
                Some(v) => {
                    put_member(&mut members, "_lethe", v.copy());
                },
                None => {},
            }
            match given.get("_lethe_source_images") {
                Some(v) => {
                    put_member(&mut members, "_lethe_source_images", v.copy());
                },
                None => {},
            }
            crate::json::object(members)
        },
        _ => {
            assert(false);
            value
        },
    }
}

/// Whether a page was there before.
#[derive(Debug, Clone, Copy, PartialEq, Eq, Structural)]
pub enum WriteAction {
    Created,
    Updated,
}

/// The page that a record is written to: the one that it names, else the one that was found, else
/// none yet.
pub fn target_page(external_id: &Option<String>, found: Option<&str>) -> (r: Option<String>)
    ensures
        crate::text::opt_string(r) == (match crate::text::opt_string(*external_id) {
            Some(id) => Some(id),
            None => crate::json::opt_str(found),
        }),
{
    match external_id {
        Some(id) => Some(id.clone()),
        None => match found {
            Some(id) => Some(id.to_owned()),
            None => None,
        },
    }
}

/// What writing to a page is, where a page is or is not there.
pub fn write_action(target: &Option<String>) -> (r: WriteAction)
    ensures
        r == (if target is Some {
            WriteAction::Updated
        } else {
            WriteAction::Created
        }),
{
    match target {
        Some(_) => WriteAction::Updated,
        None => WriteAction::Created,
    }
}

/// A text without dashes.
pub open spec fn undashed(value: Seq<char>) -> Seq<char>
    decreases value.len(),
{
    if value.len() == 0 {
        Seq::empty()
    } else if value.last() == '-' {
        undashed(value.drop_last())
    } else {
        undashed(value.drop_last()).push(value.last())
    }
}

/// The address of a page.
pub fn page_url(page_id: &str) -> (r: String)
    ensures
        r@ == "https://www.notion.so/"@ + undashed(page_id@),
{
    let mut out = "https://www.notion.so/".to_owned();
    let chars = chars_of(page_id);
    let mut i: usize = 0;
    assert(out@ =~= "https://www.notion.so/"@ + undashed(page_id@.take(0)));
    while i < chars.len()
        invariant
            i <= chars.len(),
            chars@ == page_id@,
            out@ == "https://www.notion.so/"@ + undashed(page_id@.take(i as int)),
        decreases chars.len() - i,
    {
        assert(page_id@.take(i + 1).drop_last() =~= page_id@.take(i as int));
        let ghost before = out@;
        if chars[i] != '-' {
            out.push(chars[i]);
            assert(out@ =~= "https://www.notion.so/"@ + undashed(page_id@.take(i + 1)));
        }
        i = i + 1;
    }
    assert(page_id@.take(i as int) =~= page_id@);
    out
}

/// Blocks with an uploaded picture among them are sent with the version of the API that uploads
/// need, and blocks without one with the version that was configured.
pub proof fn uploads_choose_the_version(
    page_id: Seq<char>,
    blocks: Seq<JsonView>,
    at: int,
    upload: Seq<char>,
    version: Seq<char>,
)
    requires
        0 <= at < blocks.len(),
        blocks[at] == super::blocks::block_value(
            "image"@,
            super::blocks::media_value(super::blocks::MediaView::FileUpload(upload)),
        ),
    ensures
        append_step(page_id, blocks, version).api_version == FILE_UPLOAD_API_VERSION@,
{
    let media = super::blocks::media_value(super::blocks::MediaView::FileUpload(upload));
    let members = blocks[at]->Object_0;
    assert(media->Object_0[0] == ("type"@, JsonView::Str("file_upload"@)));
    assert(crate::json::member_index(media->Object_0, "type"@) == Some(0int));
    assert(holds_upload(media));
    assert(members[2].1 == media);
    assert(holds_upload(blocks[at]));
}

} // verus!
