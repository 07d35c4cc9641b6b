//! The body of a page: blocks that show a profile.

use vstd::prelude::*;
use vstd::string::*;

use crate::json::{
    array, array_of, array_of2, boolean, number, object1, object2, object3, text, Json, JsonView,
};
use crate::profile::{GalleryImage, StudentProfile, StudentProperties};
use crate::text::{is_blank, join_strings, starts_with, trim};

use super::naming::keep_once_by_name;

verus! {

/// How many characters a rich text may hold.
pub const MAX_RICH_TEXT_CHARS: usize = 2000;

/// How many pictures a gallery shows.
pub const MAX_GALLERY_IMAGES: usize = 9;

/// A picture that a page refers to.
#[derive(Debug, PartialEq, Eq)]
pub enum NotionMediaRef {
    /// A picture elsewhere, by its address.
    External(String),
    /// An uploaded picture, by its identity.
    FileUpload(String),
}

/// Which picture is meant.
pub enum MediaView {
    External(Seq<char>),
    FileUpload(Seq<char>),
}

impl View for NotionMediaRef {
    type V = MediaView;

    open spec fn view(&self) -> MediaView {
        match *self {
            NotionMediaRef::External(url) => MediaView::External(url@),
            NotionMediaRef::FileUpload(id) => MediaView::FileUpload(id@),
        }
    }
}

/// An optional picture seen through its view.
pub open spec fn opt_media(media: Option<&NotionMediaRef>) -> Option<MediaView> {
    match media {
        Some(m) => Some(m@),
        None => None,
    }
}

/// How a page names a picture.
pub open spec fn media_value(media: MediaView) -> JsonView {
    match media {
        MediaView::External(url) => JsonView::Object(
            seq![
                ("type"@, JsonView::Str("external"@)),
                ("external"@, JsonView::Object(seq![("url"@, JsonView::Str(url))])),
            ],
        ),
        MediaView::FileUpload(id) => JsonView::Object(
            seq![
                ("type"@, JsonView::Str("file_upload"@)),
                ("file_upload"@, JsonView::Object(seq![("id"@, JsonView::Str(id))])),
            ],
        ),
    }
}

/// A block of a kind.
pub open spec fn block_value(kind: Seq<char>, body: JsonView) -> JsonView {
    JsonView::Object(
        seq![
            ("object"@, JsonView::Str("block"@)),
            ("type"@, JsonView::Str(kind)),
            (kind, body),
        ],
    )
}

fn block(kind: &str, body: Json) -> (r: Json)
    ensures
        r@ == block_value(kind@, body@),
{
    object3("object", text("block"), "type", text(kind), kind, body)
}

impl NotionMediaRef {
    /// How a page names the picture.
    pub fn to_page_value(&self) -> (r: Json)
        ensures
            r@ == media_value(self@),
    {
        match self {
            NotionMediaRef::External(url) => object2(
                "type",
                text("external"),
                "external",
                object1("url", text(url.as_str())),
            ),
            NotionMediaRef::FileUpload(id) => object2(
                "type",
                text("file_upload"),
                "file_upload",
                object1("id", text(id.as_str())),
            ),
        }
    }

    /// A block that shows the picture.
    pub fn to_image_block(&self) -> (r: Json)
        ensures
            r@ == block_value("image"@, media_value(self@)),
    {
        block("image", self.to_page_value())
    }
}

/// A text that a rich text can hold: as it is, or its beginning with an ellipsis.
pub open spec fn truncated(content: Seq<char>) -> Seq<char> {
    if content.len() <= MAX_RICH_TEXT_CHARS {
        content
    } else {
        content.take(MAX_RICH_TEXT_CHARS - 1).push('…')
    }
}

/// A text that a rich text can hold: as it is, or its beginning with an ellipsis.
pub fn truncate_rich_text_content(content: &str) -> (r: String)
    ensures
        r@ == truncated(content@),
{
    if content.unicode_len() <= MAX_RICH_TEXT_CHARS {
        content.to_owned()
    } else {
        let mut out = content.substring_char(0, MAX_RICH_TEXT_CHARS - 1).to_owned();
        assert(out@ =~= content@.take(MAX_RICH_TEXT_CHARS - 1));
        out.push('…');
        out
    }
}

/// What a rich text holds never exceeds the limit, is the text itself where that fits, and is no
/// further shortened by a second attempt.
pub proof fn rich_texts_stay_within_the_limit(content: Seq<char>)
    ensures
        truncated(content).len() <= MAX_RICH_TEXT_CHARS,
        content.len() <= MAX_RICH_TEXT_CHARS ==> truncated(content) == content,
        truncated(truncated(content)) == truncated(content),
{
}

/// A rich text in plain letters.
pub open spec fn plain_value(content: Seq<char>) -> JsonView {
    JsonView::Object(
        seq![
            ("type"@, JsonView::Str("text"@)),
            ("text"@, JsonView::Object(seq![("content"@, JsonView::Str(truncated(content)))])),
        ],
    )
}

fn plain_rich_text(content: &str) -> (r: Json)
    ensures
        r@ == plain_value(content@),
{
    let shown = truncate_rich_text_content(content);
    object2("type", text("text"), "text", object1("content", text(shown.as_str())))
}

/// A rich text in bold letters.
pub open spec fn bold_value(content: Seq<char>) -> JsonView {
    JsonView::Object(
        seq![
            ("type"@, JsonView::Str("text"@)),
            ("text"@, JsonView::Object(seq![("content"@, JsonView::Str(truncated(content)))])),
            ("annotations"@, JsonView::Object(seq![("bold"@, JsonView::Bool(true))])),
        ],
    )
}

fn bold_rich_text(content: &str) -> (r: Json)
    ensures
        r@ == bold_value(content@),
{
    let shown = truncate_rich_text_content(content);
    object3(
        "type",
        text("text"),
        "text",
        object1("content", text(shown.as_str())),
        "annotations",
        object1("bold", boolean(true)),
    )
}

/// A list of rich texts as the body of a block.
pub open spec fn rich_text_body(texts: Seq<JsonView>) -> JsonView {
    JsonView::Object(seq![("rich_text"@, JsonView::Array(texts))])
}

/// A heading.
pub open spec fn heading_value(title: Seq<char>) -> JsonView {
    block_value("heading_2"@, rich_text_body(seq![plain_value(title)]))
}

fn heading_2_block(title: &str) -> (r: Json)
    ensures
        r@ == heading_value(title@),
{
    block("heading_2", object1("rich_text", array_of(plain_rich_text(title))))
}

/// What a section shows.
pub open spec fn section_view(section: Option<Vec<Json>>) -> Option<Seq<JsonView>> {
    match section {
        Some(blocks) => Some(crate::json::values(blocks@)),
        None => None,
    }
}

/// A text without the space around it, where something is left.
pub open spec fn some_text(value: Option<Seq<char>>) -> Option<Seq<char>> {
    match value {
        Some(t) => if crate::text::trimmed(t).len() > 0 {
            Some(crate::text::trimmed(t))
        } else {
            None
        },
        None => None,
    }
}

/// A text without the space around it, where something is left.
pub(crate) fn nonblank<'a>(value: Option<&'a str>) -> (r: Option<&'a str>)
    ensures
        crate::json::opt_str(r) == some_text(crate::json::opt_str(value)),
{
    match value {
        Some(t) => {
            let inner = trim(t);
            if inner.unicode_len() > 0 {
                Some(inner)
            } else {
                None
            }
        },
        None => None,
    }
}

/// An optional text as a slice.
pub(crate) fn as_slice<'a>(value: &'a Option<String>) -> (r: Option<&'a str>)
    ensures
        crate::json::opt_str(r) == crate::text::opt_string(*value),
{
    match value {
        Some(t) => Some(t.as_str()),
        None => None,
    }
}

/// The callout that quotes a self introduction.
pub open spec fn bio_section(bio: Option<Seq<char>>) -> Option<Seq<JsonView>> {
    match some_text(bio) {
        Some(t) => Some(
            seq![
                block_value(
                    "callout"@,
                    JsonView::Object(
                        seq![
                            (
                                "icon"@,
                                JsonView::Object(
                                    seq![
                                        ("type"@, JsonView::Str("emoji"@)),
                                        ("emoji"@, JsonView::Str("💬"@)),
                                    ],
                                ),
                            ),
                            ("rich_text"@, JsonView::Array(seq![plain_value(t)])),
                            ("color"@, JsonView::Str("gray_background"@)),
                        ],
                    ),
                ),
            ],
        ),
        None => None,
    }
}

/// The callout that quotes a self introduction.
pub fn build_bio_section(bio_text: Option<&str>) -> (r: Option<Vec<Json>>)
    ensures
        section_view(r) == bio_section(crate::json::opt_str(bio_text)),
{
    match nonblank(bio_text) {
        Some(t) => {
            let callout = block(
                "callout",
                object3(
                    "icon",
                    object2("type", text("emoji"), "emoji", text("💬")),
                    "rich_text",
                    array_of(plain_rich_text(t)),
                    "color",
                    text("gray_background"),
                ),
            );
            let section = vec![callout];
            assert(crate::json::values(section@) =~= bio_section(crate::json::opt_str(bio_text))->0);
            Some(section)
        },
        None => None,
    }
}

/// What stands in a row of the table of facts.
#[derive(Debug)]
pub enum AboutValue {
    Text(String),
    Link(String),
}

/// What a row shows.
pub enum AboutView {
    Text(Seq<char>),
    Link(Seq<char>),
}

impl View for AboutValue {
    type V = AboutView;

    open spec fn view(&self) -> AboutView {
        match *self {
            AboutValue::Text(t) => AboutView::Text(t@),
            AboutValue::Link(t) => AboutView::Link(t@),
        }
    }
}

/// The rows of a table of facts.
pub open spec fn row_views(rows: Seq<(String, AboutValue)>) -> Seq<(Seq<char>, AboutView)> {
    rows.map_values(|row: (String, AboutValue)| (row.0@, row.1@))
}

/// Whether a text is the address of a web page.
pub open spec fn is_web_address(value: Seq<char>) -> bool {
    crate::text::begins(value, "http://"@) || crate::text::begins(value, "https://"@)
}

/// Whether a text is the address of a web page.
pub(crate) fn web_address(value: &str) -> (r: bool)
    ensures
        r == is_web_address(value@),
{
    starts_with(value, "http://") || starts_with(value, "https://")
}

/// Rows with one more where there is a value.
pub open spec fn with_row(
    rows: Seq<(Seq<char>, AboutView)>,
    label: Seq<char>,
    value: Option<Seq<char>>,
) -> Seq<(Seq<char>, AboutView)> {
    match value {
        Some(t) => if t.len() > 0 {
            rows.push((label, AboutView::Text(t)))
        } else {
            rows
        },
        None => rows,
    }
}

/// Rows with one more where there is a value, which is a link where it is an address.
pub open spec fn with_link_row(
    rows: Seq<(Seq<char>, AboutView)>,
    label: Seq<char>,
    value: Option<Seq<char>>,
) -> Seq<(Seq<char>, AboutView)> {
    match value {
        Some(t) => if t.len() > 0 && is_web_address(t) {
            rows.push((label, AboutView::Link(t)))
        } else {
            with_row(rows, label, value)
        },
        None => rows,
    }
}

/// The rows of the table of facts.
pub open spec fn about_rows(p: StudentProperties) -> Seq<(Seq<char>, AboutView)> {
    let r1 = with_row(Seq::empty(), "呼び名"@, crate::text::opt_string(p.nickname));
    let r2 = with_row(r1, "出身"@, crate::text::opt_string(p.birthplace));
    let r3 = with_row(r2, "誕生日"@, crate::text::opt_string(p.dob));
    let r4 = with_row(r3, "専攻"@, crate::text::opt_string(p.major));
    let r5 = with_row(r4, "所属"@, crate::text::opt_string(p.affiliation));
    let r6 = with_row(r5, "MBTI"@, crate::text::opt_string(p.mbti));
    with_link_row(r6, "SNS"@, crate::text::opt_string(p.sns))
}

fn add_row(rows: &mut Vec<(String, AboutValue)>, label: &str, value: &Option<String>)
    ensures
        row_views(final(rows)@) == with_row(
            row_views(old(rows)@),
            label@,
            crate::text::opt_string(*value),
        ),
{
    match value {
        Some(t) => {
            if t.as_str().unicode_len() > 0 {
                rows.push((label.to_owned(), AboutValue::Text(t.clone())));
            }
        },
        None => {},
    }
    assert(row_views(rows@) =~= with_row(
        row_views(old(rows)@),
        label@,
        crate::text::opt_string(*value),
    ));
}

/// The rows of the table of facts.
pub fn build_about_rows(properties: &StudentProperties) -> (r: Vec<(String, AboutValue)>)
    ensures
        row_views(r@) == about_rows(*properties),
{
    let mut rows: Vec<(String, AboutValue)> = Vec::new();
    assert(row_views(rows@) =~= Seq::empty());
    add_row(&mut rows, "呼び名", &properties.nickname);
    add_row(&mut rows, "出身", &properties.birthplace);
    add_row(&mut rows, "誕生日", &properties.dob);
    add_row(&mut rows, "専攻", &properties.major);
    add_row(&mut rows, "所属", &properties.affiliation);
    add_row(&mut rows, "MBTI", &properties.mbti);
    let ghost before = row_views(rows@);
    match &properties.sns {
        Some(t) => {
            if t.as_str().unicode_len() > 0 && web_address(t.as_str()) {
                let ghost given = rows@;
                rows.push(("SNS".to_owned(), AboutValue::Link(t.clone())));
                assert(row_views(rows@) =~= before.push(("SNS"@, AboutView::Link(t@))));
            } else {
                add_row(&mut rows, "SNS", &properties.sns);
            }
        },
        None => {},
    }
    rows
}

/// The rich text of a value in the table of facts.
pub open spec fn about_value(value: AboutView) -> JsonView {
    match value {
        AboutView::Text(t) => plain_value(t),
        AboutView::Link(url) => JsonView::Object(
            seq![
                ("type"@, JsonView::Str("text"@)),
                (
                    "text"@,
                    JsonView::Object(
                        seq![
                            ("content"@, JsonView::Str(truncated(url))),
                            ("link"@, JsonView::Object(seq![("url"@, JsonView::Str(url))])),
                        ],
                    ),
                ),
            ],
        ),
    }
}

fn about_value_rich_text(value: &AboutValue) -> (r: Json)
    ensures
        r@ == about_value(value@),
{
    match value {
        AboutValue::Text(t) => plain_rich_text(t.as_str()),
        AboutValue::Link(url) => {
            let shown = truncate_rich_text_content(url.as_str());
            object2(
                "type",
                text("text"),
                "text",
                object2(
                    "content",
                    text(shown.as_str()),
                    "link",
                    object1("url", text(url.as_str())),
                ),
            )
        },
    }
}

/// A row of the table of facts.
pub open spec fn about_row(row: (Seq<char>, AboutView)) -> JsonView {
    block_value(
        "table_row"@,
        JsonView::Object(
            seq![
                (
                    "cells"@,
                    JsonView::Array(
                        seq![
                            JsonView::Array(seq![bold_value(row.0)]),
                            JsonView::Array(seq![about_value(row.1)]),
                        ],
                    ),
                ),
            ],
        ),
    )
}

/// The table of facts.
pub open spec fn about_table(rows: Seq<(Seq<char>, AboutView)>) -> JsonView {
    block_value(
        "table"@,
        JsonView::Object(
            seq![
                ("table_width"@, JsonView::UInt(2)),
                ("has_column_header"@, JsonView::Bool(false)),
                ("has_row_header"@, JsonView::Bool(false)),
                (
                    "children"@,
                    JsonView::Array(
                        rows.map_values(|row: (Seq<char>, AboutView)| about_row(row)),
                    ),
                ),
            ],
        ),
    )
}

fn about_table_block(rows: &Vec<(String, AboutValue)>) -> (r: Json)
    ensures
        r@ == about_table(row_views(rows@)),
{
    let mut children: Vec<Json> = Vec::new();
    let mut i: usize = 0;
    while i < rows.len()
        invariant
            i <= rows.len(),
            children.len() == i,
            forall|j: int|
                0 <= j < i ==> (#[trigger] children@[j])@ == about_row(
                    (rows@[j].0@, rows@[j].1@),
                ),
        decreases rows.len() - i,
    {
        children.push(
            block(
                "table_row",
                object1(
                    "cells",
                    array_of2(
                        array_of(bold_rich_text(rows[i].0.as_str())),
                        array_of(about_value_rich_text(&rows[i].1)),
                    ),
                ),
            ),
        );
        i = i + 1;
    }
    let list = array(children);
    let ghost shown = row_views(rows@).map_values(|row: (Seq<char>, AboutView)| about_row(row));
    assert(list@->Array_0 =~= shown);
    let body = crate::json::object(
        vec![
            crate::json::entry("table_width", number(2)),
            crate::json::entry("has_column_header", boolean(false)),
            crate::json::entry("has_row_header", boolean(false)),
            crate::json::entry("children", list),
        ],
    );
    assert(body@->Object_0 =~= seq![
        ("table_width"@, JsonView::UInt(2)),
        ("has_column_header"@, JsonView::Bool(false)),
        ("has_row_header"@, JsonView::Bool(false)),
        ("children"@, JsonView::Array(shown)),
    ]);
    block("table", body)
}

/// A list of blocks as the body of a block.
pub open spec fn children_body(blocks: Seq<JsonView>) -> JsonView {
    JsonView::Object(seq![("children"@, JsonView::Array(blocks))])
}

/// A column of blocks.
pub open spec fn column_value(blocks: Seq<JsonView>) -> JsonView {
    block_value("column"@, children_body(blocks))
}

/// The section of facts, beside the picture of the person where there is one.
pub open spec fn about_section(p: StudentProperties, pic: Option<MediaView>) -> Option<
    Seq<JsonView>,
> {
    let table = about_table(about_rows(p));
    match pic {
        Some(media) => Some(
            seq![
                heading_value("About"@),
                block_value(
                    "column_list"@,
                    children_body(
                        seq![
                            column_value(seq![block_value("image"@, media_value(media))]),
                            column_value(seq![table]),
                        ],
                    ),
                ),
            ],
        ),
        None => if about_rows(p).len() > 0 {
            Some(seq![heading_value("About"@), table])
        } else {
            None
        },
    }
}

/// The section of facts, beside the picture of the person where there is one.
pub fn build_about_section(
    properties: &StudentProperties,
    profile_pic: Option<&NotionMediaRef>,
) -> (r: Option<Vec<Json>>)
    ensures
        section_view(r) == about_section(*properties, opt_media(profile_pic)),
{
    let rows = build_about_rows(properties);
    assert(rows@.len() == row_views(rows@).len());
    match profile_pic {
        Some(media) => {
            let columns = block(
                "column_list",
                object1(
                    "children",
                    array_of2(
                        block("column", object1("children", array_of(media.to_image_block()))),
                        block("column", object1("children", array_of(about_table_block(&rows)))),
                    ),
                ),
            );
            let section = vec![heading_2_block("About"), columns];
            assert(crate::json::values(section@) =~= about_section(
                *properties,
                opt_media(profile_pic),
            )->0);
            Some(section)
        },
        None => {
            if rows.len() == 0 {
                return None;
            }
            let section = vec![heading_2_block("About"), about_table_block(&rows)];
            assert(crate::json::values(section@) =~= about_section(
                *properties,
                opt_media(profile_pic),
            )->0);
            Some(section)
        },
    }
}

/// Texts in one line, each name once; none where none has a name.
pub open spec fn combined(texts: Seq<Seq<char>>) -> Option<Seq<char>> {
    let kept = super::naming::once_by_name(texts);
    if kept.len() == 0 {
        None
    } else {
        Some(crate::text::join(kept, ", "@))
    }
}

/// Texts in one line, each name once; none where none has a name.
pub fn combine_list_texts(texts: &Vec<String>) -> (r: Option<String>)
    ensures
        crate::text::opt_string(r) == combined(crate::text::strings(texts@)),
{
    let kept = keep_once_by_name(texts);
    assert(kept@.len() == crate::text::strings(kept@).len());
    if kept.len() == 0 {
        None
    } else {
        Some(join_strings(kept.as_slice(), ", "))
    }
}

/// Blocks with one more that names a list, where the list names something.
pub open spec fn with_highlight(
    blocks: Seq<JsonView>,
    label: Seq<char>,
    texts: Seq<Seq<char>>,
) -> Seq<JsonView> {
    match combined(texts) {
        Some(line) => blocks.push(
            block_value(
                "paragraph"@,
                rich_text_body(seq![bold_value(label), plain_value(line)]),
            ),
        ),
        None => blocks,
    }
}

/// The section of lists.
pub open spec fn highlights_section(p: StudentProperties) -> Option<Seq<JsonView>> {
    let head = seq![heading_value("Highlights"@)];
    let b1 = with_highlight(head, "🎯 Hobbies: "@, crate::text::strings(p.hobbies@));
    let b2 = with_highlight(b1, "🔍 Interests: "@, crate::text::strings(p.interests@));
    let b3 = with_highlight(b2, "❤️ Likes: "@, crate::text::strings(p.likes@));
    if b3.len() > 1 {
        Some(b3)
    } else {
        None
    }
}

fn add_highlight(blocks: &mut Vec<Json>, label: &str, texts: &Vec<String>)
    ensures
        crate::json::values(final(blocks)@) == with_highlight(
            crate::json::values(old(blocks)@),
            label@,
            crate::text::strings(texts@),
        ),
{
    match combine_list_texts(texts) {
        Some(line) => {
            let paragraph = block(
                "paragraph",
                object1(
                    "rich_text",
                    array_of2(bold_rich_text(label), plain_rich_text(line.as_str())),
                ),
            );
            blocks.push(paragraph);
        },
        None => {},
    }
    assert(crate::json::values(blocks@) =~= with_highlight(
        crate::json::values(old(blocks)@),
        label@,
        crate::text::strings(texts@),
    ));
}

/// The section of lists.
pub fn build_highlights_section(properties: &StudentProperties) -> (r: Option<Vec<Json>>)
    ensures
        section_view(r) == highlights_section(*properties),
{
    let mut section = vec![heading_2_block("Highlights")];
    assert(crate::json::values(section@) =~= seq![heading_value("Highlights"@)]);
    add_highlight(&mut section, "🎯 Hobbies: ", &properties.hobbies);
    add_highlight(&mut section, "🔍 Interests: ", &properties.interests);
    add_highlight(&mut section, "❤️ Likes: ", &properties.likes);
    assert(section@.len() == crate::json::values(section@).len());
    if section.len() > 1 {
        Some(section)
    } else {
        None
    }
}

/// Blocks with one more that unfolds to a text, where there is one.
pub open spec fn with_toggle(
    blocks: Seq<JsonView>,
    label: Seq<char>,
    value: Option<Seq<char>>,
) -> Seq<JsonView> {
    match some_text(value) {
        Some(t) => blocks.push(
            block_value(
                "toggle"@,
                JsonView::Object(
                    seq![
                        ("rich_text"@, JsonView::Array(seq![bold_value(label)])),
                        (
                            "children"@,
                            JsonView::Array(
                                seq![
                                    block_value("paragraph"@, rich_text_body(seq![plain_value(t)])),
                                ],
                            ),
                        ),
                    ],
                ),
            ),
        ),
        None => blocks,
    }
}

/// The section of texts to unfold.
pub open spec fn toggle_section(p: StudentProperties) -> Option<Seq<JsonView>> {
    let b1 = with_toggle(
        Seq::empty(),
        "🚀 New Challenges"@,
        crate::text::opt_string(p.new_challenges),
    );
    let b2 = with_toggle(b1, "💡 Ask Me About"@, crate::text::opt_string(p.ask_me_about));
    let b3 = with_toggle(b2, "🔄 Turning Point"@, crate::text::opt_string(p.turning_point));
    let b4 = with_toggle(b3, "💭 BTW"@, crate::text::opt_string(p.btw));
    let b5 = with_toggle(b4, "✉️ Message"@, crate::text::opt_string(p.message));
    let b6 = with_toggle(b5, "🙅 Dislikes"@, crate::text::opt_string(p.dislikes));
    if b6.len() > 0 {
        Some(b6)
    } else {
        None
    }
}

fn add_toggle(blocks: &mut Vec<Json>, label: &str, value: &Option<String>)
    ensures
        crate::json::values(final(blocks)@) == with_toggle(
            crate::json::values(old(blocks)@),
            label@,
            crate::text::opt_string(*value),
        ),
{
    match nonblank(as_slice(value)) {
        Some(t) => {
            let paragraph = block(
                "paragraph",
                object1("rich_text", array_of(plain_rich_text(t))),
            );
            let toggle = block(
                "toggle",
                object2(
                    "rich_text",
                    array_of(bold_rich_text(label)),
                    "children",
                    array_of(paragraph),
                ),
            );
            blocks.push(toggle);
        },
        None => {},
    }
    assert(crate::json::values(blocks@) =~= with_toggle(
        crate::json::values(old(blocks)@),
        label@,
        crate::text::opt_string(*value),
    ));
}

/// The section of texts to unfold.
pub fn build_toggle_section(properties: &StudentProperties) -> (r: Option<Vec<Json>>)
    ensures
        section_view(r) == toggle_section(*properties),
{
    let mut toggles: Vec<Json> = Vec::new();
    assert(crate::json::values(toggles@) =~= Seq::empty());
    add_toggle(&mut toggles, "🚀 New Challenges", &properties.new_challenges);
    add_toggle(&mut toggles, "💡 Ask Me About", &properties.ask_me_about);
    add_toggle(&mut toggles, "🔄 Turning Point", &properties.turning_point);
    add_toggle(&mut toggles, "💭 BTW", &properties.btw);
    add_toggle(&mut toggles, "✉️ Message", &properties.message);
    add_toggle(&mut toggles, "🙅 Dislikes", &properties.dislikes);
    assert(toggles@.len() == crate::json::values(toggles@).len());
    if toggles.len() > 0 {
        Some(toggles)
    } else {
        None
    }
}

/// Pictures of a gallery, each with the position of the image that it shows.
pub open spec fn media_views(media: Seq<(usize, NotionMediaRef)>) -> Seq<(usize, MediaView)> {
    media.map_values(|m: (usize, NotionMediaRef)| (m.0, m.1@))
}

/// The blocks of one picture: the picture, and what is said of it.
pub open spec fn picture_blocks(image: GalleryImage, media: MediaView) -> Seq<JsonView> {
    let picture = block_value("image"@, media_value(media));
    match image.description {
        Some(d) => if crate::text::blank(d@) {
            seq![picture]
        } else {
            seq![
                picture,
                block_value(
                    "paragraph"@,
                    rich_text_body(
                        seq![
                            JsonView::Object(
                                seq![
                                    ("type"@, JsonView::Str("text"@)),
                                    (
                                        "text"@,
                                        JsonView::Object(
                                            seq![("content"@, JsonView::Str(truncated(d@)))],
                                        ),
                                    ),
                                    (
                                        "annotations"@,
                                        JsonView::Object(
                                            seq![
                                                ("italic"@, JsonView::Bool(true)),
                                                ("color"@, JsonView::Str("gray"@)),
                                            ],
                                        ),
                                    ),
                                ],
                            ),
                        ],
                    ),
                ),
            ]
        },
        None => seq![picture],
    }
}

fn build_picture_blocks(image: &GalleryImage, media: &NotionMediaRef) -> (r: Vec<Json>)
    ensures
        crate::json::values(r@) == picture_blocks(*image, media@),
{
    let mut children = vec![media.to_image_block()];
    match &image.description {
        Some(d) => {
            if !is_blank(d.as_str()) {
                let shown = truncate_rich_text_content(d.as_str());
                let rich = object3(
                    "type",
                    text("text"),
                    "text",
                    object1("content", text(shown.as_str())),
                    "annotations",
                    object2("italic", boolean(true), "color", text("gray")),
                );
                children.push(block("paragraph", object1("rich_text", array_of(rich))));
            }
        },
        None => {},
    }
    assert(crate::json::values(children@) =~= picture_blocks(*image, media@));
    children
}

/// The columns of those pictures that show an image of the profile.
pub open spec fn gallery_columns(
    images: Seq<GalleryImage>,
    media: Seq<(usize, MediaView)>,
) -> Seq<JsonView>
    decreases media.len(),
{
    if media.len() == 0 {
        Seq::empty()
    } else {
        let before = gallery_columns(images, media.drop_last());
        let (index, picture) = media.last();
        if index < images.len() {
            before.push(column_value(picture_blocks(images[index as int], picture)))
        } else {
            before
        }
    }
}

/// A row of a gallery: a picture alone stands by itself, several stand in columns.
pub open spec fn gallery_row(
    images: Seq<GalleryImage>,
    media: Seq<(usize, MediaView)>,
) -> Seq<JsonView> {
    if media.len() == 1 {
        if media[0].0 < images.len() {
            picture_blocks(images[media[0].0 as int], media[0].1)
        } else {
            Seq::empty()
        }
    } else {
        let columns = gallery_columns(images, media);
        if columns.len() > 0 {
            seq![block_value("column_list"@, children_body(columns))]
        } else {
            Seq::empty()
        }
    }
}

/// The rows of a gallery, three pictures to a row.
pub open spec fn gallery_rows(
    images: Seq<GalleryImage>,
    media: Seq<(usize, MediaView)>,
) -> Seq<JsonView>
    decreases media.len(),
{
    if media.len() == 0 {
        Seq::empty()
    } else if media.len() <= 3 {
        gallery_row(images, media)
    } else {
        gallery_row(images, media.take(3)) + gallery_rows(images, media.skip(3))
    }
}

/// The pictures that a gallery shows.
pub open spec fn shown_media(media: Seq<(usize, MediaView)>) -> Seq<(usize, MediaView)> {
    if media.len() <= MAX_GALLERY_IMAGES {
        media
    } else {
        media.take(MAX_GALLERY_IMAGES as int)
    }
}

/// The gallery.
pub open spec fn gallery_section(
    images: Seq<GalleryImage>,
    media: Seq<(usize, MediaView)>,
) -> Option<Seq<JsonView>> {
    if media.len() == 0 {
        None
    } else {
        Some(seq![heading_value("Gallery"@)] + gallery_rows(images, shown_media(media)))
    }
}

fn append_blocks(blocks: &mut Vec<Json>, more: Vec<Json>)
    ensures
        crate::json::values(final(blocks)@) == crate::json::values(old(blocks)@)
            + crate::json::values(more@),
{
    let mut rest = more;
    blocks.append(&mut rest);
    assert(crate::json::values(blocks@) =~= crate::json::values(old(blocks)@)
        + crate::json::values(more@));
}

fn build_gallery_row(
    images: &Vec<GalleryImage>,
    media: &[(usize, NotionMediaRef)],
    start: usize,
    end: usize,
) -> (r: Vec<Json>)
    requires
        start <= end <= media@.len(),
    ensures
        crate::json::values(r@) == gallery_row(
            images@,
            media_views(media@).subrange(start as int, end as int),
        ),
{
    let ghost part = media_views(media@).subrange(start as int, end as int);
    if end - start == 1 {
        assert(part[0] == (media@[start as int].0, media@[start as int].1@));
        let index = media[start].0;
        if index < images.len() {
            return build_picture_blocks(&images[index], &media[start].1);
        }
        let none: Vec<Json> = Vec::new();
        assert(crate::json::values(none@) =~= Seq::empty());
        return none;
    }
    let mut columns: Vec<Json> = Vec::new();
    let mut i: usize = start;
    assert(part.take(0) =~= Seq::empty());
    assert(crate::json::values(columns@) =~= gallery_columns(images@, part.take(0)));
    while i < end
        invariant
            start <= i <= end <= media@.len(),
            part == media_views(media@).subrange(start as int, end as int),
            crate::json::values(columns@) == gallery_columns(images@, part.take(i - start)),
        decreases end - i,
    {
        let ghost now = part.take(i - start + 1);
        proof {
            assert(now.drop_last() =~= part.take(i - start));
            assert(now.last() == (media@[i as int].0, media@[i as int].1@));
        }
        let index = media[i].0;
        let ghost before = columns@;
        if index < images.len() {
            let children = build_picture_blocks(&images[index], &media[i].1);
            columns.push(block("column", object1("children", array(children))));
            assert(crate::json::values(columns@) =~= crate::json::values(before).push(
                column_value(picture_blocks(images@[index as int], media@[i as int].1@)),
            ));
        }
        i = i + 1;
    }
    assert(part.take(i - start) =~= part);
    assert(columns@.len() == crate::json::values(columns@).len());
    if columns.len() > 0 {
        let ghost all = crate::json::values(columns@);
        let row = vec![block("column_list", object1("children", array(columns)))];
        assert(crate::json::values(row@) =~= seq![
            block_value("column_list"@, children_body(all)),
        ]);
        row
    } else {
        let none: Vec<Json> = Vec::new();
        assert(crate::json::values(none@) =~= Seq::empty());
        none
    }
}

/// The gallery.
pub fn build_gallery_section(
    profile: &StudentProfile,
    gallery_urls: &[(usize, NotionMediaRef)],
) -> (r: Option<Vec<Json>>)
    ensures
        section_view(r) == gallery_section(profile.gallery_images@, media_views(gallery_urls@)),
{
    let count = if gallery_urls.len() < MAX_GALLERY_IMAGES {
        gallery_urls.len()
    } else {
        MAX_GALLERY_IMAGES
    };
    let ghost all = media_views(gallery_urls@);
    let ghost shown = shown_media(all);
    let ghost images = profile.gallery_images@;
    if count == 0 {
        return None;
    }
    let mut section = vec![heading_2_block("Gallery")];
    let mut i: usize = 0;
    assert(shown.skip(0) =~= shown);
    assert(shown.len() == count);
    assert(crate::json::values(section@) =~= seq![heading_value("Gallery"@)]);
    while i < count
        invariant
            i <= count <= MAX_GALLERY_IMAGES,
            count <= gallery_urls@.len(),
            all == media_views(gallery_urls@),
            shown == shown_media(all),
            shown.len() == count,
            images == profile.gallery_images@,
            crate::json::values(section@) + gallery_rows(images, shown.skip(i as int)) == seq![
                heading_value("Gallery"@),
            ] + gallery_rows(images, shown),
        decreases count - i,
    {
        let end = if count - i <= 3 {
            count
        } else {
            i + 3
        };
        let row = build_gallery_row(&profile.gallery_images, gallery_urls, i, end);
        let ghost before = crate::json::values(section@);
        let ghost rest = shown.skip(i as int);
        proof {
            assert(all.subrange(i as int, end as int) =~= if rest.len() <= 3 {
                rest
            } else {
                rest.take(3)
            });
            if rest.len() <= 3 {
                assert(shown.skip(end as int) =~= Seq::empty());
                assert(before + gallery_rows(images, rest) =~= before + gallery_row(images, rest)
                    + gallery_rows(images, shown.skip(end as int)));
            } else {
                assert(rest.skip(3) =~= shown.skip(end as int));
                assert(before + gallery_rows(images, rest) =~= before + gallery_row(
                    images,
                    rest.take(3),
                ) + gallery_rows(images, shown.skip(end as int)));
            }
        }
        append_blocks(&mut section, row);
        i = end;
    }
    assert(shown.skip(i as int) =~= Seq::empty());
    assert(crate::json::values(section@) =~= crate::json::values(section@) + gallery_rows(
        images,
        shown.skip(i as int),
    ));
    Some(section)
}

/// The section that links back to the source.
pub open spec fn source_section(url: Option<Seq<char>>) -> Option<Seq<JsonView>> {
    match some_text(url) {
        Some(t) => Some(
            seq![
                heading_value("Source"@),
                block_value(
                    "bookmark"@,
                    JsonView::Object(
                        seq![
                            ("url"@, JsonView::Str(t)),
                            (
                                "caption"@,
                                JsonView::Array(
                                    seq![plain_value("Google Slides — 自己紹介スライド原本"@)],
                                ),
                            ),
                        ],
                    ),
                ),
            ],
        ),
        None => None,
    }
}

/// The section that links back to the source.
pub fn build_source_section(source_url: Option<&str>) -> (r: Option<Vec<Json>>)
    ensures
        section_view(r) == source_section(crate::json::opt_str(source_url)),
{
    match nonblank(source_url) {
        Some(t) => {
            let bookmark = block(
                "bookmark",
                object2(
                    "url",
                    text(t),
                    "caption",
                    array_of(plain_rich_text("Google Slides — 自己紹介スライド原本")),
                ),
            );
            let section = vec![heading_2_block("Source"), bookmark];
            assert(crate::json::values(section@) =~= source_section(
                crate::json::opt_str(source_url),
            )->0);
            Some(section)
        },
        None => None,
    }
}

/// The line between two sections.
pub open spec fn divider_value() -> JsonView {
    block_value("divider"@, JsonView::Object(Seq::empty()))
}

/// Sections one after another, a line between each two.
pub open spec fn interleaved(sections: Seq<Seq<JsonView>>) -> Seq<JsonView>
    decreases sections.len(),
{
    if sections.len() == 0 {
        Seq::empty()
    } else if sections.len() == 1 {
        sections[0]
    } else {
        interleaved(sections.drop_last()).push(divider_value()) + sections.last()
    }
}

/// What sections show.
pub open spec fn section_views(sections: Seq<Vec<Json>>) -> Seq<Seq<JsonView>> {
    sections.map_values(|s: Vec<Json>| crate::json::values(s@))
}

fn divider_block() -> (r: Json)
    ensures
        r@ == divider_value(),
{
    let none: Vec<(String, Json)> = Vec::new();
    let body = crate::json::object(none);
    assert(body@->Object_0 =~= Seq::empty());
    block("divider", body)
}

/// Sections one after another, a line between each two.
pub fn interleave_dividers(sections: Vec<Vec<Json>>) -> (r: Vec<Json>)
    ensures
        crate::json::values(r@) == interleaved(section_views(sections@)),
{
    let ghost all = section_views(sections@);
    let mut rest = sections;
    let mut blocks: Vec<Json> = Vec::new();
    let mut first = true;
    assert(rest@.skip(0) =~= rest@);
    assert(crate::json::values(blocks@) =~= interleaved(all.take(0)));
    while rest.len() > 0
        invariant
            all == section_views(sections@),
            rest.len() <= sections@.len(),
            rest@ == sections@.skip(sections@.len() - rest@.len()),
            first == (rest@.len() == sections@.len()),
            crate::json::values(blocks@) == interleaved(all.take(sections@.len() - rest@.len())),
        decreases rest.len(),
    {
        let ghost k = sections@.len() - rest@.len();
        let ghost before = crate::json::values(blocks@);
        let section = rest.remove(0);
        proof {
            assert(all.take(k + 1).drop_last() =~= all.take(k));
            assert(all.take(k + 1).last() == crate::json::values(section@));
            assert(rest@ =~= sections@.skip(k + 1));
        }
        if !first {
            blocks.push(divider_block());
            assert(crate::json::values(blocks@) =~= before.push(divider_value()));
        }
        append_blocks(&mut blocks, section);
        assert(crate::json::values(blocks@) =~= interleaved(all.take(k + 1)));
        first = false;
    }
    assert(all.take(sections@.len() as int) =~= all);
    blocks
}

fn add_section(sections: &mut Vec<Vec<Json>>, section: Option<Vec<Json>>)
    ensures
        section_views(final(sections)@) == with_section(
            section_views(old(sections)@),
            section_view(section),
        ),
{
    match section {
        Some(blocks) => {
            sections.push(blocks);
        },
        None => {},
    }
    assert(section_views(sections@) =~= with_section(
        section_views(old(sections)@),
        section_view(section),
    ));
}

/// Sections with one more, where it is there.
pub open spec fn with_section(
    sections: Seq<Seq<JsonView>>,
    section: Option<Seq<JsonView>>,
) -> Seq<Seq<JsonView>> {
    match section {
        Some(s) => sections.push(s),
        None => sections,
    }
}

/// The sections of a page.
pub open spec fn page_sections(
    profile: StudentProfile,
    pic: Option<MediaView>,
    media: Seq<(usize, MediaView)>,
    source_url: Option<Seq<char>>,
) -> Seq<Seq<JsonView>> {
    let s1 = with_section(Seq::empty(), bio_section(crate::text::opt_string(profile.bio_text)));
    let s2 = with_section(s1, about_section(profile.properties, pic));
    let s3 = with_section(s2, highlights_section(profile.properties));
    let s4 = with_section(s3, toggle_section(profile.properties));
    let s5 = with_section(s4, gallery_section(profile.gallery_images@, media));
    with_section(
        s5,
        source_section(
            match source_url {
                Some(url) => Some(url),
                None => crate::text::opt_string(profile.source_canonical_uri),
            },
        ),
    )
}

/// The blocks of a page.
pub open spec fn page_blocks(
    profile: StudentProfile,
    pic: Option<MediaView>,
    media: Seq<(usize, MediaView)>,
    source_url: Option<Seq<char>>,
) -> Seq<JsonView> {
    interleaved(page_sections(profile, pic, media, source_url))
}

/// The blocks of a page.
pub fn build_page_blocks(
    profile: &StudentProfile,
    profile_pic: Option<&NotionMediaRef>,
    gallery_urls: &[(usize, NotionMediaRef)],
    source_url: Option<&str>,
) -> (r: Vec<Json>)
    ensures
        crate::json::values(r@) == page_blocks(
            *profile,
            opt_media(profile_pic),
            media_views(gallery_urls@),
            crate::json::opt_str(source_url),
        ),
{
    let mut sections: Vec<Vec<Json>> = Vec::new();
    assert(section_views(sections@) =~= Seq::empty());
    add_section(&mut sections, build_bio_section(as_slice(&profile.bio_text)));
    add_section(&mut sections, build_about_section(&profile.properties, profile_pic));
    add_section(&mut sections, build_highlights_section(&profile.properties));
    add_section(&mut sections, build_toggle_section(&profile.properties));
    add_section(&mut sections, build_gallery_section(profile, gallery_urls));
    let url = match source_url {
        Some(url) => Some(url),
        None => as_slice(&profile.source_canonical_uri),
    };
    add_section(&mut sections, build_source_section(url));
    interleave_dividers(sections)
}

/// Whether a value is a block of the given kind.
pub open spec fn is_kind(value: JsonView, kind: Seq<char>) -> bool {
    crate::json::as_text(crate::json::member(value, "type"@)) == Some(kind)
}

proof fn block_has_its_kind(kind: Seq<char>, body: JsonView)
    ensures
        crate::json::as_text(crate::json::member(block_value(kind, body), "type"@)) == Some(kind),
{
    reveal_strlit("object");
    reveal_strlit("type");
    let members = block_value(kind, body)->Object_0;
    assert(members[0].0.len() == 6 && "type"@.len() == 4);
    assert(members.drop_first()[0].0 == "type"@);
    assert(crate::json::member_index(members.drop_first(), "type"@) == Some(0int));
}

/// Whether blocks are there and none of them is a line.
pub open spec fn proper_section(section: Seq<JsonView>) -> bool {
    &&& section.len() > 0
    &&& forall|i: int| 0 <= i < section.len() ==> !is_kind(#[trigger] section[i], "divider"@)
}

proof fn kinds_are_no_dividers(body: JsonView)
    ensures
        !is_kind(block_value("callout"@, body), "divider"@),
        !is_kind(block_value("heading_2"@, body), "divider"@),
        !is_kind(block_value("column_list"@, body), "divider"@),
        !is_kind(block_value("table"@, body), "divider"@),
        !is_kind(block_value("paragraph"@, body), "divider"@),
        !is_kind(block_value("toggle"@, body), "divider"@),
        !is_kind(block_value("image"@, body), "divider"@),
        !is_kind(block_value("bookmark"@, body), "divider"@),
{
    reveal_strlit("divider");
    reveal_strlit("callout");
    reveal_strlit("heading_2");
    reveal_strlit("column_list");
    reveal_strlit("table");
    reveal_strlit("paragraph");
    reveal_strlit("toggle");
    reveal_strlit("image");
    reveal_strlit("bookmark");
    block_has_its_kind("callout"@, body);
    block_has_its_kind("heading_2"@, body);
    block_has_its_kind("column_list"@, body);
    block_has_its_kind("table"@, body);
    block_has_its_kind("paragraph"@, body);
    block_has_its_kind("toggle"@, body);
    block_has_its_kind("image"@, body);
    block_has_its_kind("bookmark"@, body);
    assert("callout"@[0] == 'c' && "divider"@[0] == 'd');
}

proof fn row_is_no_divider(images: Seq<GalleryImage>, media: Seq<(usize, MediaView)>)
    ensures
        forall|i: int|
            0 <= i < gallery_row(images, media).len() ==> !is_kind(
                #[trigger] gallery_row(images, media)[i],
                "divider"@,
            ),
{
    assert forall|body: JsonView| !is_kind(#[trigger] block_value("column_list"@, body), "divider"@) by {
        kinds_are_no_dividers(body);
    }
    assert forall|body: JsonView| !is_kind(#[trigger] block_value("paragraph"@, body), "divider"@) by {
        kinds_are_no_dividers(body);
    }
    assert forall|body: JsonView| !is_kind(#[trigger] block_value("image"@, body), "divider"@) by {
        kinds_are_no_dividers(body);
    }
}

proof fn rows_are_no_dividers(images: Seq<GalleryImage>, media: Seq<(usize, MediaView)>)
    ensures
        forall|i: int|
            0 <= i < gallery_rows(images, media).len() ==> !is_kind(
                #[trigger] gallery_rows(images, media)[i],
                "divider"@,
            ),
    decreases media.len(),
{
    if media.len() > 3 {
        let first = gallery_row(images, media.take(3));
        let rest = gallery_rows(images, media.skip(3));
        row_is_no_divider(images, media.take(3));
        rows_are_no_dividers(images, media.skip(3));
        assert forall|i: int| 0 <= i < gallery_rows(images, media).len() implies !is_kind(
            #[trigger] gallery_rows(images, media)[i],
            "divider"@,
        ) by {
            if i < first.len() {
                assert(gallery_rows(images, media)[i] == first[i]);
            } else {
                assert(gallery_rows(images, media)[i] == rest[i - first.len()]);
            }
        }
    } else if media.len() > 0 {
        row_is_no_divider(images, media);
    }
}

proof fn sections_are_proper(
    profile: StudentProfile,
    pic: Option<MediaView>,
    media: Seq<(usize, MediaView)>,
    source_url: Option<Seq<char>>,
)
    ensures
        forall|i: int|
            0 <= i < page_sections(profile, pic, media, source_url).len() ==> proper_section(
                #[trigger] page_sections(profile, pic, media, source_url)[i],
            ),
{
    let p = profile.properties;
    assert forall|body: JsonView| !is_kind(#[trigger] block_value("callout"@, body), "divider"@) by {
        kinds_are_no_dividers(body);
    }
    assert forall|body: JsonView| !is_kind(#[trigger] block_value("heading_2"@, body), "divider"@) by {
        kinds_are_no_dividers(body);
    }
    assert forall|body: JsonView| !is_kind(#[trigger] block_value("column_list"@, body), "divider"@) by {
        kinds_are_no_dividers(body);
    }
    assert forall|body: JsonView| !is_kind(#[trigger] block_value("table"@, body), "divider"@) by {
        kinds_are_no_dividers(body);
    }
    assert forall|body: JsonView| !is_kind(#[trigger] block_value("paragraph"@, body), "divider"@) by {
        kinds_are_no_dividers(body);
    }
    assert forall|body: JsonView| !is_kind(#[trigger] block_value("toggle"@, body), "divider"@) by {
        kinds_are_no_dividers(body);
    }
    assert forall|body: JsonView| !is_kind(#[trigger] block_value("bookmark"@, body), "divider"@) by {
        kinds_are_no_dividers(body);
    }
    rows_are_no_dividers(profile.gallery_images@, shown_media(media));
    assert(gallery_section(profile.gallery_images@, media) matches Some(s) ==> proper_section(s));
    assert(highlights_section(p) matches Some(s) ==> proper_section(s));
    assert(toggle_section(p) matches Some(s) ==> proper_section(s));
    assert(about_section(p, pic) matches Some(s) ==> proper_section(s));
}

proof fn dividers_between(sections: Seq<Seq<JsonView>>)
    requires
        forall|i: int| 0 <= i < sections.len() ==> proper_section(#[trigger] sections[i]),
    ensures
        no_loose_divider(interleaved(sections)),
        sections.len() > 0 ==> interleaved(sections).len() > 0,
    decreases sections.len(),
{
    if sections.len() == 1 {
    } else if sections.len() > 1 {
        let init = sections.drop_last();
        dividers_between(init);
        let before = interleaved(init);
        let last = sections.last();
        let all = interleaved(sections);
        assert(proper_section(last));
        assert(all == before.push(divider_value()) + last);
        assert(all[0] == before[0]);
        assert(all.last() == last.last());
        assert(last.last() == last[last.len() - 1]);
        assert forall|i: int| 0 <= i < all.len() - 1 && is_kind(#[trigger] all[i], "divider"@) implies !is_kind(
            all[i + 1],
            "divider"@,
        ) by {
            if i < before.len() {
                assert(all[i] == before[i]);
                if i + 1 < before.len() {
                    assert(all[i + 1] == before[i + 1]);
                } else {
                    assert(before.last() == before[i]);
                }
            } else {
                assert(all[i + 1] == last[i - before.len()]);
            }
        }
    }
}

/// Whether no line stands first, last, or beside another.
pub open spec fn no_loose_divider(blocks: Seq<JsonView>) -> bool {
    &&& blocks.len() > 0 ==> !is_kind(blocks[0], "divider"@) && !is_kind(blocks.last(), "divider"@)
    &&& forall|i: int|
        0 <= i < blocks.len() - 1 && is_kind(#[trigger] blocks[i], "divider"@) ==> !is_kind(
            blocks[i + 1],
            "divider"@,
        )
}

/// On no page does a dividing line stand first, last, or beside another.
pub proof fn dividers_stand_between_sections(
    profile: StudentProfile,
    pic: Option<MediaView>,
    media: Seq<(usize, MediaView)>,
    source_url: Option<Seq<char>>,
)
    ensures
        no_loose_divider(page_blocks(profile, pic, media, source_url)),
{
    sections_are_proper(profile, pic, media, source_url);
    dividers_between(page_sections(profile, pic, media, source_url));
}

/// Pictures beyond the limit of a gallery change nothing on a page.
pub proof fn galleries_show_at_most_nine(
    profile: StudentProfile,
    pic: Option<MediaView>,
    media: Seq<(usize, MediaView)>,
    source_url: Option<Seq<char>>,
)
    ensures
        media.len() > MAX_GALLERY_IMAGES ==> page_blocks(profile, pic, media, source_url)
            == page_blocks(profile, pic, media.take(MAX_GALLERY_IMAGES as int), source_url),
{
    if media.len() > MAX_GALLERY_IMAGES {
        let first = media.take(MAX_GALLERY_IMAGES as int);
        assert(shown_media(first) == shown_media(media));
        assert(gallery_section(profile.gallery_images@, first) == gallery_section(
            profile.gallery_images@,
            media,
        ));
    }
}

} // verus!
