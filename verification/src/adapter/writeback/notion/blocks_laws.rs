//! What a page shows, and under which label.

use vstd::prelude::*;
use vstd::string::*;

use crate::json::JsonView;
use crate::profile::{GalleryImage, StudentProfile, StudentProperties};

use super::blocks::{AboutView, MediaView};

verus! {

/// The member of a name.
pub open spec fn inner(value: JsonView, name: Seq<char>) -> JsonView {
    crate::json::member(value, name)->0
}

/// An item of a list.
pub open spec fn nth(value: JsonView, i: int) -> JsonView {
    value->Array_0[i]
}

/// The words of a rich text.
pub open spec fn words(rich: JsonView) -> Seq<char> {
    inner(inner(rich, "text"@), "content"@)->Str_0
}

/// Whether a rich text is in bold letters.
pub open spec fn is_bold(rich: JsonView) -> bool {
    crate::json::member(rich, "annotations"@) is Some && inner(inner(rich, "annotations"@), "bold"@)
        == JsonView::Bool(true)
}

/// Whether a text fits into a rich text as it is.
pub open spec fn fits(text: Seq<char>) -> bool {
    text.len() <= 2000
}

proof fn member_here(members: Seq<(Seq<char>, JsonView)>, i: int)
    requires
        0 <= i < members.len(),
        forall|j: int| 0 <= j < i ==> (#[trigger] members[j]).0 != members[i].0,
    ensures
        crate::json::member_index(members, members[i].0) == Some(i),
        crate::json::member(JsonView::Object(members), members[i].0) == Some(members[i].1),
    decreases members.len(),
{
    if i > 0 {
        let rest = members.drop_first();
        assert forall|j: int| 0 <= j < i - 1 implies (#[trigger] rest[j]).0 != rest[i - 1].0 by {
            assert(rest[j] == members[j + 1]);
        }
        assert(rest[i - 1] == members[i]);
        assert(members[0].0 != members[i].0);
        member_here(rest, i - 1);
    }
}

proof fn no_member(members: Seq<(Seq<char>, JsonView)>, name: Seq<char>)
    requires
        forall|j: int| 0 <= j < members.len() ==> (#[trigger] members[j]).0 != name,
    ensures
        crate::json::member(JsonView::Object(members), name) is None,
{
    crate::json::member_index_in_range(members, name);
}

proof fn block_parts(kind: Seq<char>, body: JsonView)
    requires
        kind != "object"@,
        kind != "type"@,
    ensures
        inner(super::blocks::block_value(kind, body), kind) == body,
        inner(super::blocks::block_value(kind, body), "type"@) == JsonView::Str(kind),
        inner(super::blocks::block_value(kind, body), "object"@) == JsonView::Str("block"@),
{
    reveal_strlit("object");
    reveal_strlit("type");
    assert("object"@.len() == 6 && "type"@.len() == 4);
    let members = super::blocks::block_value(kind, body)->Object_0;
    assert(members[0].0 == "object"@ && members[1].0 == "type"@ && members[2].0 == kind);
    member_here(members, 0);
    member_here(members, 1);
    member_here(members, 2);
}

proof fn rich_texts_hold_their_words(content: Seq<char>)
    ensures
        words(super::blocks::plain_value(content)) == super::blocks::truncated(content),
        words(super::blocks::bold_value(content)) == super::blocks::truncated(content),
        is_bold(super::blocks::bold_value(content)),
        !is_bold(super::blocks::plain_value(content)),
{
    reveal_strlit("type");
    reveal_strlit("text");
    reveal_strlit("annotations");
    assert("type"@[1] == 'y' && "text"@[1] == 'e');
    assert("annotations"@.len() == 11 && "type"@.len() == 4 && "text"@.len() == 4);
    let plain = super::blocks::plain_value(content)->Object_0;
    let bold = super::blocks::bold_value(content)->Object_0;
    member_here(plain, 1);
    member_here(bold, 1);
    member_here(bold, 2);
    no_member(plain, "annotations"@);
    member_here(plain[1].1->Object_0, 0);
    member_here(bold[1].1->Object_0, 0);
    member_here(bold[2].1->Object_0, 0);
}

/// A text that is too long keeps its beginning and closes with an ellipsis; any other stays.
pub proof fn long_texts_keep_their_beginning(content: Seq<char>)
    ensures
        content.len() <= 2000 ==> super::blocks::truncated(content) == content,
        content.len() > 2000 ==> {
            &&& super::blocks::truncated(content).len() == 2000
            &&& super::blocks::truncated(content).take(1999) == content.take(1999)
            &&& super::blocks::truncated(content)[1999] == '…'
        },
{
    if content.len() > 2000 {
        assert(super::blocks::truncated(content).take(1999) =~= content.take(1999));
    }
}

/// A picture elsewhere is named by its address, and an uploaded one by its identity.
pub proof fn pictures_are_named_by_their_kind(media: MediaView)
    ensures
        ({
            let value = super::blocks::media_value(media);
            match media {
                MediaView::External(url) => inner(value, "type"@) == JsonView::Str("external"@)
                    && inner(inner(value, "external"@), "url"@) == JsonView::Str(url),
                MediaView::FileUpload(id) => inner(value, "type"@) == JsonView::Str("file_upload"@)
                    && inner(inner(value, "file_upload"@), "id"@) == JsonView::Str(id),
            }
        }),
{
    reveal_strlit("type");
    reveal_strlit("external");
    reveal_strlit("file_upload");
    assert("type"@.len() == 4 && "external"@.len() == 8 && "file_upload"@.len() == 11);
    let members = super::blocks::media_value(media)->Object_0;
    member_here(members, 0);
    member_here(members, 1);
    member_here(members[1].1->Object_0, 0);
}

proof fn row_added(
    rows: Seq<(Seq<char>, AboutView)>,
    label: Seq<char>,
    value: Option<Seq<char>>,
    row: (Seq<char>, AboutView),
)
    ensures
        super::blocks::with_row(rows, label, value).contains(row) <==> rows.contains(row) || (value
            is Some && value->0.len() > 0 && row == (label, AboutView::Text(value->0))),
{
    pushed(rows, (label, AboutView::Text(value->0)), row);
}

proof fn pushed<A>(items: Seq<A>, item: A, wanted: A)
    ensures
        items.push(item).contains(wanted) <==> items.contains(wanted) || wanted == item,
{
    let after = items.push(item);
    if items.contains(wanted) {
        let i = choose|i: int| 0 <= i < items.len() && items[i] == wanted;
        assert(after[i] == wanted);
    }
    if wanted == item {
        assert(after[items.len() as int] == wanted);
    }
    if after.contains(wanted) {
        let i = choose|i: int| 0 <= i < after.len() && after[i] == wanted;
        if i < items.len() {
            assert(items[i] == wanted);
        }
    }
}

proof fn labels_differ()
    ensures
        "呼び名"@ != "出身"@,
        "呼び名"@ != "誕生日"@,
        "呼び名"@ != "専攻"@,
        "呼び名"@ != "所属"@,
        "呼び名"@ != "MBTI"@,
        "呼び名"@ != "SNS"@,
        "出身"@ != "誕生日"@,
        "出身"@ != "専攻"@,
        "出身"@ != "所属"@,
        "出身"@ != "MBTI"@,
        "出身"@ != "SNS"@,
        "誕生日"@ != "専攻"@,
        "誕生日"@ != "所属"@,
        "誕生日"@ != "MBTI"@,
        "誕生日"@ != "SNS"@,
        "専攻"@ != "所属"@,
        "専攻"@ != "MBTI"@,
        "専攻"@ != "SNS"@,
        "所属"@ != "MBTI"@,
        "所属"@ != "SNS"@,
        "MBTI"@ != "SNS"@,
{
    reveal_strlit("呼び名");
    reveal_strlit("出身");
    reveal_strlit("誕生日");
    reveal_strlit("専攻");
    reveal_strlit("所属");
    reveal_strlit("MBTI");
    reveal_strlit("SNS");
    assert("呼び名"@[0] == '呼' && "出身"@[0] == '出' && "誕生日"@[0] == '誕');
    assert("専攻"@[0] == '専' && "所属"@[0] == '所' && "MBTI"@[0] == 'M' && "SNS"@[0] == 'S');
}

/// Every fact of a profile that says something has a row, and the row of a label shows the fact of
/// that label and no other: the nickname, the birthplace, the day of birth, the major, the
/// affiliation, the type, and the account, which is a link where it is the address of a page.
pub proof fn facts_stand_beside_their_labels(p: StudentProperties, value: Seq<char>)
    ensures
        ({
            let rows = super::blocks::about_rows(p);
            let text = AboutView::Text(value);
            let link = AboutView::Link(value);
            let said = value.len() > 0;
            let address = crate::text::begins(value, "http://"@) || crate::text::begins(
                value,
                "https://"@,
            );
            &&& rows.contains(("呼び名"@, text)) <==> said && p.nickname is Some && p.nickname->0@
                == value
            &&& rows.contains(("出身"@, text)) <==> said && p.birthplace is Some && p.birthplace->0@
                == value
            &&& rows.contains(("誕生日"@, text)) <==> said && p.dob is Some && p.dob->0@ == value
            &&& rows.contains(("専攻"@, text)) <==> said && p.major is Some && p.major->0@ == value
            &&& rows.contains(("所属"@, text)) <==> said && p.affiliation is Some
                && p.affiliation->0@ == value
            &&& rows.contains(("MBTI"@, text)) <==> said && p.mbti is Some && p.mbti->0@ == value
            &&& rows.contains(("SNS"@, text)) <==> said && p.sns is Some && p.sns->0@ == value
                && !address
            &&& rows.contains(("SNS"@, link)) <==> said && p.sns is Some && p.sns->0@ == value
                && address
        }),
{
    labels_differ();
    let rows = super::blocks::about_rows(p);
    assert forall|row: (Seq<char>, AboutView)| #[trigger] rows.contains(row) <==> {
        ||| p.nickname is Some && p.nickname->0@.len() > 0 && row == (
            "呼び名"@,
            AboutView::Text(p.nickname->0@),
        )
        ||| p.birthplace is Some && p.birthplace->0@.len() > 0 && row == (
            "出身"@,
            AboutView::Text(p.birthplace->0@),
        )
        ||| p.dob is Some && p.dob->0@.len() > 0 && row == ("誕生日"@, AboutView::Text(p.dob->0@))
        ||| p.major is Some && p.major->0@.len() > 0 && row == ("専攻"@, AboutView::Text(p.major->0@))
        ||| p.affiliation is Some && p.affiliation->0@.len() > 0 && row == (
            "所属"@,
            AboutView::Text(p.affiliation->0@),
        )
        ||| p.mbti is Some && p.mbti->0@.len() > 0 && row == ("MBTI"@, AboutView::Text(p.mbti->0@))
        ||| p.sns is Some && p.sns->0@.len() > 0 && row == (
            "SNS"@,
            if super::blocks::is_web_address(p.sns->0@) {
                AboutView::Link(p.sns->0@)
            } else {
                AboutView::Text(p.sns->0@)
            },
        )
    } by {
        rows_are(p, row);
    }
}

proof fn rows_are(p: StudentProperties, row: (Seq<char>, AboutView))
    ensures
        super::blocks::about_rows(p).contains(row) <==> {
            ||| p.nickname is Some && p.nickname->0@.len() > 0 && row == (
                "呼び名"@,
                AboutView::Text(p.nickname->0@),
            )
            ||| p.birthplace is Some && p.birthplace->0@.len() > 0 && row == (
                "出身"@,
                AboutView::Text(p.birthplace->0@),
            )
            ||| p.dob is Some && p.dob->0@.len() > 0 && row == (
                "誕生日"@,
                AboutView::Text(p.dob->0@),
            )
            ||| p.major is Some && p.major->0@.len() > 0 && row == (
                "専攻"@,
                AboutView::Text(p.major->0@),
            )
            ||| p.affiliation is Some && p.affiliation->0@.len() > 0 && row == (
                "所属"@,
                AboutView::Text(p.affiliation->0@),
            )
            ||| p.mbti is Some && p.mbti->0@.len() > 0 && row == (
                "MBTI"@,
                AboutView::Text(p.mbti->0@),
            )
            ||| p.sns is Some && p.sns->0@.len() > 0 && row == (
                "SNS"@,
                if super::blocks::is_web_address(p.sns->0@) {
                    AboutView::Link(p.sns->0@)
                } else {
                    AboutView::Text(p.sns->0@)
                },
            )
        },
{
    let none = Seq::<(Seq<char>, AboutView)>::empty();
    let r1 = super::blocks::with_row(none, "呼び名"@, crate::text::opt_string(p.nickname));
    let r2 = super::blocks::with_row(r1, "出身"@, crate::text::opt_string(p.birthplace));
    let r3 = super::blocks::with_row(r2, "誕生日"@, crate::text::opt_string(p.dob));
    let r4 = super::blocks::with_row(r3, "専攻"@, crate::text::opt_string(p.major));
    let r5 = super::blocks::with_row(r4, "所属"@, crate::text::opt_string(p.affiliation));
    let r6 = super::blocks::with_row(r5, "MBTI"@, crate::text::opt_string(p.mbti));
    row_added(none, "呼び名"@, crate::text::opt_string(p.nickname), row);
    row_added(r1, "出身"@, crate::text::opt_string(p.birthplace), row);
    row_added(r2, "誕生日"@, crate::text::opt_string(p.dob), row);
    row_added(r3, "専攻"@, crate::text::opt_string(p.major), row);
    row_added(r4, "所属"@, crate::text::opt_string(p.affiliation), row);
    row_added(r5, "MBTI"@, crate::text::opt_string(p.mbti), row);
    row_added(r6, "SNS"@, crate::text::opt_string(p.sns), row);
    pushed(r6, ("SNS"@, AboutView::Link(crate::text::opt_string(p.sns)->0)), row);
}

/// One for a fact that says something, and nothing for any other.
pub open spec fn said(fact: Option<String>) -> int {
    if fact is Some && fact->0@.len() > 0 {
        1
    } else {
        0
    }
}

/// There is one row for each fact that says something, and the rows stand in the order nickname,
/// birthplace, day of birth, major, affiliation, type, account.
pub proof fn facts_stand_in_order(p: StudentProperties)
    ensures
        ({
            let rows = super::blocks::about_rows(p);
            let n1 = said(p.nickname);
            let n2 = n1 + said(p.birthplace);
            let n3 = n2 + said(p.dob);
            let n4 = n3 + said(p.major);
            let n5 = n4 + said(p.affiliation);
            let n6 = n5 + said(p.mbti);
            &&& rows.len() == n6 + said(p.sns)
            &&& said(p.nickname) == 1 ==> rows[0].0 == "呼び名"@
            &&& said(p.birthplace) == 1 ==> rows[n1].0 == "出身"@
            &&& said(p.dob) == 1 ==> rows[n2].0 == "誕生日"@
            &&& said(p.major) == 1 ==> rows[n3].0 == "専攻"@
            &&& said(p.affiliation) == 1 ==> rows[n4].0 == "所属"@
            &&& said(p.mbti) == 1 ==> rows[n5].0 == "MBTI"@
            &&& said(p.sns) == 1 ==> rows[n6].0 == "SNS"@
        }),
{
    let none = Seq::<(Seq<char>, AboutView)>::empty();
    let r1 = super::blocks::with_row(none, "呼び名"@, crate::text::opt_string(p.nickname));
    let r2 = super::blocks::with_row(r1, "出身"@, crate::text::opt_string(p.birthplace));
    let r3 = super::blocks::with_row(r2, "誕生日"@, crate::text::opt_string(p.dob));
    let r4 = super::blocks::with_row(r3, "専攻"@, crate::text::opt_string(p.major));
    let r5 = super::blocks::with_row(r4, "所属"@, crate::text::opt_string(p.affiliation));
    let r6 = super::blocks::with_row(r5, "MBTI"@, crate::text::opt_string(p.mbti));
    row_comes_last(none, "呼び名"@, p.nickname);
    row_comes_last(r1, "出身"@, p.birthplace);
    row_comes_last(r2, "誕生日"@, p.dob);
    row_comes_last(r3, "専攻"@, p.major);
    row_comes_last(r4, "所属"@, p.affiliation);
    row_comes_last(r5, "MBTI"@, p.mbti);
    row_comes_last(r6, "SNS"@, p.sns);
    link_comes_last(r6, "SNS"@, p.sns);
}

proof fn row_comes_last(rows: Seq<(Seq<char>, AboutView)>, label: Seq<char>, fact: Option<String>)
    ensures
        ({
            let after = super::blocks::with_row(rows, label, crate::text::opt_string(fact));
            &&& after.len() == rows.len() + said(fact)
            &&& said(fact) == 1 ==> after[rows.len() as int].0 == label
            &&& forall|i: int| 0 <= i < rows.len() ==> after[i] == #[trigger] rows[i]
        }),
{
}

proof fn link_comes_last(rows: Seq<(Seq<char>, AboutView)>, label: Seq<char>, fact: Option<String>)
    ensures
        ({
            let after = super::blocks::with_link_row(rows, label, crate::text::opt_string(fact));
            &&& after.len() == rows.len() + said(fact)
            &&& said(fact) == 1 ==> after[rows.len() as int].0 == label
            &&& forall|i: int| 0 <= i < rows.len() ==> after[i] == #[trigger] rows[i]
        }),
{
    row_comes_last(rows, label, fact);
}

/// The table of facts has a row for each of its rows, in order: the label in bold letters in the
/// first cell and the value in the second, with the address where it is a link.
pub proof fn tables_show_label_and_value(rows: Seq<(Seq<char>, AboutView)>, i: int)
    requires
        0 <= i < rows.len(),
    ensures
        ({
            let table = super::blocks::about_table(rows);
            let list = inner(inner(table, "table"@), "children"@);
            let cells = inner(inner(nth(list, i), "table_row"@), "cells"@);
            let label = nth(nth(cells, 0), 0);
            let value = nth(nth(cells, 1), 0);
            &&& inner(table, "type"@) == JsonView::Str("table"@)
            &&& list->Array_0.len() == rows.len()
            &&& cells->Array_0.len() == 2
            &&& is_bold(label)
            &&& fits(rows[i].0) ==> words(label) == rows[i].0
            &&& match rows[i].1 {
                AboutView::Text(t) => fits(t) ==> words(value) == t,
                AboutView::Link(url) => (fits(url) ==> words(value) == url) && inner(
                    inner(inner(value, "text"@), "link"@),
                    "url"@,
                ) == JsonView::Str(url),
            }
        }),
{
    let table = super::blocks::about_table(rows);
    reveal_strlit("object");
    reveal_strlit("type");
    reveal_strlit("table");
    reveal_strlit("table_row");
    reveal_strlit("table_width");
    reveal_strlit("has_column_header");
    reveal_strlit("has_row_header");
    reveal_strlit("children");
    reveal_strlit("text");
    reveal_strlit("content");
    reveal_strlit("link");
    assert("table"@.len() == 5 && "object"@.len() == 6 && "type"@.len() == 4 && "table_row"@.len()
        == 9);
    assert("table_width"@.len() == 11 && "has_column_header"@.len() == 17
        && "has_row_header"@.len() == 14 && "children"@.len() == 8);
    assert("type"@[1] == 'y' && "text"@[1] == 'e' && "content"@.len() == 7 && "link"@.len() == 4);
    let body = inner(table, "table"@);
    block_parts(
        "table"@,
        JsonView::Object(
            seq![
                ("table_width"@, JsonView::UInt(2)),
                ("has_column_header"@, JsonView::Bool(false)),
                ("has_row_header"@, JsonView::Bool(false)),
                (
                    "children"@,
                    JsonView::Array(
                        rows.map_values(
                            |row: (Seq<char>, AboutView)| super::blocks::about_row(row),
                        ),
                    ),
                ),
            ],
        ),
    );
    member_here(body->Object_0, 3);
    let list = inner(body, "children"@);
    let row = nth(list, i);
    assert(row == super::blocks::about_row(rows[i]));
    let shown = JsonView::Object(
        seq![
            (
                "cells"@,
                JsonView::Array(
                    seq![
                        JsonView::Array(seq![super::blocks::bold_value(rows[i].0)]),
                        JsonView::Array(seq![super::blocks::about_value(rows[i].1)]),
                    ],
                ),
            ),
        ],
    );
    block_parts("table_row"@, shown);
    member_here(shown->Object_0, 0);
    rich_texts_hold_their_words(rows[i].0);
    match rows[i].1 {
        AboutView::Text(t) => {
            rich_texts_hold_their_words(t);
        },
        AboutView::Link(url) => {
            let value = super::blocks::about_value(rows[i].1)->Object_0;
            member_here(value, 1);
            member_here(value[1].1->Object_0, 0);
            member_here(value[1].1->Object_0, 1);
            member_here(value[1].1->Object_0[1].1->Object_0, 0);
        },
    }
}

/// The facts stand beside the picture where there is one, and alone where there is none and some fact
/// says something; a section without either is left out.
pub proof fn facts_stand_beside_the_picture(p: StudentProperties, pic: Option<MediaView>)
    ensures
        super::blocks::about_section(p, pic) is None <==> pic is None && super::blocks::about_rows(
            p,
        ).len() == 0,
        super::blocks::about_section(p, pic) matches Some(blocks) ==> {
            &&& blocks.len() == 2
            &&& blocks[0] == super::blocks::heading_value("About"@)
            &&& pic is None ==> blocks[1] == super::blocks::about_table(
                super::blocks::about_rows(p),
            )
            &&& pic matches Some(media) ==> {
                let columns = inner(inner(blocks[1], "column_list"@), "children"@);
                &&& columns->Array_0.len() == 2
                &&& inner(inner(nth(columns, 0), "column"@), "children"@) == JsonView::Array(
                    seq![super::blocks::block_value("image"@, super::blocks::media_value(media))],
                )
                &&& inner(inner(nth(columns, 1), "column"@), "children"@) == JsonView::Array(
                    seq![super::blocks::about_table(super::blocks::about_rows(p))],
                )
            }
        },
{
    reveal_strlit("object");
    reveal_strlit("type");
    reveal_strlit("column_list");
    reveal_strlit("column");
    assert("column_list"@.len() == 11 && "column"@.len() == 6 && "object"@.len() == 6
        && "type"@.len() == 4);
    assert("column"@[0] == 'c' && "object"@[0] == 'o');
    match pic {
        Some(media) => {
            let a = seq![super::blocks::block_value("image"@, super::blocks::media_value(media))];
            let b = seq![super::blocks::about_table(super::blocks::about_rows(p))];
            let columns = seq![super::blocks::column_value(a), super::blocks::column_value(b)];
            block_parts("column_list"@, super::blocks::children_body(columns));
            block_parts("column"@, super::blocks::children_body(a));
            block_parts("column"@, super::blocks::children_body(b));
            member_here(super::blocks::children_body(columns)->Object_0, 0);
            member_here(super::blocks::children_body(a)->Object_0, 0);
            member_here(super::blocks::children_body(b)->Object_0, 0);
        },
        None => {},
    }
}

/// The label of a line of a list.
pub open spec fn line_label(block: JsonView) -> Seq<char> {
    words(nth(inner(inner(block, "paragraph"@), "rich_text"@), 0))
}

/// The names of a line of a list.
pub open spec fn line_names(block: JsonView) -> Seq<char> {
    words(nth(inner(inner(block, "paragraph"@), "rich_text"@), 1))
}

proof fn paragraphs_hold_their_texts(texts: Seq<JsonView>)
    ensures
        inner(
            inner(
                super::blocks::block_value("paragraph"@, super::blocks::rich_text_body(texts)),
                "paragraph"@,
            ),
            "rich_text"@,
        ) == JsonView::Array(texts),
{
    reveal_strlit("object");
    reveal_strlit("type");
    reveal_strlit("paragraph");
    assert("paragraph"@.len() == 9 && "object"@.len() == 6 && "type"@.len() == 4);
    block_parts("paragraph"@, super::blocks::rich_text_body(texts));
    member_here(super::blocks::rich_text_body(texts)->Object_0, 0);
}

/// Each list of a profile that names something has a line: its label in bold letters, and the names
/// of that list. Hobbies stand before interests and these before likes; a section without a line is
/// left out.
pub proof fn lists_stand_behind_their_labels(p: StudentProperties)
    ensures
        ({
            let hobbies = super::blocks::combined(crate::text::strings(p.hobbies@));
            let interests = super::blocks::combined(crate::text::strings(p.interests@));
            let likes = super::blocks::combined(crate::text::strings(p.likes@));
            let n1: int = if hobbies is Some {
                2
            } else {
                1
            };
            let n2 = if interests is Some {
                n1 + 1
            } else {
                n1
            };
            let n3 = if likes is Some {
                n2 + 1
            } else {
                n2
            };
            &&& super::blocks::highlights_section(p) is None <==> n3 == 1
            &&& super::blocks::highlights_section(p) matches Some(blocks) ==> {
                &&& blocks.len() == n3
                &&& blocks[0] == super::blocks::heading_value("Highlights"@)
                &&& hobbies matches Some(line) ==> line_label(blocks[1]) == "🎯 Hobbies: "@ && (fits(
                    line,
                ) ==> line_names(blocks[1]) == line)
                &&& interests matches Some(line) ==> line_label(blocks[n1]) == "🔍 Interests: "@ && (
                fits(line) ==> line_names(blocks[n1]) == line)
                &&& likes matches Some(line) ==> line_label(blocks[n2]) == "❤️ Likes: "@ && (fits(
                    line,
                ) ==> line_names(blocks[n2]) == line)
            }
        }),
{
    reveal_strlit("🎯 Hobbies: ");
    reveal_strlit("🔍 Interests: ");
    reveal_strlit("❤️ Likes: ");
    assert("🎯 Hobbies: "@.len() < 100 && "🔍 Interests: "@.len() < 100 && "❤️ Likes: "@.len() < 100);
    let hobbies = super::blocks::combined(crate::text::strings(p.hobbies@));
    let interests = super::blocks::combined(crate::text::strings(p.interests@));
    let likes = super::blocks::combined(crate::text::strings(p.likes@));
    line_of("🎯 Hobbies: "@, hobbies->0);
    line_of("🔍 Interests: "@, interests->0);
    line_of("❤️ Likes: "@, likes->0);
}

proof fn line_of(label: Seq<char>, line: Seq<char>)
    ensures
        ({
            let block = super::blocks::block_value(
                "paragraph"@,
                super::blocks::rich_text_body(
                    seq![super::blocks::bold_value(label), super::blocks::plain_value(line)],
                ),
            );
            line_label(block) == super::blocks::truncated(label) && line_names(block)
                == super::blocks::truncated(line)
        }),
{
    paragraphs_hold_their_texts(
        seq![super::blocks::bold_value(label), super::blocks::plain_value(line)],
    );
    rich_texts_hold_their_words(label);
    rich_texts_hold_their_words(line);
}

/// The title of a text to unfold.
pub open spec fn toggle_title(block: JsonView) -> Seq<char> {
    words(nth(inner(inner(block, "toggle"@), "rich_text"@), 0))
}

/// What a text unfolds to.
pub open spec fn toggle_text(block: JsonView) -> Seq<char> {
    line_label(nth(inner(inner(block, "toggle"@), "children"@), 0))
}

proof fn toggle_of(label: Seq<char>, t: Seq<char>)
    ensures
        ({
            let block = super::blocks::with_toggle(Seq::empty(), label, Some(t));
            super::blocks::some_text(Some(t)) matches Some(shown) ==> block.len() == 1
                && toggle_title(block[0]) == super::blocks::truncated(label) && toggle_text(block[0])
                == super::blocks::truncated(shown)
        }),
{
    reveal_strlit("object");
    reveal_strlit("type");
    reveal_strlit("toggle");
    reveal_strlit("rich_text");
    reveal_strlit("children");
    assert("toggle"@.len() == 6 && "object"@.len() == 6 && "type"@.len() == 4);
    assert("toggle"@[0] == 't' && "object"@[0] == 'o' && "rich_text"@.len() == 9
        && "children"@.len() == 8);
    if super::blocks::some_text(Some(t)) is Some {
        let shown = super::blocks::some_text(Some(t))->0;
        let body = JsonView::Object(
            seq![
                ("rich_text"@, JsonView::Array(seq![super::blocks::bold_value(label)])),
                (
                    "children"@,
                    JsonView::Array(
                        seq![
                            super::blocks::block_value(
                                "paragraph"@,
                                super::blocks::rich_text_body(
                                    seq![super::blocks::plain_value(shown)],
                                ),
                            ),
                        ],
                    ),
                ),
            ],
        );
        block_parts("toggle"@, body);
        member_here(body->Object_0, 0);
        member_here(body->Object_0, 1);
        paragraphs_hold_their_texts(seq![super::blocks::plain_value(shown)]);
        rich_texts_hold_their_words(label);
        rich_texts_hold_their_words(shown);
    }
}

/// Whether one of some blocks unfolds under a title to a text.
pub open spec fn unfolds(blocks: Seq<JsonView>, title: Seq<char>, text: Seq<char>) -> bool {
    exists|i: int|
        0 <= i < blocks.len() && toggle_title(#[trigger] blocks[i]) == title && toggle_text(
            blocks[i],
        ) == text
}

proof fn toggle_added(
    blocks: Seq<JsonView>,
    label: Seq<char>,
    value: Option<String>,
    title: Seq<char>,
    text: Seq<char>,
)
    requires
        fits(label),
    ensures
        ({
            let after = super::blocks::with_toggle(blocks, label, crate::text::opt_string(value));
            unfolds(after, title, text) <==> {
                ||| unfolds(blocks, title, text)
                ||| value is Some && crate::text::trimmed(value->0@).len() > 0 && title == label
                    && text == super::blocks::truncated(crate::text::trimmed(value->0@))
            }
        }),
{
    let after = super::blocks::with_toggle(blocks, label, crate::text::opt_string(value));
    if value is Some && crate::text::trimmed(value->0@).len() > 0 {
        toggle_of(label, value->0@);
        let one = super::blocks::with_toggle(Seq::empty(), label, Some(value->0@));
        assert(after == blocks.push(one[0]));
        let n = blocks.len() as int;
        assert(after[n] == one[0]);
        assert forall|i: int| 0 <= i < n implies after[i] == #[trigger] blocks[i] by {}
        if exists|i: int|
            0 <= i < after.len() && toggle_title(#[trigger] after[i]) == title && toggle_text(
                after[i],
            ) == text {
            let i = choose|i: int|
                0 <= i < after.len() && toggle_title(#[trigger] after[i]) == title && toggle_text(
                    after[i],
                ) == text;
            if i < n {
                assert(toggle_title(blocks[i]) == title);
            }
        }
        if exists|i: int|
            0 <= i < blocks.len() && toggle_title(#[trigger] blocks[i]) == title && toggle_text(
                blocks[i],
            ) == text {
            let i = choose|i: int|
                0 <= i < blocks.len() && toggle_title(#[trigger] blocks[i]) == title
                    && toggle_text(blocks[i]) == text;
            assert(toggle_title(after[i]) == title);
        }
    }
}

/// Whether a text says something and is shown as another.
pub open spec fn says(value: Option<String>, shown: Seq<char>) -> bool {
    value is Some && crate::text::trimmed(value->0@).len() > 0 && shown == super::blocks::truncated(
        crate::text::trimmed(value->0@),
    )
}

/// Each longer text of a profile that says something can be unfolded under its own title and under no
/// other, and nothing else can.
pub proof fn texts_unfold_under_their_titles(p: StudentProperties, title: Seq<char>, text: Seq<char>)
    ensures
        ({
            let blocks = match super::blocks::toggle_section(p) {
                Some(blocks) => blocks,
                None => Seq::empty(),
            };
            unfolds(blocks, title, text) <==> {
                ||| title == "🚀 New Challenges"@ && says(p.new_challenges, text)
                ||| title == "💡 Ask Me About"@ && says(p.ask_me_about, text)
                ||| title == "🔄 Turning Point"@ && says(p.turning_point, text)
                ||| title == "💭 BTW"@ && says(p.btw, text)
                ||| title == "✉️ Message"@ && says(p.message, text)
                ||| title == "🙅 Dislikes"@ && says(p.dislikes, text)
            }
        }),
{
    reveal_strlit("🚀 New Challenges");
    reveal_strlit("💡 Ask Me About");
    reveal_strlit("🔄 Turning Point");
    reveal_strlit("💭 BTW");
    reveal_strlit("✉️ Message");
    reveal_strlit("🙅 Dislikes");
    assert("🚀 New Challenges"@.len() < 100 && "💡 Ask Me About"@.len() < 100
        && "🔄 Turning Point"@.len() < 100);
    assert("💭 BTW"@.len() < 100 && "✉️ Message"@.len() < 100 && "🙅 Dislikes"@.len() < 100);
    let none = Seq::<JsonView>::empty();
    let b1 = super::blocks::with_toggle(
        none,
        "🚀 New Challenges"@,
        crate::text::opt_string(p.new_challenges),
    );
    let b2 = super::blocks::with_toggle(
        b1,
        "💡 Ask Me About"@,
        crate::text::opt_string(p.ask_me_about),
    );
    let b3 = super::blocks::with_toggle(
        b2,
        "🔄 Turning Point"@,
        crate::text::opt_string(p.turning_point),
    );
    let b4 = super::blocks::with_toggle(b3, "💭 BTW"@, crate::text::opt_string(p.btw));
    let b5 = super::blocks::with_toggle(b4, "✉️ Message"@, crate::text::opt_string(p.message));
    toggle_added(none, "🚀 New Challenges"@, p.new_challenges, title, text);
    toggle_added(b1, "💡 Ask Me About"@, p.ask_me_about, title, text);
    toggle_added(b2, "🔄 Turning Point"@, p.turning_point, title, text);
    toggle_added(b3, "💭 BTW"@, p.btw, title, text);
    toggle_added(b4, "✉️ Message"@, p.message, title, text);
    toggle_added(b5, "🙅 Dislikes"@, p.dislikes, title, text);
    let b6 = super::blocks::with_toggle(b5, "🙅 Dislikes"@, crate::text::opt_string(p.dislikes));
    if super::blocks::toggle_section(p) is None {
        assert(b6 =~= none);
    }
}

/// A self introduction that says something is quoted without the space around it; any other is left
/// out.
pub proof fn introductions_are_quoted(bio: Option<Seq<char>>)
    ensures
        super::blocks::bio_section(bio) is Some <==> bio is Some && !crate::text::blank(bio->0),
        super::blocks::bio_section(bio) matches Some(blocks) ==> blocks.len() == 1 && inner(
            blocks[0],
            "type"@,
        ) == JsonView::Str("callout"@) && words(
            nth(inner(inner(blocks[0], "callout"@), "rich_text"@), 0),
        ) == super::blocks::truncated(crate::text::trimmed(bio->0)),
{
    if bio is Some {
        crate::text::blank_trims_to_nothing(bio->0);
    }
    if super::blocks::bio_section(bio) is Some {
        reveal_strlit("object");
        reveal_strlit("type");
        reveal_strlit("callout");
        reveal_strlit("icon");
        reveal_strlit("rich_text");
        assert("callout"@.len() == 7 && "object"@.len() == 6 && "type"@.len() == 4 && "icon"@.len()
            == 4 && "rich_text"@.len() == 9);
        let t = crate::text::trimmed(bio->0);
        let body = JsonView::Object(
            seq![
                (
                    "icon"@,
                    JsonView::Object(
                        seq![
                            ("type"@, JsonView::Str("emoji"@)),
                            ("emoji"@, JsonView::Str("💬"@)),
                        ],
                    ),
                ),
                ("rich_text"@, JsonView::Array(seq![super::blocks::plain_value(t)])),
                ("color"@, JsonView::Str("gray_background"@)),
            ],
        );
        block_parts("callout"@, body);
        member_here(body->Object_0, 1);
        rich_texts_hold_their_words(t);
    }
}

/// A page links to its source without the space around its address, where there is one.
pub proof fn sources_are_linked(url: Option<Seq<char>>)
    ensures
        super::blocks::source_section(url) is Some <==> url is Some && !crate::text::blank(url->0),
        super::blocks::source_section(url) matches Some(blocks) ==> blocks.len() == 2 && blocks[0]
            == super::blocks::heading_value("Source"@) && inner(
            inner(blocks[1], "bookmark"@),
            "url"@,
        ) == JsonView::Str(crate::text::trimmed(url->0)),
{
    if url is Some {
        crate::text::blank_trims_to_nothing(url->0);
    }
    if super::blocks::source_section(url) is Some {
        reveal_strlit("object");
        reveal_strlit("type");
        reveal_strlit("bookmark");
        assert("bookmark"@.len() == 8 && "object"@.len() == 6 && "type"@.len() == 4);
        let body = JsonView::Object(
            seq![
                ("url"@, JsonView::Str(crate::text::trimmed(url->0))),
                (
                    "caption"@,
                    JsonView::Array(
                        seq![super::blocks::plain_value("Google Slides — 自己紹介スライド原本"@)],
                    ),
                ),
            ],
        );
        block_parts("bookmark"@, body);
        member_here(body->Object_0, 0);
    }
}

/// A heading shows its title.
pub proof fn headings_show_their_title(title: Seq<char>)
    ensures
        fits(title) ==> words(
            nth(inner(inner(super::blocks::heading_value(title), "heading_2"@), "rich_text"@), 0),
        ) == title,
{
    reveal_strlit("object");
    reveal_strlit("type");
    reveal_strlit("heading_2");
    assert("heading_2"@.len() == 9 && "object"@.len() == 6 && "type"@.len() == 4);
    let texts = seq![super::blocks::plain_value(title)];
    block_parts("heading_2"@, super::blocks::rich_text_body(texts));
    member_here(super::blocks::rich_text_body(texts)->Object_0, 0);
    rich_texts_hold_their_words(title);
}

/// A picture of a gallery shows its own picture, and below it what is said of that image, where
/// something is.
pub proof fn pictures_stand_above_their_description(image: GalleryImage, media: MediaView)
    ensures
        ({
            let blocks = super::blocks::picture_blocks(image, media);
            let said = image.description is Some && !crate::text::blank(image.description->0@);
            &&& blocks.len() == (if said {
                2int
            } else {
                1
            })
            &&& inner(blocks[0], "type"@) == JsonView::Str("image"@)
            &&& inner(blocks[0], "image"@) == super::blocks::media_value(media)
            &&& said ==> line_label(blocks[1]) == super::blocks::truncated(image.description->0@)
        }),
{
    reveal_strlit("object");
    reveal_strlit("type");
    reveal_strlit("image");
    reveal_strlit("text");
    assert("image"@.len() == 5 && "object"@.len() == 6 && "type"@.len() == 4);
    assert("type"@[1] == 'y' && "text"@[1] == 'e');
    block_parts("image"@, super::blocks::media_value(media));
    if image.description is Some && !crate::text::blank(image.description->0@) {
        let d = image.description->0@;
        let rich = JsonView::Object(
            seq![
                ("type"@, JsonView::Str("text"@)),
                (
                    "text"@,
                    JsonView::Object(
                        seq![("content"@, JsonView::Str(super::blocks::truncated(d)))],
                    ),
                ),
                (
                    "annotations"@,
                    JsonView::Object(
                        seq![
                            ("italic"@, JsonView::Bool(true)),
                            ("color"@, JsonView::Str("gray"@)),
                        ],
                    ),
                ),
            ],
        );
        paragraphs_hold_their_texts(seq![rich]);
        member_here(rich->Object_0, 1);
        member_here(rich->Object_0[1].1->Object_0, 0);
    }
}

/// Two or three pictures stand side by side in one row, in order, each with its own description; a
/// picture alone stands by itself.
pub proof fn pictures_stand_side_by_side(
    images: Seq<GalleryImage>,
    media: Seq<(usize, MediaView)>,
    i: int,
)
    requires
        0 <= i < media.len() <= 3,
        forall|k: int| 0 <= k < media.len() ==> (#[trigger] media[k]).0 < images.len(),
    ensures
        ({
            let rows = super::blocks::gallery_rows(images, media);
            let own = super::blocks::picture_blocks(images[media[i].0 as int], media[i].1);
            &&& media.len() == 1 ==> rows == own
            &&& media.len() > 1 ==> {
                let columns = inner(inner(rows[0], "column_list"@), "children"@);
                &&& rows.len() == 1
                &&& columns->Array_0.len() == media.len()
                &&& inner(inner(nth(columns, i), "column"@), "children"@) == JsonView::Array(own)
            }
        }),
{
    reveal_strlit("object");
    reveal_strlit("type");
    reveal_strlit("column_list");
    reveal_strlit("column");
    assert("column_list"@.len() == 11 && "column"@.len() == 6 && "object"@.len() == 6
        && "type"@.len() == 4);
    assert("column"@[0] == 'c' && "object"@[0] == 'o');
    columns_hold_their_pictures(images, media);
    let columns = super::blocks::gallery_columns(images, media);
    let own = super::blocks::picture_blocks(images[media[i].0 as int], media[i].1);
    block_parts("column_list"@, super::blocks::children_body(columns));
    member_here(super::blocks::children_body(columns)->Object_0, 0);
    block_parts("column"@, super::blocks::children_body(own));
    member_here(super::blocks::children_body(own)->Object_0, 0);
}

proof fn columns_hold_their_pictures(images: Seq<GalleryImage>, media: Seq<(usize, MediaView)>)
    requires
        forall|k: int| 0 <= k < media.len() ==> (#[trigger] media[k]).0 < images.len(),
    ensures
        ({
            let columns = super::blocks::gallery_columns(images, media);
            &&& columns.len() == media.len()
            &&& forall|k: int|
                0 <= k < media.len() ==> #[trigger] columns[k] == super::blocks::column_value(
                    super::blocks::picture_blocks(images[media[k].0 as int], media[k].1),
                )
        }),
    decreases media.len(),
{
    if media.len() > 0 {
        let init = media.drop_last();
        assert forall|k: int| 0 <= k < init.len() implies (#[trigger] init[k]).0 < images.len() by {
            assert(init[k] == media[k]);
        }
        columns_hold_their_pictures(images, init);
        let last = media.len() - 1;
        assert(media.last() == media[last]);
        assert(media[last].0 < images.len());
    }
}

/// A gallery goes on row by row: what follows whole rows of three stands below them, in order.
pub proof fn galleries_go_on_by_rows(
    images: Seq<GalleryImage>,
    first: Seq<(usize, MediaView)>,
    rest: Seq<(usize, MediaView)>,
)
    requires
        first.len() % 3 == 0,
    ensures
        super::blocks::gallery_rows(images, first + rest) == super::blocks::gallery_rows(
            images,
            first,
        ) + super::blocks::gallery_rows(images, rest),
    decreases first.len(),
{
    let all = first + rest;
    if first.len() == 0 {
        assert(all =~= rest);
        assert(super::blocks::gallery_rows(images, rest) =~= super::blocks::gallery_rows(
            images,
            first,
        ) + super::blocks::gallery_rows(images, rest));
    } else if rest.len() == 0 {
        assert(all =~= first);
        assert(super::blocks::gallery_rows(images, first) =~= super::blocks::gallery_rows(
            images,
            first,
        ) + super::blocks::gallery_rows(images, rest));
    } else {
        assert(all.take(3) =~= first.take(3));
        assert(all.skip(3) =~= first.skip(3) + rest);
        galleries_go_on_by_rows(images, first.skip(3), rest);
        let row = super::blocks::gallery_row(images, first.take(3));
        if first.len() == 3 {
            assert(first.take(3) =~= first);
            assert(first.skip(3) =~= Seq::empty());
        }
        assert(super::blocks::gallery_rows(images, all) =~= super::blocks::gallery_rows(
            images,
            first,
        ) + super::blocks::gallery_rows(images, rest));
    }
}

/// A gallery is there just where there is a picture, and shows the first nine.
pub proof fn galleries_show_the_first_nine(
    images: Seq<GalleryImage>,
    media: Seq<(usize, MediaView)>,
)
    ensures
        super::blocks::gallery_section(images, media) is None <==> media.len() == 0,
        super::blocks::gallery_section(images, media) matches Some(blocks) ==> blocks == seq![
            super::blocks::heading_value("Gallery"@),
        ] + super::blocks::gallery_rows(
            images,
            if media.len() > 9 {
                media.take(9)
            } else {
                media
            },
        ),
{
}

/// What is there, as a list of at most one.
pub open spec fn listed(section: Option<Seq<JsonView>>) -> Seq<Seq<JsonView>> {
    match section {
        Some(s) => seq![s],
        None => Seq::empty(),
    }
}

/// The sections of a page are the introduction, the facts, the lists, the longer texts, the gallery
/// and the source, in this order, each where it is there. The source that is given comes before that
/// of the profile.
pub proof fn pages_show_their_sections_in_order(
    profile: StudentProfile,
    pic: Option<MediaView>,
    media: Seq<(usize, MediaView)>,
    source_url: Option<Seq<char>>,
)
    ensures
        super::blocks::page_sections(profile, pic, media, source_url) == listed(
            super::blocks::bio_section(crate::text::opt_string(profile.bio_text)),
        ) + listed(super::blocks::about_section(profile.properties, pic)) + listed(
            super::blocks::highlights_section(profile.properties),
        ) + listed(super::blocks::toggle_section(profile.properties)) + listed(
            super::blocks::gallery_section(profile.gallery_images@, media),
        ) + listed(
            super::blocks::source_section(
                if source_url is Some {
                    source_url
                } else {
                    crate::text::opt_string(profile.source_canonical_uri)
                },
            ),
        ),
{
    let a = super::blocks::bio_section(crate::text::opt_string(profile.bio_text));
    let b = super::blocks::about_section(profile.properties, pic);
    let c = super::blocks::highlights_section(profile.properties);
    let d = super::blocks::toggle_section(profile.properties);
    let e = super::blocks::gallery_section(profile.gallery_images@, media);
    let f = super::blocks::source_section(
        if source_url is Some {
            source_url
        } else {
            crate::text::opt_string(profile.source_canonical_uri)
        },
    );
    let none = Seq::<Seq<JsonView>>::empty();
    section_added(none, a);
    section_added(super::blocks::with_section(none, a), b);
    section_added(none + listed(a) + listed(b), c);
    section_added(none + listed(a) + listed(b) + listed(c), d);
    section_added(none + listed(a) + listed(b) + listed(c) + listed(d), e);
    section_added(none + listed(a) + listed(b) + listed(c) + listed(d) + listed(e), f);
    assert(none + listed(a) =~= listed(a));
}

proof fn section_added(sections: Seq<Seq<JsonView>>, section: Option<Seq<JsonView>>)
    ensures
        super::blocks::with_section(sections, section) == sections + listed(section),
{
    assert(super::blocks::with_section(sections, section) =~= sections + listed(section));
}

/// The blocks of a page are those of its sections, one section after another and each as it is, with
/// one line before every section but the first.
pub proof fn sections_stand_whole(sections: Seq<Seq<JsonView>>, section: Seq<JsonView>)
    ensures
        sections.len() == 0 ==> super::blocks::interleaved(sections).len() == 0,
        sections.len() == 0 ==> super::blocks::interleaved(sections.push(section)) == section,
        sections.len() > 0 ==> super::blocks::interleaved(sections.push(section))
            == super::blocks::interleaved(sections) + seq![super::blocks::divider_value()]
            + section,
        inner(super::blocks::divider_value(), "type"@) == JsonView::Str("divider"@),
{
    reveal_strlit("object");
    reveal_strlit("type");
    reveal_strlit("divider");
    assert("divider"@.len() == 7 && "object"@.len() == 6 && "type"@.len() == 4);
    block_parts("divider"@, JsonView::Object(Seq::empty()));
    let all = sections.push(section);
    assert(all.drop_last() =~= sections);
    if sections.len() > 0 {
        assert(super::blocks::interleaved(all) =~= super::blocks::interleaved(sections) + seq![
            super::blocks::divider_value(),
        ] + section);
    }
}

/// Names in one line are those that have a name, each once and the first of its kind, with commas.
pub proof fn lines_name_each_once(texts: Seq<Seq<char>>, text: Seq<char>)
    ensures
        super::blocks::combined(texts) is Some <==> exists|i: int|
            0 <= i < texts.len() && super::naming::normalized_name(#[trigger] texts[i]).len() > 0,
        super::blocks::combined(texts) matches Some(line) ==> line == crate::text::join(
            super::naming::once_by_name(texts),
            ", "@,
        ),
        super::naming::once_by_name(texts).contains(text) <==> exists|i: int|
            {
                &&& 0 <= i < texts.len()
                &&& #[trigger] texts[i] == text
                &&& super::naming::normalized_name(text).len() > 0
                &&& forall|j: int|
                    0 <= j < i ==> super::naming::normalized_name(#[trigger] texts[j])
                        != super::naming::normalized_name(text)
            },
    decreases texts.len(),
{
    if texts.len() > 0 {
        let init = texts.drop_last();
        lines_name_each_once(init, text);
        let last = texts.len() - 1;
        assert(texts.last() == texts[last]);
        assert forall|i: int| 0 <= i < last implies init[i] == #[trigger] texts[i] by {}
        pushed(super::naming::once_by_name(init), texts[last], text);
        if super::naming::once_by_name(init).contains(text) {
            let i = choose|i: int|
                {
                    &&& 0 <= i < init.len()
                    &&& #[trigger] init[i] == text
                    &&& super::naming::normalized_name(text).len() > 0
                    &&& forall|j: int|
                        0 <= j < i ==> super::naming::normalized_name(#[trigger] init[j])
                            != super::naming::normalized_name(text)
                };
            assert forall|j: int| 0 <= j < i implies super::naming::normalized_name(
                #[trigger] texts[j],
            ) != super::naming::normalized_name(text) by {
                assert(init[j] == texts[j]);
            }
            assert(texts[i] == text);
        }
        if exists|i: int|
            {
                &&& 0 <= i < texts.len()
                &&& #[trigger] texts[i] == text
                &&& super::naming::normalized_name(text).len() > 0
                &&& forall|j: int|
                    0 <= j < i ==> super::naming::normalized_name(#[trigger] texts[j])
                        != super::naming::normalized_name(text)
            } {
            let i = choose|i: int|
                {
                    &&& 0 <= i < texts.len()
                    &&& #[trigger] texts[i] == text
                    &&& super::naming::normalized_name(text).len() > 0
                    &&& forall|j: int|
                        0 <= j < i ==> super::naming::normalized_name(#[trigger] texts[j])
                            != super::naming::normalized_name(text)
                };
            if i < last {
                assert(init[i] == text);
                assert forall|j: int| 0 <= j < i implies super::naming::normalized_name(
                    #[trigger] init[j],
                ) != super::naming::normalized_name(text) by {
                    assert(init[j] == texts[j]);
                }
            } else {
                assert(super::naming::first_of_its_name(texts, last));
            }
        }
        some_name(texts);
    }
}

proof fn some_name(texts: Seq<Seq<char>>)
    ensures
        super::naming::once_by_name(texts).len() > 0 <==> exists|i: int|
            0 <= i < texts.len() && super::naming::normalized_name(#[trigger] texts[i]).len() > 0,
    decreases texts.len(),
{
    if texts.len() > 0 {
        let init = texts.drop_last();
        some_name(init);
        let last = texts.len() - 1;
        assert(texts.last() == texts[last]);
        assert forall|i: int| 0 <= i < last implies init[i] == #[trigger] texts[i] by {}
        if super::naming::once_by_name(init).len() > 0 {
            let i = choose|i: int|
                0 <= i < init.len() && super::naming::normalized_name(#[trigger] init[i]).len() > 0;
            assert(super::naming::normalized_name(texts[i]).len() > 0);
        } else {
            assert forall|i: int| 0 <= i < last implies super::naming::normalized_name(
                #[trigger] texts[i],
            ).len() == 0 by {
                assert(super::naming::normalized_name(init[i]).len() == 0);
            }
        }
    }
}

/// The section of texts to unfold is there just where there is something to unfold.
pub proof fn unfolding_sections_hold_something(p: StudentProperties)
    ensures
        super::blocks::toggle_section(p) matches Some(blocks) ==> blocks.len() > 0,
        super::blocks::toggle_section(p) is None <==> super::blocks::some_text(
            crate::text::opt_string(p.new_challenges),
        ) is None && super::blocks::some_text(crate::text::opt_string(p.ask_me_about)) is None
            && super::blocks::some_text(crate::text::opt_string(p.turning_point)) is None
            && super::blocks::some_text(crate::text::opt_string(p.btw)) is None
            && super::blocks::some_text(crate::text::opt_string(p.message)) is None
            && super::blocks::some_text(crate::text::opt_string(p.dislikes)) is None,
{
}

} // verus!
