//! The properties of a page: which property of the database takes which part of a profile.

use vstd::prelude::*;
use vstd::string::*;

use crate::attribute_inventory::{AliasView, AttributeAliasCatalog, AttributeAliasDefinition};
use crate::json::{array_of, boolean, object1, put_member, text, Json, JsonView};
use crate::text::{contains_char, is_blank, str_eq, trim};
use crate::text_map::TextMap;

use super::blocks::{combine_list_texts, nonblank, web_address};
use super::naming::{keep_once_by_name, normalize_property_name};

verus! {

/// A property of a database.
#[derive(Debug)]
pub struct NotionProperty {
    pub property_type: String,
}

/// The properties of a database and the names that they go by.
#[derive(Debug)]
pub struct DatabaseSchema {
    pub title_property: String,
    pub email_property: Option<String>,
    pub properties: TextMap<NotionProperty>,
    pub actual_names_by_normalized: TextMap<String>,
}

/// The property that a name leads to, with its type.
pub open spec fn property_named(schema: DatabaseSchema, name: Seq<char>) -> Option<
    (Seq<char>, Seq<char>),
> {
    let key = super::naming::normalized_name(name);
    let names = schema.actual_names_by_normalized@;
    if names.contains_key(key) && schema.properties@.contains_key(names[key]@) {
        Some((names[key]@, schema.properties@[names[key]@].property_type@))
    } else {
        None
    }
}

/// The property that the first of the names that leads to one leads to.
pub open spec fn first_property(schema: DatabaseSchema, names: Seq<Seq<char>>) -> Option<
    (Seq<char>, Seq<char>),
>
    decreases names.len(),
{
    if names.len() == 0 {
        None
    } else {
        match property_named(schema, names[0]) {
            Some(found) => Some(found),
            None => first_property(schema, names.drop_first()),
        }
    }
}

impl DatabaseSchema {
    /// The property that the first of the names that leads to one leads to.
    pub fn resolve_property(&self, candidates: &Vec<String>) -> (r: Option<
        (&str, &NotionProperty),
    >)
        ensures
            (match r {
                Some((name, property)) => Some((name@, property.property_type@)),
                None => None,
            }) == first_property(*self, crate::text::strings(candidates@)),
    {
        let ghost names = crate::text::strings(candidates@);
        let mut i: usize = 0;
        assert(names.skip(0) =~= names);
        while i < candidates.len()
            invariant
                i <= candidates.len(),
                names == crate::text::strings(candidates@),
                first_property(*self, names) == first_property(*self, names.skip(i as int)),
            decreases candidates.len() - i,
        {
            proof {
                assert(names.skip(i as int)[0] == candidates@[i as int]@);
                assert(names.skip(i as int).drop_first() =~= names.skip(i + 1));
            }
            let key = normalize_property_name(candidates[i].as_str());
            match self.actual_names_by_normalized.get(key.as_str()) {
                Some(name) => match self.properties.get(name.as_str()) {
                    Some(property) => {
                        return Some((name.as_str(), property));
                    },
                    None => {},
                },
                None => {},
            }
            i = i + 1;
        }
        None
    }
}

/// The first name of a property of the given type.
pub open spec fn first_of_type(listed: Seq<(Seq<char>, Seq<char>)>, kind: Seq<char>) -> Option<
    Seq<char>,
>
    decreases listed.len(),
{
    if listed.len() == 0 {
        None
    } else {
        match first_of_type(listed.drop_last(), kind) {
            Some(name) => Some(name),
            None => if listed.last().1 == kind {
                Some(listed.last().0)
            } else {
                None
            },
        }
    }
}

/// The types of properties by name; where a name is listed again, the later type counts.
pub open spec fn types_by_name(listed: Seq<(Seq<char>, Seq<char>)>) -> Map<Seq<char>, Seq<char>>
    decreases listed.len(),
{
    if listed.len() == 0 {
        Map::empty()
    } else {
        types_by_name(listed.drop_last()).insert(listed.last().0, listed.last().1)
    }
}

/// The names of properties by their normalized form; of several the first counts.
pub open spec fn names_by_form(listed: Seq<(Seq<char>, Seq<char>)>) -> Map<Seq<char>, Seq<char>>
    decreases listed.len(),
{
    if listed.len() == 0 {
        Map::empty()
    } else {
        let before = names_by_form(listed.drop_last());
        let form = super::naming::normalized_name(listed.last().0);
        if before.contains_key(form) {
            before
        } else {
            before.insert(form, listed.last().0)
        }
    }
}

/// Listed properties by name and type.
pub open spec fn listed_views(listed: Seq<(String, String)>) -> Seq<(Seq<char>, Seq<char>)> {
    listed.map_values(|p: (String, String)| (p.0@, p.1@))
}

/// Whether a schema is that of the listed properties.
pub open spec fn is_schema_of(
    schema: DatabaseSchema,
    listed: Seq<(Seq<char>, Seq<char>)>,
) -> bool {
    &&& schema.title_property@ == (match first_of_type(listed, "title"@) {
        Some(name) => name,
        None => "Name"@,
    })
    &&& crate::text::opt_string(schema.email_property) == first_of_type(listed, "email"@)
    &&& schema.properties@.map_values(|p: NotionProperty| p.property_type@) == types_by_name(listed)
    &&& schema.actual_names_by_normalized@.map_values(|n: String| n@) == names_by_form(listed)
}

/// The schema of a database with the listed properties, each given by name and type.
pub fn database_schema(listed: &Vec<(String, String)>) -> (r: DatabaseSchema)
    ensures
        is_schema_of(r, listed_views(listed@)),
{
    let ghost all = listed_views(listed@);
    let mut title: Option<String> = None;
    let mut email: Option<String> = None;
    let mut properties: TextMap<NotionProperty> = TextMap::new();
    let mut names: TextMap<String> = TextMap::new();
    let mut i: usize = 0;
    assert(properties@.map_values(|p: NotionProperty| p.property_type@) =~= types_by_name(
        all.take(0),
    ));
    assert(names@.map_values(|n: String| n@) =~= names_by_form(all.take(0)));
    while i < listed.len()
        invariant
            i <= listed.len(),
            all == listed_views(listed@),
            crate::text::opt_string(title) == first_of_type(all.take(i as int), "title"@),
            crate::text::opt_string(email) == first_of_type(all.take(i as int), "email"@),
            properties@.map_values(|p: NotionProperty| p.property_type@) == types_by_name(
                all.take(i as int),
            ),
            names@.map_values(|n: String| n@) == names_by_form(all.take(i as int)),
        decreases listed.len() - i,
    {
        let name = &listed[i].0;
        let kind = &listed[i].1;
        let ghost now = all.take(i + 1);
        proof {
            assert(now.drop_last() =~= all.take(i as int));
            assert(now.last() == (name@, kind@));
        }
        let form = normalize_property_name(name.as_str());
        let ghost names_before = names@;
        let ghost shown_names = names@.map_values(|n: String| n@);
        assert(names_before.contains_key(form@) == shown_names.contains_key(form@));
        if !names.contains_key(form.as_str()) {
            names.insert(form.as_str(), name.clone());
            assert(names@.map_values(|n: String| n@) =~= shown_names.insert(form@, name@));
        }
        if title.is_none() && str_eq(kind.as_str(), "title") {
            title = Some(name.clone());
        }
        if email.is_none() && str_eq(kind.as_str(), "email") {
            email = Some(name.clone());
        }
        let ghost shown = properties@.map_values(|p: NotionProperty| p.property_type@);
        properties.insert(name.as_str(), NotionProperty { property_type: kind.clone() });
        assert(properties@.map_values(|p: NotionProperty| p.property_type@) =~= shown.insert(
            name@,
            kind@,
        ));
        i = i + 1;
    }
    assert(all.take(i as int) =~= all);
    DatabaseSchema {
        title_property: match title {
            Some(name) => name,
            None => "Name".to_owned(),
        },
        email_property: email,
        properties,
        actual_names_by_normalized: names,
    }
}

/// The text of a string value without the space around it, where something is left.
pub open spec fn text_of(value: Option<JsonView>) -> Option<Seq<char>> {
    super::blocks::some_text(crate::json::as_text(value))
}

/// The text of a string value without the space around it, where something is left.
pub fn json_text(value: Option<&Json>) -> (r: Option<String>)
    ensures
        crate::text::opt_string(r) == text_of(crate::json::opt_json(value)),
{
    let given = match value {
        Some(v) => v.as_str(),
        None => None,
    };
    match nonblank(given) {
        Some(t) => Some(t.to_owned()),
        None => None,
    }
}

/// The texts among some values, each without the space around it, where something is left.
pub open spec fn texts_among(items: Seq<JsonView>) -> Seq<Seq<char>>
    decreases items.len(),
{
    if items.len() == 0 {
        Seq::empty()
    } else {
        let before = texts_among(items.drop_last());
        match text_of(Some(items.last())) {
            Some(t) => before.push(t),
            None => before,
        }
    }
}

/// The texts of a list, or the one text that stands in its place.
pub open spec fn list_of(value: Option<JsonView>) -> Seq<Seq<char>> {
    match value {
        Some(JsonView::Array(items)) => texts_among(items),
        _ => match text_of(value) {
            Some(t) => seq![t],
            None => Seq::empty(),
        },
    }
}

/// The texts of a list, or the one text that stands in its place.
pub fn json_list_values(value: Option<&Json>) -> (r: Vec<String>)
    ensures
        crate::text::strings(r@) == list_of(crate::json::opt_json(value)),
{
    let mut out: Vec<String> = Vec::new();
    assert(crate::text::strings(out@) =~= Seq::empty());
    match value {
        Some(Json::Array(items)) => {
            let ghost views = crate::json::opt_json(value)->0->Array_0;
            let mut i: usize = 0;
            assert(views.take(0) =~= Seq::empty());
            while i < items.len()
                invariant
                    i <= items.len(),
                    views.len() == items@.len(),
                    forall|j: int| 0 <= j < views.len() ==> #[trigger] views[j] == items@[j]@,
                    crate::text::strings(out@) == texts_among(views.take(i as int)),
                decreases items.len() - i,
            {
                proof {
                    assert(views.take(i + 1).drop_last() =~= views.take(i as int));
                    assert(views.take(i + 1).last() == items@[i as int]@);
                }
                let ghost before = out@;
                match json_text(Some(&items[i])) {
                    Some(t) => {
                        out.push(t);
                        assert(crate::text::strings(out@) =~= crate::text::strings(before).push(t@));
                    },
                    None => {},
                }
                i = i + 1;
            }
            assert(views.take(i as int) =~= views);
        },
        _ => match json_text(value) {
            Some(t) => {
                out.push(t);
                assert(crate::text::strings(out@) =~= seq![t@]);
            },
            None => {},
        },
    }
    out
}

/// The texts of a list in one line, each name once.
pub open spec fn list_line(value: Option<JsonView>) -> Option<Seq<char>> {
    super::blocks::combined(list_of(value))
}

/// The texts of a list in one line, each name once.
pub fn json_list_text(value: Option<&Json>) -> (r: Option<String>)
    ensures
        crate::text::opt_string(r) == list_line(crate::json::opt_json(value)),
{
    let list = json_list_values(value);
    combine_list_texts(&list)
}

/// What a property of a type is set to for a text.
pub open spec fn property_value(kind: Seq<char>, value: Seq<char>) -> JsonView {
    if kind == "url"@ && super::blocks::is_web_address(value) {
        JsonView::Object(seq![("url"@, JsonView::Str(value))])
    } else if kind == "email"@ && value.contains('@') {
        JsonView::Object(seq![("email"@, JsonView::Str(value))])
    } else if kind == "date"@ {
        JsonView::Object(
            seq![("date"@, JsonView::Object(seq![("start"@, JsonView::Str(value))]))],
        )
    } else if kind == "status"@ {
        JsonView::Object(
            seq![("status"@, JsonView::Object(seq![("name"@, JsonView::Str(value))]))],
        )
    } else {
        JsonView::Object(
            seq![
                (
                    "rich_text"@,
                    JsonView::Array(seq![content_value(value)]),
                ),
            ],
        )
    }
}

/// A text as the content of a property.
pub open spec fn content_value(value: Seq<char>) -> JsonView {
    JsonView::Object(
        seq![("text"@, JsonView::Object(seq![("content"@, JsonView::Str(value))]))],
    )
}

fn content_json(value: &str) -> (r: Json)
    ensures
        r@ == content_value(value@),
{
    object1("text", object1("content", text(value)))
}

fn property_json(kind: &str, value: &str) -> (r: Json)
    ensures
        r@ == property_value(kind@, value@),
{
    if str_eq(kind, "url") && web_address(value) {
        object1("url", text(value))
    } else if str_eq(kind, "email") && contains_char(value, '@') {
        object1("email", text(value))
    } else if str_eq(kind, "date") {
        object1("date", object1("start", text(value)))
    } else if str_eq(kind, "status") {
        object1("status", object1("name", text(value)))
    } else {
        object1("rich_text", array_of(content_json(value)))
    }
}

/// Updates with a text for the first of the named properties, where both are there.
pub open spec fn with_text(
    schema: DatabaseSchema,
    updates: Seq<(Seq<char>, JsonView)>,
    names: Seq<Seq<char>>,
    value: Option<Seq<char>>,
) -> Seq<(Seq<char>, JsonView)> {
    match (value, first_property(schema, names)) {
        (Some(t), Some((name, kind))) => if crate::text::blank(t) {
            updates
        } else {
            crate::json::set_member(updates, name, property_value(kind, t))
        },
        _ => updates,
    }
}

fn add_text(
    schema: &DatabaseSchema,
    updates: &mut Vec<(String, Json)>,
    names: Vec<String>,
    value: Option<String>,
)
    ensures
        crate::json::member_views(final(updates)@) == with_text(
            *schema,
            crate::json::member_views(old(updates)@),
            crate::text::strings(names@),
            crate::text::opt_string(value),
        ),
{
    match value {
        Some(t) => {
            if !is_blank(t.as_str()) {
                match schema.resolve_property(&names) {
                    Some((name, property)) => {
                        put_member(
                            updates,
                            name,
                            property_json(property.property_type.as_str(), t.as_str()),
                        );
                    },
                    None => {},
                }
            }
        },
        None => {},
    }
}

/// Updates with a mark for the first of the named properties, where it takes marks.
pub open spec fn with_mark(
    schema: DatabaseSchema,
    updates: Seq<(Seq<char>, JsonView)>,
    names: Seq<Seq<char>>,
    value: Option<bool>,
) -> Seq<(Seq<char>, JsonView)> {
    match (value, first_property(schema, names)) {
        (Some(b), Some((name, kind))) => if kind == "checkbox"@ {
            crate::json::set_member(
                updates,
                name,
                JsonView::Object(seq![("checkbox"@, JsonView::Bool(b))]),
            )
        } else {
            updates
        },
        _ => updates,
    }
}

fn add_mark(
    schema: &DatabaseSchema,
    updates: &mut Vec<(String, Json)>,
    names: Vec<String>,
    value: Option<bool>,
)
    ensures
        crate::json::member_views(final(updates)@) == with_mark(
            *schema,
            crate::json::member_views(old(updates)@),
            crate::text::strings(names@),
            value,
        ),
{
    match value {
        Some(b) => match schema.resolve_property(&names) {
            Some((name, property)) => {
                if str_eq(property.property_type.as_str(), "checkbox") {
                    put_member(updates, name, object1("checkbox", boolean(b)));
                }
            },
            None => {},
        },
        None => {},
    }
}

fn names1(a: &str) -> (r: Vec<String>)
    ensures
        crate::text::strings(r@) == seq![a@],
{
    let r = vec![a.to_owned()];
    assert(crate::text::strings(r@) =~= seq![a@]);
    r
}

fn names2(a: &str, b: &str) -> (r: Vec<String>)
    ensures
        crate::text::strings(r@) == seq![a@, b@],
{
    let r = vec![a.to_owned(), b.to_owned()];
    assert(crate::text::strings(r@) =~= seq![a@, b@]);
    r
}

fn names3(a: &str, b: &str, c: &str) -> (r: Vec<String>)
    ensures
        crate::text::strings(r@) == seq![a@, b@, c@],
{
    let r = vec![a.to_owned(), b.to_owned(), c.to_owned()];
    assert(crate::text::strings(r@) =~= seq![a@, b@, c@]);
    r
}

fn names4(a: &str, b: &str, c: &str, d: &str) -> (r: Vec<String>)
    ensures
        crate::text::strings(r@) == seq![a@, b@, c@, d@],
{
    let r = vec![a.to_owned(), b.to_owned(), c.to_owned(), d.to_owned()];
    assert(crate::text::strings(r@) =~= seq![a@, b@, c@, d@]);
    r
}

/// A member of an optional value.
pub open spec fn part(value: Option<JsonView>, key: Seq<char>) -> Option<JsonView> {
    match value {
        Some(v) => crate::json::member(v, key),
        None => None,
    }
}

fn part_of<'a>(value: Option<&'a Json>, key: &str) -> (r: Option<&'a Json>)
    ensures
        crate::json::opt_json(r) == part(crate::json::opt_json(value), key@),
{
    match value {
        Some(v) => v.get(key),
        None => None,
    }
}

fn owned(value: Option<&Json>) -> (r: Option<String>)
    ensures
        crate::text::opt_string(r) == crate::json::as_text(crate::json::opt_json(value)),
{
    match value {
        Some(v) => match v.as_str() {
            Some(t) => Some(t.to_owned()),
            None => None,
        },
        None => None,
    }
}

/// What the record keeper noted beside a profile.
pub open spec fn metadata(payload: JsonView, field: Seq<char>) -> Option<JsonView> {
    part(crate::json::member(payload, "_lethe"@), field)
}

/// A text that the record keeper noted.
pub fn metadata_value(payload: &Json, field: &str) -> (r: Option<String>)
    ensures
        crate::text::opt_string(r) == crate::json::as_text(metadata(payload@, field@)),
{
    owned(part_of(payload.get("_lethe"), field))
}

/// A mark that the record keeper noted.
pub fn metadata_bool(payload: &Json, field: &str) -> (r: Option<bool>)
    ensures
        r == (match metadata(payload@, field@) {
            Some(JsonView::Bool(b)) => Some(b),
            _ => None,
        }),
{
    match part_of(payload.get("_lethe"), field) {
        Some(Json::Bool(b)) => Some(*b),
        _ => None,
    }
}

/// What a profile says of an attribute of the catalog.
pub open spec fn catalog_value(id: Seq<char>, payload: JsonView) -> Option<Seq<char>> {
    let props = crate::json::member(payload, "properties"@);
    if id == "mbti"@ {
        text_of(part(props, "MBTI"@))
    } else if id == "sns"@ {
        text_of(part(props, "SNS"@))
    } else if id == "カレッジで挑戦したいこと"@ {
        text_of(part(props, "New Challenges"@))
    } else if id == "カレッジ生に聞いてみたいこと"@ {
        text_of(part(props, "Ask Me About"@))
    } else if id == "ハッシュタグ"@ {
        list_line(part(props, "Hashtags"@))
    } else if id == "その他"@ {
        list_line(crate::json::member(payload, "attributes"@))
    } else if id == "一言"@ {
        text_of(part(props, "Message"@))
    } else if id == "人生の転換期"@ {
        text_of(part(props, "Turning Point"@))
    } else if id == "余談"@ {
        text_of(part(props, "BTW"@))
    } else if id == "出身地"@ {
        text_of(part(props, "Birthplace"@))
    } else if id == "呼ばれたい名前"@ {
        text_of(part(props, "Nickname"@))
    } else if id == "好きなもの"@ {
        list_line(part(props, "Likes"@))
    } else if id == "嫌いなもの"@ {
        text_of(part(props, "Dislikes"@))
    } else if id == "専攻-興味分野"@ {
        super::blocks::combined(list_of(part(props, "Major"@)) + list_of(part(props, "Interests"@)))
    } else if id == "所属"@ {
        text_of(part(props, "Affiliation"@))
    } else if id == "氏名"@ {
        crate::json::as_text(crate::json::member(payload, "name"@))
    } else if id == "生年月日"@ {
        text_of(part(props, "DoB"@))
    } else if id == "趣味-特技"@ {
        list_line(part(props, "Hobbies"@))
    } else {
        None
    }
}

/// What a profile says of an attribute of the catalog.
pub fn catalog_attribute_value(attribute: &AttributeAliasDefinition, payload: &Json) -> (r: Option<
    String,
>)
    ensures
        crate::text::opt_string(r) == catalog_value(attribute@.id, payload@),
{
    let id = attribute.id.as_str();
    let props = payload.get("properties");
    if str_eq(id, "mbti") {
        json_text(part_of(props, "MBTI"))
    } else if str_eq(id, "sns") {
        json_text(part_of(props, "SNS"))
    } else if str_eq(id, "カレッジで挑戦したいこと") {
        json_text(part_of(props, "New Challenges"))
    } else if str_eq(id, "カレッジ生に聞いてみたいこと") {
        json_text(part_of(props, "Ask Me About"))
    } else if str_eq(id, "ハッシュタグ") {
        json_list_text(part_of(props, "Hashtags"))
    } else if str_eq(id, "その他") {
        json_list_text(payload.get("attributes"))
    } else if str_eq(id, "一言") {
        json_text(part_of(props, "Message"))
    } else if str_eq(id, "人生の転換期") {
        json_text(part_of(props, "Turning Point"))
    } else if str_eq(id, "余談") {
        json_text(part_of(props, "BTW"))
    } else if str_eq(id, "出身地") {
        json_text(part_of(props, "Birthplace"))
    } else if str_eq(id, "呼ばれたい名前") {
        json_text(part_of(props, "Nickname"))
    } else if str_eq(id, "好きなもの") {
        json_list_text(part_of(props, "Likes"))
    } else if str_eq(id, "嫌いなもの") {
        json_text(part_of(props, "Dislikes"))
    } else if str_eq(id, "専攻-興味分野") {
        let mut both = json_list_values(part_of(props, "Major"));
        let ghost majors = both@;
        let mut interests = json_list_values(part_of(props, "Interests"));
        let ghost more = interests@;
        both.append(&mut interests);
        assert(crate::text::strings(both@) =~= crate::text::strings(majors) + crate::text::strings(
            more,
        ));
        combine_list_texts(&both)
    } else if str_eq(id, "所属") {
        json_text(part_of(props, "Affiliation"))
    } else if str_eq(id, "氏名") {
        owned(payload.get("name"))
    } else if str_eq(id, "生年月日") {
        json_text(part_of(props, "DoB"))
    } else if str_eq(id, "趣味-特技") {
        json_list_text(part_of(props, "Hobbies"))
    } else {
        None
    }
}

/// The names that an attribute of the catalog goes by, its own before its aliases.
pub open spec fn catalog_names(attribute: AliasView) -> Seq<Seq<char>> {
    super::naming::once_by_name(seq![attribute.name, attribute.id] + attribute.aliases)
}

/// The names that an attribute of the catalog goes by, its own before its aliases.
pub fn catalog_property_candidates(attribute: &AttributeAliasDefinition) -> (r: Vec<String>)
    ensures
        crate::text::strings(r@) == catalog_names(attribute@),
{
    let mut all = names2(attribute.display_name.as_str(), attribute.id.as_str());
    let mut i: usize = 0;
    assert(attribute@.aliases.take(0) =~= Seq::empty());
    assert(crate::text::strings(all@) =~= seq![attribute@.name, attribute@.id]
        + attribute@.aliases.take(0));
    while i < attribute.aliases.len()
        invariant
            i <= attribute.aliases.len(),
            crate::text::strings(all@) == seq![attribute@.name, attribute@.id]
                + attribute@.aliases.take(i as int),
        decreases attribute.aliases.len() - i,
    {
        let ghost before = all@;
        all.push(attribute.aliases[i].clone());
        proof {
            assert(crate::text::strings(all@) =~= crate::text::strings(before).push(
                attribute.aliases@[i as int]@,
            ));
            assert(attribute@.aliases.take(i + 1) =~= attribute@.aliases.take(i as int).push(
                attribute.aliases@[i as int]@,
            ));
            assert(crate::text::strings(all@) =~= seq![attribute@.name, attribute@.id]
                + attribute@.aliases.take(i + 1));
        }
        i = i + 1;
    }
    assert(attribute@.aliases.take(i as int) =~= attribute@.aliases);
    keep_once_by_name(&all)
}

/// Updates with what a profile says of the attributes of the catalog.
pub open spec fn with_catalog(
    schema: DatabaseSchema,
    updates: Seq<(Seq<char>, JsonView)>,
    attributes: Seq<AliasView>,
    payload: JsonView,
) -> Seq<(Seq<char>, JsonView)>
    decreases attributes.len(),
{
    if attributes.len() == 0 {
        updates
    } else {
        let attribute = attributes.last();
        with_text(
            schema,
            with_catalog(schema, updates, attributes.drop_last(), payload),
            catalog_names(attribute),
            catalog_value(attribute.id, payload),
        )
    }
}

/// The attributes of an optional catalog.
pub open spec fn catalog_attributes(catalog: Option<&AttributeAliasCatalog>) -> Seq<AliasView> {
    match catalog {
        Some(c) => crate::attribute_inventory::alias_views(c.attributes@),
        None => Seq::empty(),
    }
}

fn add_catalog(
    schema: &DatabaseSchema,
    updates: &mut Vec<(String, Json)>,
    catalog: Option<&AttributeAliasCatalog>,
    payload: &Json,
)
    ensures
        crate::json::member_views(final(updates)@) == with_catalog(
            *schema,
            crate::json::member_views(old(updates)@),
            catalog_attributes(catalog),
            payload@,
        ),
{
    match catalog {
        Some(c) => {
            let ghost given = crate::json::member_views(updates@);
            let ghost all = crate::attribute_inventory::alias_views(c.attributes@);
            let mut i: usize = 0;
            while i < c.attributes.len()
                invariant
                    i <= c.attributes.len(),
                    all == crate::attribute_inventory::alias_views(c.attributes@),
                    crate::json::member_views(updates@) == with_catalog(
                        *schema,
                        given,
                        all.take(i as int),
                        payload@,
                    ),
                decreases c.attributes.len() - i,
            {
                let attribute = &c.attributes[i];
                proof {
                    assert(all.take(i + 1).drop_last() =~= all.take(i as int));
                    assert(all.take(i + 1).last() == attribute@);
                }
                let value = catalog_attribute_value(attribute, payload);
                let names = catalog_property_candidates(attribute);
                add_text(schema, updates, names, value);
                i = i + 1;
            }
            assert(all.take(i as int) =~= all);
        },
        None => {},
    }
}

/// Updates that name the page and set the address that it is found by.
pub open spec fn identity_updates(
    schema: DatabaseSchema,
    title: Seq<char>,
    payload: JsonView,
) -> Seq<(Seq<char>, JsonView)> {
    let named = if crate::text::blank(title) {
        Seq::empty()
    } else {
        crate::json::set_member(
            Seq::empty(),
            schema.title_property@,
            JsonView::Object(
                seq![
                    (
                        "title"@,
                        JsonView::Array(seq![content_value(crate::text::trimmed(title))]),
                    ),
                ],
            ),
        )
    };
    match (schema.email_property, page_email(payload)) {
        (Some(property), Some(email)) => crate::json::set_member(
            named,
            property@,
            JsonView::Object(seq![("email"@, JsonView::Str(email))]),
        ),
        _ => named,
    }
}

/// The address in a profile, or the one that was made up for it.
pub open spec fn page_email(payload: JsonView) -> Option<Seq<char>> {
    super::blocks::some_text(
        match crate::json::as_text(crate::json::member(payload, "email"@)) {
            Some(email) => Some(email),
            None => crate::json::as_text(crate::json::member(payload, "generated_email"@)),
        },
    )
}

/// Updates with the facts of a profile, each for the property that takes it.
pub open spec fn profile_updates(
    schema: DatabaseSchema,
    updates: Seq<(Seq<char>, JsonView)>,
    payload: JsonView,
) -> Seq<(Seq<char>, JsonView)> {
    let p = crate::json::member(payload, "properties"@);
    let tags = list_line(part(p, "Hashtags"@));
    let major = crate::json::as_text(part(p, "Major"@));
    let u1 = with_text(
        schema,
        updates,
        seq!["Birthplace"@, "出身地"@],
        text_of(part(p, "Birthplace"@)),
    );
    let u2 = with_text(schema, u1, seq!["DoB"@, "生年月日"@], text_of(part(p, "DoB"@)));
    let u3 = with_text(
        schema,
        u2,
        seq!["Hashtag"@, "Hashtags"@, "ハッシュタグ"@, "私を表すハッシュタグ"@],
        tags,
    );
    let u4 = with_text(
        schema,
        u3,
        seq!["Hashtags"@, "Hashtag"@, "ハッシュタグ"@, "私を表すハッシュタグ"@],
        tags,
    );
    let u5 = with_text(
        schema,
        u4,
        seq!["Major_Interests"@, "Major_interests"@, "専攻・興味分野"@, "専攻-興味分野"@],
        major,
    );
    let u6 = with_text(schema, u5, seq!["Major"@, "専攻"@, "専攻分野"@], major);
    let u7 = with_text(
        schema,
        u6,
        seq!["Nickname"@, "呼ばれたい名前"@, "あだ名"@, "通称"@],
        text_of(part(p, "Nickname"@)),
    );
    let u8 = with_text(
        schema,
        u7,
        seq!["Affiliation"@, "所属"@, "所属組織"@],
        text_of(part(p, "Affiliation"@)),
    );
    let u9 = with_text(schema, u8, seq!["MBTI"@], text_of(part(p, "MBTI"@)));
    let u10 = with_text(schema, u9, seq!["SNS"@], text_of(part(p, "SNS"@)));
    let u11 = with_text(
        schema,
        u10,
        seq!["Dislikes"@, "嫌いなもの"@, "嫌いなもの/こと"@, "苦手なもの"@],
        text_of(part(p, "Dislikes"@)),
    );
    let u12 = with_text(
        schema,
        u11,
        seq!["New Challenges"@, "カレッジで挑戦したいこと"@],
        text_of(part(p, "New Challenges"@)),
    );
    let u13 = with_text(
        schema,
        u12,
        seq!["Ask Me About"@, "カレッジ生に聞いてみたいこと"@],
        text_of(part(p, "Ask Me About"@)),
    );
    let u14 = with_text(
        schema,
        u13,
        seq!["Turning Point"@, "人生の転換期"@],
        text_of(part(p, "Turning Point"@)),
    );
    let u15 = with_text(
        schema,
        u14,
        seq!["BTW"@, "余談"@, "これ、余談なんですけど"@, "どうでもいいこと"@],
        text_of(part(p, "BTW"@)),
    );
    let u16 = with_text(
        schema,
        u15,
        seq!["Message"@, "一言"@, "ひとこと"@],
        text_of(part(p, "Message"@)),
    );
    let u17 = with_text(
        schema,
        u16,
        seq!["Hobbies"@, "趣味・特技"@, "趣味"@, "特技"@],
        list_line(part(p, "Hobbies"@)),
    );
    let u18 = with_text(
        schema,
        u17,
        seq!["Interests"@, "興味分野"@, "関心"@, "興味のあること"@],
        list_line(part(p, "Interests"@)),
    );
    with_text(
        schema,
        u18,
        seq!["Likes"@, "好きなもの"@, "好きなこと"@, "好きなもの/こと"@],
        list_line(part(p, "Likes"@)),
    )
}

/// Updates with the texts that the record keeper noted.
pub open spec fn metadata_texts(
    schema: DatabaseSchema,
    updates: Seq<(Seq<char>, JsonView)>,
    payload: JsonView,
) -> Seq<(Seq<char>, JsonView)> {
    let u1 = with_text(
        schema,
        updates,
        seq!["LETHE Person ID"@],
        crate::json::as_text(metadata(payload, "person_id"@)),
    );
    let u2 = with_text(
        schema,
        u1,
        seq!["Source Slide URL"@],
        match crate::json::as_text(metadata(payload, "source_slide_url"@)) {
            Some(url) => Some(url),
            None => crate::json::as_text(crate::json::member(payload, "source_canonical_uri"@)),
        },
    );
    let u3 = with_text(
        schema,
        u2,
        seq!["Last Synced At"@],
        crate::json::as_text(metadata(payload, "last_synced_at"@)),
    );
    let u4 = with_text(
        schema,
        u3,
        seq!["Projection Version"@],
        crate::json::as_text(metadata(payload, "projection_version"@)),
    );
    with_text(
        schema,
        u4,
        seq!["Status"@],
        crate::json::as_text(metadata(payload, "status"@)),
    )
}

/// Updates with what the record keeper noted.
pub open spec fn metadata_updates(
    schema: DatabaseSchema,
    updates: Seq<(Seq<char>, JsonView)>,
    payload: JsonView,
) -> Seq<(Seq<char>, JsonView)> {
    with_mark(
        schema,
        metadata_texts(schema, updates, payload),
        seq!["Visibility"@],
        match metadata(payload, "visibility"@) {
            Some(JsonView::Bool(b)) => Some(b),
            _ => None,
        },
    )
}

/// The property updates of a page.
pub open spec fn property_updates(
    schema: DatabaseSchema,
    attributes: Seq<AliasView>,
    title: Seq<char>,
    payload: JsonView,
) -> Seq<(Seq<char>, JsonView)> {
    let u1 = identity_updates(schema, title, payload);
    let u2 = profile_updates(schema, u1, payload);
    let u3 = with_catalog(schema, u2, attributes, payload);
    metadata_updates(schema, u3, payload)
}

fn add_identity(
    schema: &DatabaseSchema,
    updates: &mut Vec<(String, Json)>,
    title: &str,
    payload: &Json,
)
    requires
        old(updates)@.len() == 0,
    ensures
        crate::json::member_views(final(updates)@) == identity_updates(*schema, title@, payload@),
{
    assert(crate::json::member_views(updates@) =~= Seq::empty());
    proof {
        crate::text::blank_trims_to_nothing(title@);
    }
    if !is_blank(title) {
        put_member(
            updates,
            schema.title_property.as_str(),
            object1("title", array_of(content_json(trim(title)))),
        );
    }
    match &schema.email_property {
        Some(property) => {
            let given = match payload.get_str("email") {
                Some(email) => Some(email),
                None => payload.get_str("generated_email"),
            };
            match nonblank(given) {
                Some(email) => {
                    put_member(updates, property.as_str(), object1("email", text(email)));
                },
                None => {},
            }
        },
        None => {},
    }
}

fn add_profile(schema: &DatabaseSchema, updates: &mut Vec<(String, Json)>, payload: &Json)
    ensures
        crate::json::member_views(final(updates)@) == profile_updates(
            *schema,
            crate::json::member_views(old(updates)@),
            payload@,
        ),
{
    let p = payload.get("properties");
    add_text(schema, updates, names2("Birthplace", "出身地"), json_text(part_of(p, "Birthplace")));
    add_text(schema, updates, names2("DoB", "生年月日"), json_text(part_of(p, "DoB")));
    add_text(
        schema,
        updates,
        names4("Hashtag", "Hashtags", "ハッシュタグ", "私を表すハッシュタグ"),
        json_list_text(part_of(p, "Hashtags")),
    );
    add_text(
        schema,
        updates,
        names4("Hashtags", "Hashtag", "ハッシュタグ", "私を表すハッシュタグ"),
        json_list_text(part_of(p, "Hashtags")),
    );
    add_text(
        schema,
        updates,
        names4("Major_Interests", "Major_interests", "専攻・興味分野", "専攻-興味分野"),
        owned(part_of(p, "Major")),
    );
    add_text(schema, updates, names3("Major", "専攻", "専攻分野"), owned(part_of(p, "Major")));
    add_text(
        schema,
        updates,
        names4("Nickname", "呼ばれたい名前", "あだ名", "通称"),
        json_text(part_of(p, "Nickname")),
    );
    add_text(
        schema,
        updates,
        names3("Affiliation", "所属", "所属組織"),
        json_text(part_of(p, "Affiliation")),
    );
    add_text(schema, updates, names1("MBTI"), json_text(part_of(p, "MBTI")));
    add_text(schema, updates, names1("SNS"), json_text(part_of(p, "SNS")));
    add_text(
        schema,
        updates,
        names4("Dislikes", "嫌いなもの", "嫌いなもの/こと", "苦手なもの"),
        json_text(part_of(p, "Dislikes")),
    );
    add_text(
        schema,
        updates,
        names2("New Challenges", "カレッジで挑戦したいこと"),
        json_text(part_of(p, "New Challenges")),
    );
    add_text(
        schema,
        updates,
        names2("Ask Me About", "カレッジ生に聞いてみたいこと"),
        json_text(part_of(p, "Ask Me About")),
    );
    add_text(
        schema,
        updates,
        names2("Turning Point", "人生の転換期"),
        json_text(part_of(p, "Turning Point")),
    );
    add_text(
        schema,
        updates,
        names4("BTW", "余談", "これ、余談なんですけど", "どうでもいいこと"),
        json_text(part_of(p, "BTW")),
    );
    add_text(
        schema,
        updates,
        names3("Message", "一言", "ひとこと"),
        json_text(part_of(p, "Message")),
    );
    add_text(
        schema,
        updates,
        names4("Hobbies", "趣味・特技", "趣味", "特技"),
        json_list_text(part_of(p, "Hobbies")),
    );
    add_text(
        schema,
        updates,
        names4("Interests", "興味分野", "関心", "興味のあること"),
        json_list_text(part_of(p, "Interests")),
    );
    add_text(
        schema,
        updates,
        names4("Likes", "好きなもの", "好きなこと", "好きなもの/こと"),
        json_list_text(part_of(p, "Likes")),
    );
}

fn add_metadata(schema: &DatabaseSchema, updates: &mut Vec<(String, Json)>, payload: &Json)
    ensures
        crate::json::member_views(final(updates)@) == metadata_updates(
            *schema,
            crate::json::member_views(old(updates)@),
            payload@,
        ),
{
    add_text(
        schema,
        updates,
        names1("LETHE Person ID"),
        metadata_value(payload, "person_id"),
    );
    let url = match metadata_value(payload, "source_slide_url") {
        Some(url) => Some(url),
        None => owned(payload.get("source_canonical_uri")),
    };
    add_text(schema, updates, names1("Source Slide URL"), url);
    add_text(
        schema,
        updates,
        names1("Last Synced At"),
        metadata_value(payload, "last_synced_at"),
    );
    add_text(
        schema,
        updates,
        names1("Projection Version"),
        metadata_value(payload, "projection_version"),
    );
    add_text(schema, updates, names1("Status"), metadata_value(payload, "status"));
    add_mark(schema, updates, names1("Visibility"), metadata_bool(payload, "visibility"));
}

/// The property updates of a page for a profile, with the attributes of a catalog where there is
/// one.
pub fn build_property_updates(
    schema: &DatabaseSchema,
    catalog: Option<&AttributeAliasCatalog>,
    title: &str,
    payload: &Json,
) -> (r: Json)
    ensures
        r@ == JsonView::Object(
            property_updates(*schema, catalog_attributes(catalog), title@, payload@),
        ),
{
    let mut updates: Vec<(String, Json)> = Vec::new();
    add_identity(schema, &mut updates, title, payload);
    add_profile(schema, &mut updates, payload);
    add_catalog(schema, &mut updates, catalog, payload);
    add_metadata(schema, &mut updates, payload);
    crate::json::object(updates)
}

/// Whether each update is for the title, for the address, or for a property of the database.
pub open spec fn all_known(schema: DatabaseSchema, updates: Seq<(Seq<char>, JsonView)>) -> bool {
    forall|i: int|
        0 <= i < updates.len() ==> {
            let name = (#[trigger] updates[i]).0;
            ||| name == schema.title_property@
            ||| crate::text::opt_string(schema.email_property) == Some(name)
            ||| schema.properties@.contains_key(name)
        }
}

proof fn found_properties_are_known(schema: DatabaseSchema, names: Seq<Seq<char>>)
    ensures
        first_property(schema, names) matches Some((name, _)) ==> schema.properties@.contains_key(
            name,
        ),
    decreases names.len(),
{
    if names.len() > 0 && property_named(schema, names[0]) is None {
        found_properties_are_known(schema, names.drop_first());
    }
}

proof fn set_stays_known(
    schema: DatabaseSchema,
    updates: Seq<(Seq<char>, JsonView)>,
    name: Seq<char>,
    value: JsonView,
)
    requires
        all_known(schema, updates),
        name == schema.title_property@ || crate::text::opt_string(schema.email_property) == Some(
            name,
        ) || schema.properties@.contains_key(name),
    ensures
        all_known(schema, crate::json::set_member(updates, name, value)),
{
    crate::json::member_index_in_range(updates, name);
}

proof fn text_stays_known(schema: DatabaseSchema)
    ensures
        forall|updates: Seq<(Seq<char>, JsonView)>, names: Seq<Seq<char>>, value: Option<Seq<char>>|
            all_known(schema, updates) ==> all_known(
                schema,
                #[trigger] with_text(schema, updates, names, value),
            ),
{
    assert forall|
        updates: Seq<(Seq<char>, JsonView)>,
        names: Seq<Seq<char>>,
        value: Option<Seq<char>>,
    | all_known(schema, updates) implies all_known(
        schema,
        #[trigger] with_text(schema, updates, names, value),
    ) by {
        found_properties_are_known(schema, names);
        match (value, first_property(schema, names)) {
            (Some(t), Some((name, kind))) => {
                set_stays_known(schema, updates, name, property_value(kind, t));
            },
            _ => {},
        }
    }
}

proof fn catalog_stays_known(
    schema: DatabaseSchema,
    updates: Seq<(Seq<char>, JsonView)>,
    attributes: Seq<AliasView>,
    payload: JsonView,
)
    requires
        all_known(schema, updates),
    ensures
        all_known(schema, with_catalog(schema, updates, attributes, payload)),
    decreases attributes.len(),
{
    text_stays_known(schema);
    if attributes.len() > 0 {
        catalog_stays_known(schema, updates, attributes.drop_last(), payload);
    }
}

/// Whatever a profile and a catalog say, only the title, the address and properties that the
/// database has are set.
pub proof fn updates_name_known_properties(
    schema: DatabaseSchema,
    attributes: Seq<AliasView>,
    title: Seq<char>,
    payload: JsonView,
)
    ensures
        all_known(schema, property_updates(schema, attributes, title, payload)),
{
    text_stays_known(schema);
    let none: Seq<(Seq<char>, JsonView)> = Seq::empty();
    let titled = JsonView::Object(
        seq![("title"@, JsonView::Array(seq![content_value(crate::text::trimmed(title))]))],
    );
    set_stays_known(schema, none, schema.title_property@, titled);
    let named = if crate::text::blank(title) {
        none
    } else {
        crate::json::set_member(none, schema.title_property@, titled)
    };
    match (schema.email_property, page_email(payload)) {
        (Some(property), Some(email)) => {
            set_stays_known(
                schema,
                named,
                property@,
                JsonView::Object(seq![("email"@, JsonView::Str(email))]),
            );
        },
        _ => {},
    }
    let u1 = identity_updates(schema, title, payload);
    assert(all_known(schema, u1));
    let u2 = profile_updates(schema, u1, payload);
    assert(all_known(schema, u2));
    catalog_stays_known(schema, u2, attributes, payload);
    let u3 = with_catalog(schema, u2, attributes, payload);
    found_properties_are_known(schema, seq!["Visibility"@]);
    let before = metadata_texts(schema, u3, payload);
    assert(all_known(schema, before));
    match (metadata(payload, "visibility"@), first_property(schema, seq!["Visibility"@])) {
        (Some(JsonView::Bool(b)), Some((name, _))) => {
            set_stays_known(
                schema,
                before,
                name,
                JsonView::Object(seq![("checkbox"@, JsonView::Bool(b))]),
            );
        },
        _ => {},
    }
}

} // verus!
