//! Which property of a page takes which part of a profile.

use vstd::prelude::*;
use vstd::string::*;

use crate::attribute_inventory::AliasView;
use crate::json::JsonView;

use super::properties::{DatabaseSchema, NotionProperty};

verus! {

/// The facts of a profile: under which names each is looked for in a database, and what it says.
pub open spec fn facts(payload: JsonView) -> Seq<(Seq<Seq<char>>, Option<Seq<char>>)> {
    let p = crate::json::member(payload, "properties"@);
    let tags = super::properties::list_line(super::properties::part(p, "Hashtags"@));
    let major = crate::json::as_text(super::properties::part(p, "Major"@));
    seq![
        (seq!["Birthplace"@, "出身地"@], said(p, "Birthplace"@)),
        (seq!["DoB"@, "生年月日"@], said(p, "DoB"@)),
        (seq!["Hashtag"@, "Hashtags"@, "ハッシュタグ"@, "私を表すハッシュタグ"@], tags),
        (seq!["Hashtags"@, "Hashtag"@, "ハッシュタグ"@, "私を表すハッシュタグ"@], tags),
        (seq!["Major_Interests"@, "Major_interests"@, "専攻・興味分野"@, "専攻-興味分野"@], major),
        (seq!["Major"@, "専攻"@, "専攻分野"@], major),
        (seq!["Nickname"@, "呼ばれたい名前"@, "あだ名"@, "通称"@], said(p, "Nickname"@)),
        (seq!["Affiliation"@, "所属"@, "所属組織"@], said(p, "Affiliation"@)),
        (seq!["MBTI"@], said(p, "MBTI"@)),
        (seq!["SNS"@], said(p, "SNS"@)),
        (seq!["Dislikes"@, "嫌いなもの"@, "嫌いなもの/こと"@, "苦手なもの"@], said(p, "Dislikes"@)),
        (seq!["New Challenges"@, "カレッジで挑戦したいこと"@], said(p, "New Challenges"@)),
        (seq!["Ask Me About"@, "カレッジ生に聞いてみたいこと"@], said(p, "Ask Me About"@)),
        (seq!["Turning Point"@, "人生の転換期"@], said(p, "Turning Point"@)),
        (seq!["BTW"@, "余談"@, "これ、余談なんですけど"@, "どうでもいいこと"@], said(p, "BTW"@)),
        (seq!["Message"@, "一言"@, "ひとこと"@], said(p, "Message"@)),
        (seq!["Hobbies"@, "趣味・特技"@, "趣味"@, "特技"@], listed(p, "Hobbies"@)),
        (seq!["Interests"@, "興味分野"@, "関心"@, "興味のあること"@], listed(p, "Interests"@)),
        (seq!["Likes"@, "好きなもの"@, "好きなこと"@, "好きなもの/こと"@], listed(p, "Likes"@)),
    ]
}

/// What a field of a profile says, without the space around it.
pub open spec fn said(properties: Option<JsonView>, field: Seq<char>) -> Option<Seq<char>> {
    match properties {
        Some(p) => match crate::json::member(p, field) {
            Some(JsonView::Str(t)) => if crate::text::trimmed(t).len() > 0 {
                Some(crate::text::trimmed(t))
            } else {
                None
            },
            _ => None,
        },
        None => None,
    }
}

/// What a list of a profile says, in one line.
pub open spec fn listed(properties: Option<JsonView>, field: Seq<char>) -> Option<Seq<char>> {
    super::properties::list_line(
        match properties {
            Some(p) => crate::json::member(p, field),
            None => None,
        },
    )
}

/// What the record keeper noted: under which name each note is looked for, and what it says.
pub open spec fn notes(payload: JsonView) -> Seq<(Seq<Seq<char>>, Option<Seq<char>>)> {
    seq![
        (seq!["LETHE Person ID"@], noted(payload, "person_id"@)),
        (
            seq!["Source Slide URL"@],
            if noted(payload, "source_slide_url"@) is Some {
                noted(payload, "source_slide_url"@)
            } else {
                crate::json::as_text(crate::json::member(payload, "source_canonical_uri"@))
            },
        ),
        (seq!["Last Synced At"@], noted(payload, "last_synced_at"@)),
        (seq!["Projection Version"@], noted(payload, "projection_version"@)),
        (seq!["Status"@], noted(payload, "status"@)),
    ]
}

/// A text that the record keeper noted.
pub open spec fn noted(payload: JsonView, field: Seq<char>) -> Option<Seq<char>> {
    match crate::json::member(payload, "_lethe"@) {
        Some(beside) => crate::json::as_text(crate::json::member(beside, field)),
        None => None,
    }
}

/// The property that the first of some names leads to.
pub open spec fn name_at(schema: DatabaseSchema, names: Seq<Seq<char>>) -> Seq<char> {
    match super::properties::first_property(schema, names) {
        Some((name, _)) => name,
        None => Seq::empty(),
    }
}

/// The type of the property that the first of some names leads to.
pub open spec fn type_at(schema: DatabaseSchema, names: Seq<Seq<char>>) -> Seq<char> {
    match super::properties::first_property(schema, names) {
        Some((_, kind)) => kind,
        None => Seq::empty(),
    }
}

/// Whether a fact sets a property: it says something and its names lead there.
pub open spec fn sets(
    schema: DatabaseSchema,
    fact: (Seq<Seq<char>>, Option<Seq<char>>),
    property: Seq<char>,
) -> bool {
    &&& fact.1 is Some && !crate::text::blank(fact.1->0)
    &&& super::properties::first_property(schema, fact.0) is Some
    &&& name_at(schema, fact.0) == property
}

/// Updates with the first facts of a list.
spec fn with_facts(
    schema: DatabaseSchema,
    updates: Seq<(Seq<char>, JsonView)>,
    list: Seq<(Seq<Seq<char>>, Option<Seq<char>>)>,
    n: nat,
) -> Seq<(Seq<char>, JsonView)>
    decreases n,
{
    if n == 0 {
        updates
    } else {
        super::properties::with_text(
            schema,
            with_facts(schema, updates, list, (n - 1) as nat),
            list[n - 1].0,
            list[n - 1].1,
        )
    }
}

proof fn text_sets(
    schema: DatabaseSchema,
    updates: Seq<(Seq<char>, JsonView)>,
    fact: (Seq<Seq<char>>, Option<Seq<char>>),
    property: Seq<char>,
)
    ensures
        crate::json::member(
            JsonView::Object(super::properties::with_text(schema, updates, fact.0, fact.1)),
            property,
        ) == if sets(schema, fact, property) {
            Some(
                super::properties::property_value(
                    type_at(schema, fact.0),
                    fact.1->0,
                ),
            )
        } else {
            crate::json::member(JsonView::Object(updates), property)
        },
{
    match (fact.1, super::properties::first_property(schema, fact.0)) {
        (Some(t), Some((name, kind))) => {
            crate::json::set_member_is_found(
                updates,
                name,
                super::properties::property_value(kind, t),
                property,
            );
        },
        _ => {},
    }
}

proof fn last_fact_counts(
    schema: DatabaseSchema,
    updates: Seq<(Seq<char>, JsonView)>,
    list: Seq<(Seq<Seq<char>>, Option<Seq<char>>)>,
    n: nat,
    property: Seq<char>,
)
    requires
        n <= list.len(),
    ensures
        ({
            let after = JsonView::Object(with_facts(schema, updates, list, n));
            &&& (forall|i: int| 0 <= i < n ==> !sets(schema, #[trigger] list[i], property))
                ==> crate::json::member(after, property) == crate::json::member(
                JsonView::Object(updates),
                property,
            )
            &&& forall|i: int|
                0 <= i < n && sets(schema, #[trigger] list[i], property) && (forall|j: int|
                    i < j < n ==> !sets(schema, #[trigger] list[j], property))
                    ==> crate::json::member(after, property) == Some(
                    super::properties::property_value(
                        type_at(schema, list[i].0),
                        list[i].1->0,
                    ),
                )
        }),
    decreases n,
{
    if n > 0 {
        let m = (n - 1) as nat;
        last_fact_counts(schema, updates, list, m, property);
        let before = with_facts(schema, updates, list, m);
        text_sets(schema, before, list[n - 1], property);
        let after = JsonView::Object(with_facts(schema, updates, list, n));
        assert forall|i: int|
            0 <= i < n && sets(schema, #[trigger] list[i], property) && (forall|j: int|
                i < j < n ==> !sets(schema, #[trigger] list[j], property)) implies crate::json::member(
            after,
            property,
        ) == Some(
            super::properties::property_value(
                type_at(schema, list[i].0),
                list[i].1->0,
            ),
        ) by {
            if i < n - 1 {
                assert(!sets(schema, list[n - 1], property));
            }
        }
    }
}

/// Each fact of a profile goes to the property that its own names lead to, and to no other: a property
/// is set to what the last fact says whose names lead there, in the form that its type takes, and a
/// property that no fact leads to is left as it was.
pub proof fn facts_go_to_their_properties(
    schema: DatabaseSchema,
    updates: Seq<(Seq<char>, JsonView)>,
    payload: JsonView,
    property: Seq<char>,
)
    ensures
        ({
            let after = JsonView::Object(
                super::properties::profile_updates(schema, updates, payload),
            );
            let list = facts(payload);
            &&& (forall|i: int| 0 <= i < list.len() ==> !sets(schema, #[trigger] list[i], property))
                ==> crate::json::member(after, property) == crate::json::member(
                JsonView::Object(updates),
                property,
            )
            &&& forall|i: int|
                0 <= i < list.len() && sets(schema, #[trigger] list[i], property) && (forall|j: int|
                    i < j < list.len() ==> !sets(schema, #[trigger] list[j], property))
                    ==> crate::json::member(after, property) == Some(
                    super::properties::property_value(
                        type_at(schema, list[i].0),
                        list[i].1->0,
                    ),
                )
        }),
{
    let list = facts(payload);
    assert(super::properties::profile_updates(schema, updates, payload) == with_facts(
        schema,
        updates,
        list,
        19,
    )) by {
        reveal_with_fuel(with_facts, 20);
    }
    assert(list.len() == 19);
    last_fact_counts(schema, updates, list, 19, property);
}

/// Each note of the record keeper goes to the property of its own name; the mark of visibility goes
/// to a property that takes marks. A property that none of them names is left as it was.
pub proof fn notes_go_to_their_properties(
    schema: DatabaseSchema,
    updates: Seq<(Seq<char>, JsonView)>,
    payload: JsonView,
    property: Seq<char>,
)
    ensures
        ({
            let after = JsonView::Object(
                super::properties::metadata_updates(schema, updates, payload),
            );
            let list = notes(payload);
            let seen = super::properties::first_property(schema, seq!["Visibility"@]);
            let visible = match crate::json::member(payload, "_lethe"@) {
                Some(beside) => crate::json::member(beside, "visibility"@),
                None => None,
            };
            let marked = seen matches Some((name, kind)) && name == property && kind == "checkbox"@
                && visible matches Some(JsonView::Bool(_));
            &&& marked ==> crate::json::member(after, property) == Some(
                JsonView::Object(seq![("checkbox"@, visible->0)]),
            )
            &&& !marked && (forall|i: int|
                0 <= i < list.len() ==> !sets(schema, #[trigger] list[i], property))
                ==> crate::json::member(after, property) == crate::json::member(
                JsonView::Object(updates),
                property,
            )
            &&& !marked ==> forall|i: int|
                0 <= i < list.len() && sets(schema, #[trigger] list[i], property) && (forall|j: int|
                    i < j < list.len() ==> !sets(schema, #[trigger] list[j], property))
                    ==> crate::json::member(after, property) == Some(
                    super::properties::property_value(
                        type_at(schema, list[i].0),
                        list[i].1->0,
                    ),
                )
        }),
{
    let list = notes(payload);
    let texts = super::properties::metadata_texts(schema, updates, payload);
    assert(texts == with_facts(schema, updates, list, 5)) by {
        reveal_with_fuel(with_facts, 6);
    }
    last_fact_counts(schema, updates, list, 5, property);
    match super::properties::first_property(schema, seq!["Visibility"@]) {
        Some((name, kind)) => {
            match super::properties::metadata(payload, "visibility"@) {
                Some(JsonView::Bool(b)) => {
                    crate::json::set_member_is_found(
                        texts,
                        name,
                        JsonView::Object(seq![("checkbox"@, JsonView::Bool(b))]),
                        property,
                    );
                },
                _ => {},
            }
        },
        None => {},
    }
}

/// Attributes of a catalog go to the property that their names lead to; the last that says something
/// counts.
pub proof fn attributes_go_to_their_properties(
    schema: DatabaseSchema,
    updates: Seq<(Seq<char>, JsonView)>,
    attributes: Seq<AliasView>,
    attribute: AliasView,
    payload: JsonView,
    property: Seq<char>,
)
    ensures
        super::properties::with_catalog(schema, updates, Seq::empty(), payload) == updates,
        ({
            let before = super::properties::with_catalog(schema, updates, attributes, payload);
            let after = super::properties::with_catalog(
                schema,
                updates,
                attributes.push(attribute),
                payload,
            );
            let fact = (
                super::naming::once_by_name(
                    seq![attribute.name, attribute.id] + attribute.aliases,
                ),
                super::properties::catalog_value(attribute.id, payload),
            );
            crate::json::member(JsonView::Object(after), property) == if sets(
                schema,
                fact,
                property,
            ) {
                Some(
                    super::properties::property_value(
                        type_at(schema, fact.0),
                        fact.1->0,
                    ),
                )
            } else {
                crate::json::member(JsonView::Object(before), property)
            }
        }),
{
    let before = super::properties::with_catalog(schema, updates, attributes, payload);
    assert(attributes.push(attribute).drop_last() =~= attributes);
    text_sets(
        schema,
        before,
        (
            super::properties::catalog_names(attribute),
            super::properties::catalog_value(attribute.id, payload),
        ),
        property,
    );
}

/// An attribute of the catalog is read off the field of the profile that it stands for.
pub proof fn attributes_are_read_off_their_fields(payload: JsonView)
    ensures
        ({
            let p = crate::json::member(payload, "properties"@);
            &&& super::properties::catalog_value("mbti"@, payload) == said(p, "MBTI"@)
            &&& super::properties::catalog_value("sns"@, payload) == said(p, "SNS"@)
            &&& super::properties::catalog_value("カレッジで挑戦したいこと"@, payload) == said(
                p,
                "New Challenges"@,
            )
            &&& super::properties::catalog_value("カレッジ生に聞いてみたいこと"@, payload) == said(
                p,
                "Ask Me About"@,
            )
            &&& super::properties::catalog_value("ハッシュタグ"@, payload) == listed(p, "Hashtags"@)
            &&& super::properties::catalog_value("その他"@, payload) == super::properties::list_line(
                crate::json::member(payload, "attributes"@),
            )
            &&& super::properties::catalog_value("一言"@, payload) == said(p, "Message"@)
            &&& super::properties::catalog_value("人生の転換期"@, payload) == said(p, "Turning Point"@)
            &&& super::properties::catalog_value("余談"@, payload) == said(p, "BTW"@)
            &&& super::properties::catalog_value("出身地"@, payload) == said(p, "Birthplace"@)
            &&& super::properties::catalog_value("呼ばれたい名前"@, payload) == said(p, "Nickname"@)
            &&& super::properties::catalog_value("好きなもの"@, payload) == listed(p, "Likes"@)
            &&& super::properties::catalog_value("嫌いなもの"@, payload) == said(p, "Dislikes"@)
            &&& super::properties::catalog_value("専攻-興味分野"@, payload)
                == super::blocks::combined(
                super::properties::list_of(super::properties::part(p, "Major"@))
                    + super::properties::list_of(super::properties::part(p, "Interests"@)),
            )
            &&& super::properties::catalog_value("所属"@, payload) == said(p, "Affiliation"@)
            &&& super::properties::catalog_value("氏名"@, payload) == crate::json::as_text(
                crate::json::member(payload, "name"@),
            )
            &&& super::properties::catalog_value("生年月日"@, payload) == said(p, "DoB"@)
            &&& super::properties::catalog_value("趣味-特技"@, payload) == listed(p, "Hobbies"@)
        }),
{
    reveal_strlit("mbti");
    reveal_strlit("sns");
    reveal_strlit("カレッジで挑戦したいこと");
    reveal_strlit("カレッジ生に聞いてみたいこと");
    reveal_strlit("ハッシュタグ");
    reveal_strlit("その他");
    reveal_strlit("一言");
    reveal_strlit("人生の転換期");
    reveal_strlit("余談");
    reveal_strlit("出身地");
    reveal_strlit("呼ばれたい名前");
    reveal_strlit("好きなもの");
    reveal_strlit("嫌いなもの");
    reveal_strlit("専攻-興味分野");
    reveal_strlit("所属");
    reveal_strlit("氏名");
    reveal_strlit("生年月日");
    reveal_strlit("趣味-特技");
    assert("mbti"@[0] == 'm' && "sns"@[0] == 's' && "ハッシュタグ"@[0] == 'ハ' && "その他"@[0] == 'そ');
    assert("カレッジで挑戦したいこと"@[0] == 'カ' && "カレッジで挑戦したいこと"@[4] == 'で');
    assert("カレッジ生に聞いてみたいこと"@[0] == 'カ' && "カレッジ生に聞いてみたいこと"@[4] == '生');
    assert("一言"@[0] == '一' && "人生の転換期"@[0] == '人' && "余談"@[0] == '余' && "出身地"@[0] == '出');
    assert("呼ばれたい名前"@[0] == '呼' && "好きなもの"@[0] == '好' && "嫌いなもの"@[0] == '嫌');
    assert("専攻-興味分野"@[0] == '専' && "所属"@[0] == '所' && "氏名"@[0] == '氏');
    assert("生年月日"@[0] == '生' && "趣味-特技"@[0] == '趣');
}

/// A page is named by its title, without the space around it, and found by the address of the profile,
/// or by the one that was made up where the profile has none; each in its own property.
pub proof fn pages_are_named_and_found(schema: DatabaseSchema, title: Seq<char>, payload: JsonView)
    requires
        schema.email_property matches Some(property) ==> property@ != schema.title_property@,
    ensures
        ({
            let after = JsonView::Object(
                super::properties::identity_updates(schema, title, payload),
            );
            let own = crate::json::as_text(crate::json::member(payload, "email"@));
            let made = crate::json::as_text(crate::json::member(payload, "generated_email"@));
            let address = if own is Some {
                own
            } else {
                made
            };
            &&& !crate::text::blank(title) ==> crate::json::member(after, schema.title_property@)
                == Some(
                JsonView::Object(
                    seq![
                        (
                            "title"@,
                            JsonView::Array(
                                seq![
                                    JsonView::Object(
                                        seq![
                                            (
                                                "text"@,
                                                JsonView::Object(
                                                    seq![
                                                        (
                                                            "content"@,
                                                            JsonView::Str(
                                                                crate::text::trimmed(title),
                                                            ),
                                                        ),
                                                    ],
                                                ),
                                            ),
                                        ],
                                    ),
                                ],
                            ),
                        ),
                    ],
                ),
            )
            &&& schema.email_property matches Some(property) ==> crate::json::member(
                after,
                property@,
            ) == (if address is Some && !crate::text::blank(address->0) {
                Some(
                    JsonView::Object(
                        seq![("email"@, JsonView::Str(crate::text::trimmed(address->0)))],
                    ),
                )
            } else {
                None
            })
        }),
{
    let named = if crate::text::blank(title) {
        Seq::empty()
    } else {
        super::properties::identity_updates(
            DatabaseSchema { email_property: None, ..schema },
            title,
            payload,
        )
    };
    let value = JsonView::Object(
        seq![
            (
                "title"@,
                JsonView::Array(
                    seq![super::properties::content_value(crate::text::trimmed(title))],
                ),
            ),
        ],
    );
    let name = schema.title_property@;
    crate::json::set_member_is_found(Seq::empty(), name, value, name);
    if crate::json::as_text(crate::json::member(payload, "email"@)) is Some {
        crate::text::blank_trims_to_nothing(
            crate::json::as_text(crate::json::member(payload, "email"@))->0,
        );
    } else if crate::json::as_text(crate::json::member(payload, "generated_email"@)) is Some {
        crate::text::blank_trims_to_nothing(
            crate::json::as_text(crate::json::member(payload, "generated_email"@))->0,
        );
    }
    if schema.email_property is Some {
        let property = schema.email_property->0@;
        crate::json::set_member_is_found(Seq::empty(), name, value, property);
        assert(crate::json::member(JsonView::Object(Seq::empty()), property) is None);
        match super::properties::page_email(payload) {
            Some(email) => {
                let given = JsonView::Object(seq![("email"@, JsonView::Str(email))]);
                crate::json::set_member_is_found(named, property, given, property);
                crate::json::set_member_is_found(named, property, given, name);
            },
            None => {},
        }
    }
}

/// A text is set in the form of the property's type: an address of a page, an address of a person, a
/// date, a state, or plain text.
pub proof fn texts_take_the_form_of_their_type(value: Seq<char>)
    ensures
        super::blocks::is_web_address(value) ==> super::properties::property_value("url"@, value)
            == JsonView::Object(seq![("url"@, JsonView::Str(value))]),
        value.contains('@') ==> super::properties::property_value("email"@, value)
            == JsonView::Object(seq![("email"@, JsonView::Str(value))]),
        super::properties::property_value("date"@, value) == JsonView::Object(
            seq![("date"@, JsonView::Object(seq![("start"@, JsonView::Str(value))]))],
        ),
        super::properties::property_value("status"@, value) == JsonView::Object(
            seq![("status"@, JsonView::Object(seq![("name"@, JsonView::Str(value))]))],
        ),
        super::properties::property_value("rich_text"@, value) == JsonView::Object(
            seq![
                (
                    "rich_text"@,
                    JsonView::Array(
                        seq![
                            JsonView::Object(
                                seq![
                                    (
                                        "text"@,
                                        JsonView::Object(
                                            seq![("content"@, JsonView::Str(value))],
                                        ),
                                    ),
                                ],
                            ),
                        ],
                    ),
                ),
            ],
        ),
        !super::blocks::is_web_address(value) ==> super::properties::property_value("url"@, value)
            == super::properties::property_value("rich_text"@, value),
        !value.contains('@') ==> super::properties::property_value("email"@, value)
            == super::properties::property_value("rich_text"@, value),
{
    reveal_strlit("url");
    reveal_strlit("email");
    reveal_strlit("date");
    reveal_strlit("status");
    reveal_strlit("rich_text");
    assert("url"@.len() == 3 && "email"@.len() == 5 && "date"@.len() == 4 && "status"@.len() == 6
        && "rich_text"@.len() == 9);
}

proof fn first_of_type_is_first(listed: Seq<(Seq<char>, Seq<char>)>, kind: Seq<char>)
    ensures
        match super::properties::first_of_type(listed, kind) {
            Some(name) => exists|i: int|
                {
                    &&& 0 <= i < listed.len()
                    &&& #[trigger] listed[i] == (name, kind)
                    &&& forall|j: int| 0 <= j < i ==> (#[trigger] listed[j]).1 != kind
                },
            None => forall|i: int| 0 <= i < listed.len() ==> (#[trigger] listed[i]).1 != kind,
        },
    decreases listed.len(),
{
    if listed.len() > 0 {
        let init = listed.drop_last();
        first_of_type_is_first(init, kind);
        let last = listed.len() - 1;
        assert(listed.last() == listed[last]);
        assert forall|i: int| 0 <= i < last implies init[i] == #[trigger] listed[i] by {}
        match super::properties::first_of_type(init, kind) {
            Some(name) => {
                let i = choose|i: int|
                    {
                        &&& 0 <= i < init.len()
                        &&& #[trigger] init[i] == (name, kind)
                        &&& forall|j: int| 0 <= j < i ==> (#[trigger] init[j]).1 != kind
                    };
                assert(listed[i] == (name, kind));
                assert forall|j: int| 0 <= j < i implies (#[trigger] listed[j]).1 != kind by {
                    assert(init[j] == listed[j]);
                }
            },
            None => {
                assert forall|j: int| 0 <= j < last implies (#[trigger] listed[j]).1 != kind by {
                    assert(init[j] == listed[j]);
                }
                if listed[last].1 == kind {
                    assert(listed[last] == (listed[last].0, kind));
                }
            },
        }
    }
}

proof fn maps_of_listed(listed: Seq<(Seq<char>, Seq<char>)>, i: int)
    requires
        0 <= i < listed.len(),
    ensures
        (forall|j: int| i < j < listed.len() ==> (#[trigger] listed[j]).0 != listed[i].0)
            ==> super::properties::types_by_name(listed).contains_key(listed[i].0)
            && super::properties::types_by_name(listed)[listed[i].0] == listed[i].1,
        (forall|j: int|
            0 <= j < i ==> super::naming::normalized_name((#[trigger] listed[j]).0)
                != super::naming::normalized_name(listed[i].0))
            ==> super::properties::names_by_form(listed).contains_key(
            super::naming::normalized_name(listed[i].0),
        ) && super::properties::names_by_form(listed)[super::naming::normalized_name(listed[i].0)]
            == listed[i].0,
    decreases listed.len(),
{
    let init = listed.drop_last();
    let last = listed.len() - 1;
    assert(listed.last() == listed[last]);
    assert forall|j: int| 0 <= j < last implies init[j] == #[trigger] listed[j] by {}
    if i < last {
        maps_of_listed(init, i);
        if forall|j: int| i < j < listed.len() ==> (#[trigger] listed[j]).0 != listed[i].0 {
            assert forall|j: int| i < j < init.len() implies (#[trigger] init[j]).0 != init[i].0 by {
                assert(listed[j].0 != listed[i].0);
            }
            assert(listed[last].0 != listed[i].0);
        }
        if forall|j: int|
            0 <= j < i ==> super::naming::normalized_name((#[trigger] listed[j]).0)
                != super::naming::normalized_name(listed[i].0) {
            assert forall|j: int| 0 <= j < i implies super::naming::normalized_name(
                (#[trigger] init[j]).0,
            ) != super::naming::normalized_name(init[i].0) by {
                assert(init[j] == listed[j]);
            }
        }
    } else if forall|j: int|
        0 <= j < i ==> super::naming::normalized_name((#[trigger] listed[j]).0)
            != super::naming::normalized_name(listed[i].0) {
        forms_are_listed(init, super::naming::normalized_name(listed[i].0));
        if super::properties::names_by_form(init).contains_key(
            super::naming::normalized_name(listed[i].0),
        ) {
            let k = choose|k: int|
                0 <= k < init.len() && super::naming::normalized_name((#[trigger] init[k]).0)
                    == super::naming::normalized_name(listed[i].0);
            assert(listed[k] == init[k]);
        }
    }
}

proof fn forms_are_listed(listed: Seq<(Seq<char>, Seq<char>)>, form: Seq<char>)
    ensures
        super::properties::names_by_form(listed).contains_key(form) <==> exists|i: int|
            0 <= i < listed.len() && super::naming::normalized_name((#[trigger] listed[i]).0)
                == form,
    decreases listed.len(),
{
    if listed.len() > 0 {
        let init = listed.drop_last();
        let last = listed.len() - 1;
        forms_are_listed(init, form);
        assert(listed.last() == listed[last]);
        if exists|i: int|
            0 <= i < init.len() && super::naming::normalized_name((#[trigger] init[i]).0) == form {
            let i = choose|i: int|
                0 <= i < init.len() && super::naming::normalized_name((#[trigger] init[i]).0)
                    == form;
            assert(listed[i] == init[i]);
        }
        if exists|i: int|
            0 <= i < listed.len() && super::naming::normalized_name((#[trigger] listed[i]).0)
                == form {
            let i = choose|i: int|
                0 <= i < listed.len() && super::naming::normalized_name((#[trigger] listed[i]).0)
                    == form;
            if i < last {
                assert(init[i] == listed[i]);
            }
        }
    }
}

/// The schema of a database takes the first title and the first address that are listed, and leads
/// from a name in any spelling to the first property listed with it, of the type that it was listed
/// with.
pub proof fn schemas_follow_the_list(
    schema: DatabaseSchema,
    listed: Seq<(Seq<char>, Seq<char>)>,
    i: int,
    name: Seq<char>,
)
    requires
        super::properties::is_schema_of(schema, listed),
        0 <= i < listed.len(),
        forall|j: int, k: int|
            0 <= j < k < listed.len() ==> (#[trigger] listed[j]).0 != (#[trigger] listed[k]).0,
    ensures
        (listed[i].1 == "title"@ && forall|j: int|
            0 <= j < i ==> (#[trigger] listed[j]).1 != "title"@) ==> schema.title_property@
            == listed[i].0,
        (forall|j: int| 0 <= j < listed.len() ==> (#[trigger] listed[j]).1 != "title"@)
            ==> schema.title_property@ == "Name"@,
        (listed[i].1 == "email"@ && forall|j: int|
            0 <= j < i ==> (#[trigger] listed[j]).1 != "email"@) ==> crate::text::opt_string(
            schema.email_property,
        ) == Some(listed[i].0),
        (forall|j: int| 0 <= j < listed.len() ==> (#[trigger] listed[j]).1 != "email"@)
            ==> schema.email_property is None,
        (super::naming::normalized_name(name) == super::naming::normalized_name(listed[i].0)
            && forall|j: int|
            0 <= j < i ==> super::naming::normalized_name((#[trigger] listed[j]).0)
                != super::naming::normalized_name(listed[i].0))
            ==> super::properties::property_named(schema, name) == Some(listed[i]),
{
    first_of_type_is_first(listed, "title"@);
    first_of_type_is_first(listed, "email"@);
    maps_of_listed(listed, i);
    let kinds = schema.properties@.map_values(|p: NotionProperty| p.property_type@);
    let names = schema.actual_names_by_normalized@.map_values(|n: String| n@);
    let form = super::naming::normalized_name(listed[i].0);
    if forall|j: int|
        0 <= j < i ==> super::naming::normalized_name((#[trigger] listed[j]).0) != form {
        assert(names.contains_key(form) && names[form] == listed[i].0);
        assert(schema.actual_names_by_normalized@.contains_key(form));
        assert(kinds.contains_key(listed[i].0) && kinds[listed[i].0] == listed[i].1);
        assert(schema.properties@.contains_key(listed[i].0));
    }
}

/// Of several names the first that leads to a property counts.
pub proof fn first_names_count(schema: DatabaseSchema, names: Seq<Seq<char>>, i: int)
    requires
        0 <= i < names.len(),
        forall|j: int|
            0 <= j < i ==> super::properties::property_named(schema, #[trigger] names[j]) is None,
        super::properties::property_named(schema, names[i]) is Some,
    ensures
        super::properties::first_property(schema, names) == super::properties::property_named(
            schema,
            names[i],
        ),
    decreases names.len(),
{
    if i > 0 {
        let rest = names.drop_first();
        assert(super::properties::property_named(schema, names[0]) is None);
        assert forall|j: int| 0 <= j < i - 1 implies super::properties::property_named(
            schema,
            #[trigger] rest[j],
        ) is None by {
            assert(rest[j] == names[j + 1]);
        }
        assert(rest[i - 1] == names[i]);
        first_names_count(schema, rest, i - 1);
    }
}

/// The updates of a page set the title, then the facts, then the attributes of the catalog, then the
/// notes; what comes later counts.
pub proof fn later_updates_count(
    schema: DatabaseSchema,
    attributes: Seq<AliasView>,
    title: Seq<char>,
    payload: JsonView,
)
    ensures
        super::properties::property_updates(schema, attributes, title, payload)
            == super::properties::metadata_updates(
            schema,
            super::properties::with_catalog(
                schema,
                super::properties::profile_updates(
                    schema,
                    super::properties::identity_updates(schema, title, payload),
                    payload,
                ),
                attributes,
                payload,
            ),
            payload,
        ),
{
}

/// The texts of a list are those of its items that say something, without the space around them, in
/// order; one text alone stands for a list of one.
pub proof fn lists_hold_their_texts(items: Seq<JsonView>, item: JsonView)
    ensures
        super::properties::list_of(Some(JsonView::Array(Seq::empty()))).len() == 0,
        super::properties::list_of(Some(JsonView::Array(items.push(item)))) == match item {
            JsonView::Str(t) => if crate::text::blank(t) {
                super::properties::list_of(Some(JsonView::Array(items)))
            } else {
                super::properties::list_of(Some(JsonView::Array(items))).push(
                    crate::text::trimmed(t),
                )
            },
            _ => super::properties::list_of(Some(JsonView::Array(items))),
        },
        item matches JsonView::Str(t) ==> super::properties::list_of(Some(item))
            == if crate::text::blank(t) {
            Seq::empty()
        } else {
            seq![crate::text::trimmed(t)]
        },
        super::properties::list_of(None).len() == 0,
{
    assert(items.push(item).drop_last() =~= items);
    match item {
        JsonView::Str(t) => {
            crate::text::blank_trims_to_nothing(t);
        },
        _ => {},
    }
}

} // verus!
