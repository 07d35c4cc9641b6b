//! JSON values, read and written through `serde_json`.

use serde_json::Value;
use vstd::prelude::*;
use vstd::string::*;

use crate::binary64::Binary64;
use crate::text::{chars_of, str_eq};

verus! {

/// A JSON value with its object members in written order.
#[derive(Debug, PartialEq)]
pub enum Json {
    Null,
    Bool(bool),
    /// An integer from zero upwards.
    UInt(u64),
    /// An integer below zero.
    NegInt(i64),
    /// Any other number.
    Float(Binary64),
    Str(String),
    Array(Vec<Json>),
    Object(Vec<(String, Json)>),
}

/// What a JSON value holds.
pub enum JsonView {
    Null,
    Bool(bool),
    UInt(u64),
    NegInt(i64),
    Float(Binary64),
    Str(Seq<char>),
    Array(Seq<JsonView>),
    Object(Seq<(Seq<char>, JsonView)>),
}

impl Json {
    pub open spec fn value(self) -> JsonView
        decreases self,
    {
        match self {
            Json::Null => JsonView::Null,
            Json::Bool(b) => JsonView::Bool(b),
            Json::UInt(n) => JsonView::UInt(n),
            Json::NegInt(n) => JsonView::NegInt(n),
            Json::Float(x) => JsonView::Float(x),
            Json::Str(s) => JsonView::Str(s@),
            Json::Array(items) => JsonView::Array(
                Seq::new(
                    items@.len(),
                    |i: int|
                        if 0 <= i < items@.len() {
                            items@[i].value()
                        } else {
                            JsonView::Null
                        },
                ),
            ),
            Json::Object(members) => JsonView::Object(
                Seq::new(
                    members@.len(),
                    |i: int|
                        if 0 <= i < members@.len() {
                            (members@[i].0@, members@[i].1.value())
                        } else {
                            (Seq::<char>::empty(), JsonView::Null)
                        },
                ),
            ),
        }
    }
}

impl View for Json {
    type V = JsonView;

    open spec fn view(&self) -> JsonView {
        self.value()
    }
}

/// The position of the member called `key`, if there is one.
pub open spec fn member_index(members: Seq<(Seq<char>, JsonView)>, key: Seq<char>) -> Option<int>
    decreases members.len(),
{
    if members.len() == 0 {
        None
    } else if members[0].0 == key {
        Some(0int)
    } else {
        match member_index(members.drop_first(), key) {
            Some(i) => Some(i + 1),
            None => None,
        }
    }
}

/// The member of an object called `key`; a value that is no object has none.
pub open spec fn member(value: JsonView, key: Seq<char>) -> Option<JsonView> {
    match value {
        JsonView::Object(members) => match member_index(members, key) {
            Some(i) => Some(members[i].1),
            None => None,
        },
        _ => None,
    }
}

/// The text of a string value.
pub open spec fn as_text(value: Option<JsonView>) -> Option<Seq<char>> {
    match value {
        Some(JsonView::Str(s)) => Some(s),
        _ => None,
    }
}

/// An optional value seen through its view.
pub open spec fn opt_json(value: Option<&Json>) -> Option<JsonView> {
    match value {
        Some(j) => Some(j@),
        None => None,
    }
}

/// An optional string slice seen through its view.
pub open spec fn opt_str(value: Option<&str>) -> Option<Seq<char>> {
    match value {
        Some(s) => Some(s@),
        None => None,
    }
}

impl Json {
    /// The member called `key`; `None` where this is no object or has no such member.
    pub fn get(&self, key: &str) -> (r: Option<&Json>)
        ensures
            opt_json(r) == member(self@, key@),
    {
        match self {
            Json::Object(members) => {
                let ghost views = self@->Object_0;
                let mut i: usize = 0;
                assert(views.skip(0) =~= views);
                while i < members.len()
                    invariant
                        i <= members.len(),
                        *self matches Json::Object(ms) && ms == *members,
                        views.len() == members@.len(),
                        self@ == JsonView::Object(views),
                        forall|j: int|
                            0 <= j < views.len() ==> #[trigger] views[j] == (
                                members@[j].0@,
                                members@[j].1@,
                            ),
                        member_index(views, key@) == (match member_index(
                            views.skip(i as int),
                            key@,
                        ) {
                            Some(k) => Some(k + i),
                            None => None,
                        }),
                    decreases members.len() - i,
                {
                    assert(views.skip(i as int)[0] == views[i as int]);
                    assert(views.skip(i as int).drop_first() =~= views.skip(i + 1));
                    if str_eq(members[i].0.as_str(), key) {
                        return Some(&members[i].1);
                    }
                    i = i + 1;
                }
                assert(views.skip(i as int).len() == 0);
                None
            },
            _ => None,
        }
    }

    /// The text of a string value.
    pub fn as_str(&self) -> (r: Option<&str>)
        ensures
            opt_str(r) == as_text(Some(self@)),
    {
        match self {
            Json::Str(s) => Some(s.as_str()),
            _ => None,
        }
    }

    /// The text of the string member called `key`.
    pub fn get_str(&self, key: &str) -> (r: Option<&str>)
        ensures
            opt_str(r) == as_text(member(self@, key@)),
    {
        match self.get(key) {
            Some(v) => v.as_str(),
            None => None,
        }
    }

    /// An equal value of its own.
    pub fn copy(&self) -> (r: Json)
        ensures
            r@ == self@,
        decreases self,
    {
        match self {
            Json::Null => Json::Null,
            Json::Bool(b) => Json::Bool(*b),
            Json::UInt(n) => Json::UInt(*n),
            Json::NegInt(n) => Json::NegInt(*n),
            Json::Float(x) => Json::Float(*x),
            Json::Str(s) => Json::Str(s.clone()),
            Json::Array(items) => {
                let mut out: Vec<Json> = Vec::new();
                let mut i: usize = 0;
                while i < items.len()
                    invariant
                        i <= items.len(),
                        out.len() == i,
                        *self matches Json::Array(own) && own == *items,
                        forall|j: int| 0 <= j < i ==> (#[trigger] out@[j])@ == items@[j]@,
                    decreases items.len() - i,
                {
                    out.push(items[i].copy());
                    i = i + 1;
                }
                let r = Json::Array(out);
                assert(r@->Array_0 =~= self@->Array_0);
                r
            },
            Json::Object(members) => {
                let mut out: Vec<(String, Json)> = Vec::new();
                let mut i: usize = 0;
                while i < members.len()
                    invariant
                        i <= members.len(),
                        out.len() == i,
                        *self matches Json::Object(own) && own == *members,
                        forall|j: int|
                            0 <= j < i ==> #[trigger] out@[j].0@ == members@[j].0@ && out@[j].1@
                                == members@[j].1@,
                    decreases members.len() - i,
                {
                    out.push((members[i].0.clone(), members[i].1.copy()));
                    i = i + 1;
                }
                let r = Json::Object(out);
                assert(r@->Object_0 =~= self@->Object_0);
                r
            },
        }
    }
}

/// Whether two values are equal as JSON: the order in which objects name their members does not
/// count, and zero is zero with either sign.
pub open spec fn alike(a: JsonView, b: JsonView) -> bool
    decreases a,
{
    match (a, b) {
        (JsonView::Array(x), JsonView::Array(y)) => x.len() == y.len() && forall|i: int|
            0 <= i < x.len() ==> alike(#[trigger] x[i], y[i]),
        (JsonView::Object(x), JsonView::Object(y)) => x.len() == y.len() && forall|i: int|
            0 <= i < x.len() ==> (match member(b, (#[trigger] x[i]).0) {
                Some(value) => alike(x[i].1, value),
                None => false,
            }),
        (JsonView::Float(x), JsonView::Float(y)) => crate::binary64::at_least(x, y)
            && crate::binary64::at_least(y, x),
        _ => a == b,
    }
}

impl Json {
    /// Whether two values are equal as JSON.
    pub fn equals(&self, other: &Json) -> (r: bool)
        ensures
            r == alike(self@, other@),
        decreases self,
    {
        match (self, other) {
            (Json::Null, Json::Null) => true,
            (Json::Bool(a), Json::Bool(b)) => *a == *b,
            (Json::UInt(a), Json::UInt(b)) => *a == *b,
            (Json::NegInt(a), Json::NegInt(b)) => *a == *b,
            (Json::Float(a), Json::Float(b)) => a.reaches(b) && b.reaches(a),
            (Json::Str(a), Json::Str(b)) => str_eq(a.as_str(), b.as_str()),
            (Json::Array(a), Json::Array(b)) => {
                let ghost x = self@->Array_0;
                let ghost y = other@->Array_0;
                if a.len() != b.len() {
                    assert(x.len() != y.len());
                    return false;
                }
                let mut i: usize = 0;
                while i < a.len()
                    invariant
                        i <= a.len(),
                        a.len() == b.len(),
                        *self matches Json::Array(own) && own == *a,
                        *other matches Json::Array(its) && its == *b,
                        self@ == JsonView::Array(x),
                        other@ == JsonView::Array(y),
                        x.len() == a.len(),
                        y.len() == b.len(),
                        forall|j: int| 0 <= j < i ==> alike(#[trigger] x[j], y[j]),
                    decreases a.len() - i,
                {
                    assert(x[i as int] == a@[i as int]@);
                    assert(y[i as int] == b@[i as int]@);
                    if !a[i].equals(&b[i]) {
                        assert(!alike(x[i as int], y[i as int]));
                        return false;
                    }
                    i = i + 1;
                }
                true
            },
            (Json::Object(a), Json::Object(b)) => {
                let ghost x = self@->Object_0;
                let ghost y = other@->Object_0;
                if a.len() != b.len() {
                    assert(x.len() != y.len());
                    return false;
                }
                let mut i: usize = 0;
                while i < a.len()
                    invariant
                        i <= a.len(),
                        a.len() == b.len(),
                        *self matches Json::Object(own) && own == *a,
                        *other matches Json::Object(its) && its == *b,
                        self@ == JsonView::Object(x),
                        other@ == JsonView::Object(y),
                        x.len() == a.len(),
                        y.len() == b.len(),
                        forall|j: int|
                            0 <= j < i ==> (match member(other@, (#[trigger] x[j]).0) {
                                Some(value) => alike(x[j].1, value),
                                None => false,
                            }),
                    decreases a.len() - i,
                {
                    assert(x[i as int] == (a@[i as int].0@, a@[i as int].1@));
                    let found = match other.get(a[i].0.as_str()) {
                        Some(value) => a[i].1.equals(value),
                        None => false,
                    };
                    if !found {
                        return false;
                    }
                    i = i + 1;
                }
                true
            },
            _ => false,
        }
    }
}

impl Clone for Json {
    fn clone(&self) -> (r: Json)
        ensures
            r@ == self@,
    {
        self.copy()
    }
}

/// The members of an object by name and content.
pub open spec fn member_views(members: Seq<(String, Json)>) -> Seq<(Seq<char>, JsonView)> {
    members.map_values(|m: (String, Json)| (m.0@, m.1@))
}

/// Members with one set: in its place where there is one of that name, else behind the others.
pub open spec fn set_member(
    members: Seq<(Seq<char>, JsonView)>,
    name: Seq<char>,
    value: JsonView,
) -> Seq<(Seq<char>, JsonView)> {
    match member_index(members, name) {
        Some(i) => members.update(i, (name, value)),
        None => members.push((name, value)),
    }
}

/// The position of a member lies inside the list, and the member has the name.
pub proof fn member_index_in_range(members: Seq<(Seq<char>, JsonView)>, key: Seq<char>)
    ensures
        match member_index(members, key) {
            Some(i) => 0 <= i < members.len() && members[i].0 == key,
            None => forall|i: int| 0 <= i < members.len() ==> (#[trigger] members[i]).0 != key,
        },
    decreases members.len(),
{
    if members.len() > 0 && members[0].0 != key {
        let rest = members.drop_first();
        member_index_in_range(rest, key);
        if member_index(rest, key) is None {
            assert forall|i: int| 0 <= i < members.len() implies (#[trigger] members[i]).0 != key by {
                if i > 0 {
                    assert(rest[i - 1] == members[i]);
                }
            }
        }
    }
}

/// A member that was set is found, and every other member is as it was.
pub proof fn set_member_is_found(
    members: Seq<(Seq<char>, JsonView)>,
    name: Seq<char>,
    value: JsonView,
    key: Seq<char>,
)
    ensures
        member(JsonView::Object(set_member(members, name, value)), key) == if key == name {
            Some(value)
        } else {
            member(JsonView::Object(members), key)
        },
    decreases members.len(),
{
    let after = set_member(members, name, value);
    if members.len() == 0 {
        assert(after =~= seq![(name, value)]);
        assert(after.drop_first() =~= Seq::empty());
        assert(member_index(after.drop_first(), key) is None);
    } else {
        let rest = members.drop_first();
        member_index_in_range(members, key);
        member_index_in_range(rest, key);
        member_index_in_range(rest, name);
        assert(members[0] == (members[0].0, members[0].1));
        if members[0].0 == name {
            assert(after[0] == (name, value));
            assert(after.drop_first() =~= rest);
            if key != name && member_index(rest, key) is Some {
                let i = member_index(rest, key)->0;
                assert(after[i + 1] == rest[i]);
                assert(members[i + 1] == rest[i]);
            }
        } else {
            set_member_is_found(rest, name, value, key);
            let tail = set_member(rest, name, value);
            assert(after[0] == members[0]);
            assert(after.drop_first() =~= tail);
            member_index_in_range(tail, key);
            if members[0].0 != key {
                if member_index(tail, key) is Some {
                    let i = member_index(tail, key)->0;
                    assert(after[i + 1] == tail[i]);
                }
                if member_index(rest, key) is Some {
                    let i = member_index(rest, key)->0;
                    assert(members[i + 1] == rest[i]);
                }
            }
        }
    }
}

/// Sets a member: in its place where there is one of that name, else behind the others.
pub fn put_member(members: &mut Vec<(String, Json)>, name: &str, value: Json)
    ensures
        member_views(final(members)@) == set_member(member_views(old(members)@), name@, value@),
{
    let ghost views = member_views(members@);
    let mut i: usize = 0;
    assert(views.skip(0) =~= views);
    while i < members.len()
        invariant
            i <= members.len(),
            *members == *old(members),
            views == member_views(members@),
            member_index(views, name@) == (match member_index(views.skip(i as int), name@) {
                Some(k) => Some(k + i),
                None => None,
            }),
        decreases members.len() - i,
    {
        assert(views.skip(i as int)[0] == views[i as int]);
        assert(views.skip(i as int).drop_first() =~= views.skip(i + 1));
        if str_eq(members[i].0.as_str(), name) {
            members.set(i, (name.to_owned(), value));
            assert(member_views(members@) =~= views.update(i as int, (name@, value@)));
            return;
        }
        i = i + 1;
    }
    assert(views.skip(i as int).len() == 0);
    members.push((name.to_owned(), value));
    assert(member_views(members@) =~= views.push((name@, value@)));
}

/// The contents of a list of values.
pub open spec fn values(items: Seq<Json>) -> Seq<JsonView> {
    items.map_values(|j: Json| j@)
}

/// The value of an optional text.
pub open spec fn opt_text_value(text: Option<String>) -> JsonView {
    match text {
        Some(t) => JsonView::Str(t@),
        None => JsonView::Null,
    }
}

/// The value of a list of texts.
pub open spec fn text_list(items: Seq<Seq<char>>) -> JsonView {
    JsonView::Array(items.map_values(|s: Seq<char>| JsonView::Str(s)))
}

/// One member of an object.
pub fn entry(name: &str, value: Json) -> (r: (String, Json))
    ensures
        r.0@ == name@,
        r.1@ == value@,
{
    (name.to_owned(), value)
}

/// An object of members.
pub fn object(members: Vec<(String, Json)>) -> (r: Json)
    ensures
        r@ == JsonView::Object(member_views(members@)),
{
    let ghost views = member_views(members@);
    let r = Json::Object(members);
    assert(r@->Object_0 =~= views);
    r
}

/// An array of values.
pub fn array(items: Vec<Json>) -> (r: Json)
    ensures
        r@ == JsonView::Array(values(items@)),
{
    let ghost views = values(items@);
    let r = Json::Array(items);
    assert(r@->Array_0 =~= views);
    r
}

/// An array of one value.
pub fn array_of(item: Json) -> (r: Json)
    ensures
        r@ == JsonView::Array(seq![item@]),
{
    let r = array(vec![item]);
    assert(r@->Array_0 =~= seq![item@]);
    r
}

/// An object with one member.
pub fn object1(name: &str, value: Json) -> (r: Json)
    ensures
        r@ == JsonView::Object(seq![(name@, value@)]),
{
    let r = object(vec![entry(name, value)]);
    assert(r@->Object_0 =~= seq![(name@, value@)]);
    r
}

/// An object with two members.
pub fn object2(name1: &str, value1: Json, name2: &str, value2: Json) -> (r: Json)
    ensures
        r@ == JsonView::Object(seq![(name1@, value1@), (name2@, value2@)]),
{
    let r = object(vec![entry(name1, value1), entry(name2, value2)]);
    assert(r@->Object_0 =~= seq![(name1@, value1@), (name2@, value2@)]);
    r
}

/// An object with three members.
pub fn object3(
    name1: &str,
    value1: Json,
    name2: &str,
    value2: Json,
    name3: &str,
    value3: Json,
) -> (r: Json)
    ensures
        r@ == JsonView::Object(seq![(name1@, value1@), (name2@, value2@), (name3@, value3@)]),
{
    let r = object(vec![entry(name1, value1), entry(name2, value2), entry(name3, value3)]);
    assert(r@->Object_0 =~= seq![(name1@, value1@), (name2@, value2@), (name3@, value3@)]);
    r
}

/// An array of two values.
pub fn array_of2(first: Json, second: Json) -> (r: Json)
    ensures
        r@ == JsonView::Array(seq![first@, second@]),
{
    let r = array(vec![first, second]);
    assert(r@->Array_0 =~= seq![first@, second@]);
    r
}

/// A string value.
pub fn text(value: &str) -> (r: Json)
    ensures
        r@ == JsonView::Str(value@),
{
    Json::Str(value.to_owned())
}

/// A truth value.
pub fn boolean(value: bool) -> (r: Json)
    ensures
        r@ == JsonView::Bool(value),
{
    Json::Bool(value)
}

/// A number.
pub fn number(value: u64) -> (r: Json)
    ensures
        r@ == JsonView::UInt(value),
{
    Json::UInt(value)
}

/// The value of an optional text.
pub fn opt_text(value: &Option<String>) -> (r: Json)
    ensures
        r@ == opt_text_value(*value),
{
    match value {
        Some(t) => Json::Str(t.clone()),
        None => Json::Null,
    }
}

/// The value of a list of texts.
pub fn texts(items: &Vec<String>) -> (r: Json)
    ensures
        r@ == text_list(crate::text::strings(items@)),
{
    let mut out: Vec<Json> = Vec::new();
    let mut i: usize = 0;
    while i < items.len()
        invariant
            i <= items.len(),
            out.len() == i,
            forall|j: int| 0 <= j < i ==> (#[trigger] out@[j])@ == JsonView::Str(items@[j]@),
        decreases items.len() - i,
    {
        out.push(Json::Str(items[i].clone()));
        i = i + 1;
    }
    let r = Json::Array(out);
    assert(r@->Array_0 =~= text_list(crate::text::strings(items@))->Array_0);
    r
}

/// Whether a value holds integers only where it holds numbers, each in its one form.
pub open spec fn integers_only(value: JsonView) -> bool
    decreases value,
{
    match value {
        JsonView::Float(_) => false,
        JsonView::NegInt(n) => n < 0,
        JsonView::Array(items) => forall|i: int|
            0 <= i < items.len() ==> #[trigger] integers_only(items[i]),
        JsonView::Object(members) => forall|i: int|
            0 <= i < members.len() ==> integers_only((#[trigger] members[i]).1),
        _ => true,
    }
}

/// Whether no object in a value has two members of one name.
pub open spec fn distinct_names(value: JsonView) -> bool
    decreases value,
{
    match value {
        JsonView::Array(items) => forall|i: int|
            0 <= i < items.len() ==> #[trigger] distinct_names(items[i]),
        JsonView::Object(members) => {
            &&& forall|i: int|
                0 <= i < members.len() ==> distinct_names((#[trigger] members[i]).1)
            &&& forall|i: int, j: int|
                0 <= i < j < members.len() ==> (#[trigger] members[i]).0 != (
                #[trigger] members[j]).0
        },
        _ => true,
    }
}

/// Whether a value nests arrays and objects at most `depth` deep.
pub open spec fn nests_within(value: JsonView, depth: nat) -> bool
    decreases value,
{
    match value {
        JsonView::Array(items) => depth > 0 && forall|i: int|
            0 <= i < items.len() ==> #[trigger] nests_within(items[i], (depth - 1) as nat),
        JsonView::Object(members) => depth > 0 && forall|i: int|
            0 <= i < members.len() ==> nests_within((#[trigger] members[i]).1, (depth - 1) as nat),
        _ => true,
    }
}

/// The field of a record written as a JSON object, or as a JSON array of all `count` fields.
pub open spec fn record_field(
    value: JsonView,
    name: Seq<char>,
    index: int,
    count: nat,
) -> Option<JsonView> {
    match value {
        JsonView::Object(_) => member(value, name),
        JsonView::Array(items) => if items.len() == count {
            Some(items[index])
        } else {
            None
        },
        _ => None,
    }
}

/// The field of a record written as a JSON object, or as a JSON array of all `count` fields.
pub fn json_field<'a>(value: &'a Json, name: &str, index: usize, count: usize) -> (r: Option<&'a Json>)
    requires
        index < count,
    ensures
        opt_json(r) == record_field(value@, name@, index as int, count as nat),
{
    match value {
        Json::Object(_) => value.get(name),
        Json::Array(items) => {
            if items.len() == count {
                assert(value@->Array_0[index as int] == items@[index as int]@);
                Some(&items[index])
            } else {
                None
            }
        },
        _ => None,
    }
}

/// The text in a field of a record.
pub open spec fn text_field(
    value: JsonView,
    name: Seq<char>,
    index: int,
    count: nat,
) -> Option<Seq<char>> {
    as_text(record_field(value, name, index, count))
}

/// A number below `2^32` in a field of a record.
pub open spec fn u32_field(value: JsonView, name: Seq<char>, index: int, count: nat) -> Option<
    u32,
> {
    match record_field(value, name, index, count) {
        Some(JsonView::UInt(n)) => if n <= u32::MAX {
            Some(n as u32)
        } else {
            None
        },
        _ => None,
    }
}

/// The text in a field of a record.
pub fn json_text_field(value: &Json, name: &str, index: usize, count: usize) -> (r: Option<String>)
    requires
        index < count,
    ensures
        crate::text::opt_string(r) == text_field(value@, name@, index as int, count as nat),
{
    match json_field(value, name, index, count) {
        Some(v) => match v.as_str() {
            Some(t) => Some(t.to_owned()),
            None => None,
        },
        None => None,
    }
}

/// A number below `2^32` in a field of a record.
pub fn json_u32_field(value: &Json, name: &str, index: usize, count: usize) -> (r: Option<u32>)
    requires
        index < count,
    ensures
        r == u32_field(value@, name@, index as int, count as nat),
{
    match json_field(value, name, index, count) {
        Some(Json::UInt(n)) => {
            if *n <= 0xffff_ffff {
                Some(*n as u32)
            } else {
                None
            }
        },
        _ => None,
    }
}

/// The value that `serde_json::from_str` reads from a text, `None` where it reports an error.
pub uninterp spec fn json_parse(text: Seq<char>) -> Option<JsonView>;

/// The compact text that `serde_json` writes for a value.
pub uninterp spec fn json_text(value: JsonView) -> Seq<char>;

/// How far the member names of a JSON text are read: those of the objects that lie at one level of
/// nesting, each with the number of its object, and as they are written between their quotes.
pub struct NameScan {
    pub depth: nat,
    pub in_text: bool,
    pub escaped: bool,
    pub in_object: bool,
    pub expects_name: bool,
    pub objects: nat,
    pub current: Seq<char>,
    pub names: Seq<(nat, Seq<char>)>,
}

/// The names after one more character.
pub open spec fn name_step(scan: NameScan, level: nat, c: char) -> NameScan {
    if scan.in_text {
        if !scan.escaped && c == '"' {
            NameScan {
                in_text: false,
                names: if scan.depth == level && scan.in_object && scan.expects_name {
                    scan.names.push((scan.objects, scan.current))
                } else {
                    scan.names
                },
                ..scan
            }
        } else {
            NameScan {
                escaped: !scan.escaped && c == '\\',
                current: scan.current.push(c),
                ..scan
            }
        }
    } else if c == '"' {
        NameScan { in_text: true, escaped: false, current: Seq::empty(), ..scan }
    } else if c == '{' || c == '[' {
        if scan.depth + 1 == level {
            NameScan {
                depth: scan.depth + 1,
                in_object: c == '{',
                expects_name: true,
                objects: scan.objects + 1,
                ..scan
            }
        } else {
            NameScan { depth: scan.depth + 1, ..scan }
        }
    } else if (c == '}' || c == ']') && scan.depth > 0 {
        NameScan { depth: (scan.depth - 1) as nat, ..scan }
    } else if scan.depth == level && c == ',' {
        NameScan { expects_name: true, ..scan }
    } else if scan.depth == level && c == ':' {
        NameScan { expects_name: false, ..scan }
    } else {
        scan
    }
}

/// The names in a JSON text at a level of nesting; the outermost object lies at the first level.
pub open spec fn name_scan(text: Seq<char>, level: nat) -> NameScan
    decreases text.len(),
{
    if text.len() == 0 {
        NameScan {
            depth: 0,
            in_text: false,
            escaped: false,
            in_object: false,
            expects_name: false,
            objects: 0,
            current: Seq::empty(),
            names: Seq::empty(),
        }
    } else {
        name_step(name_scan(text.drop_last(), level), level, text.last())
    }
}

/// Whether what is written between two quotes reads as a name.
pub open spec fn reads_as(written: Seq<char>, name: Seq<char>) -> bool {
    json_parse(seq!['"'] + written + seq!['"']) == Some(JsonView::Str(name))
}

/// Whether an object at a level of nesting of a JSON text has two members of one name.
pub open spec fn names_twice(text: Seq<char>, level: nat, name: Seq<char>) -> bool {
    let names = name_scan(text, level).names;
    exists|i: int, j: int|
        #![trigger names[i], names[j]]
        0 <= i < j < names.len() && names[i].0 == names[j].0 && reads_as(names[i].1, name)
            && reads_as(names[j].1, name)
}

/// Whether an object at a level of nesting of a JSON text has two members of one of some names.
pub open spec fn names_any_twice(text: Seq<char>, level: nat, names: Seq<Seq<char>>) -> bool {
    exists|i: int| 0 <= i < names.len() && names_twice(text, level, #[trigger] names[i])
}

/// Some literal names.
pub open spec fn literals(names: Seq<&str>) -> Seq<Seq<char>> {
    names.map_values(|name: &str| name@)
}

/// The values of `serde_json`, which only the two conversions below take apart.
#[verifier::external_type_specification]
#[verifier::external_body]
pub struct ExValue(serde_json::Value);

/// Takes a `serde_json::Value` apart, variant by variant.
#[verifier::external_body]
fn json_from_value(value: Value) -> Json {
    match value {
        Value::Null => Json::Null,
        Value::Bool(b) => Json::Bool(b),
        Value::Number(n) => match (n.as_u64(), n.as_i64()) {
            (Some(u), _) => Json::UInt(u),
            (None, Some(i)) => Json::NegInt(i),
            (None, None) =>
                Json::Float(Binary64 { bits: n.as_f64().unwrap_or_default().to_bits() }),
        },
        Value::String(s) => Json::Str(s),
        Value::Array(a) => Json::Array(a.into_iter().map(json_from_value).collect()),
        Value::Object(o) =>
            Json::Object(o.into_iter().map(|m| (m.0, json_from_value(m.1))).collect()),
    }
}

/// Builds the `serde_json::Value` of a value without fractions, variant by variant.
#[verifier::external_body]
fn value_from_json(value: &Json) -> serde_json::Value {
    match value {
        Json::Null => serde_json::Value::Null,
        Json::Bool(b) => serde_json::Value::Bool(*b),
        Json::UInt(n) => serde_json::Value::from(*n),
        Json::NegInt(n) => serde_json::Value::from(*n),
        Json::Float(_) => serde_json::Value::Null,
        Json::Str(t) => serde_json::Value::String(t.clone()),
        Json::Array(a) => serde_json::Value::Array(a.iter().map(value_from_json).collect()),
        Json::Object(o) => serde_json::Value::Object(
            o.iter().map(|m| (m.0.clone(), value_from_json(&m.1))).collect(),
        ),
    }
}

/// Reads a JSON text with `serde_json::from_str`; the error is its own message. The contract
/// claims that the outcome depends on the text alone.
#[verifier::external_body]
pub(crate) fn parse_json(text: &str) -> (r: Result<Json, String>)
    ensures
        match r {
            Ok(j) => json_parse(text@) == Some(j@),
            Err(_) => json_parse(text@) is None,
        },
{
    match serde_json::from_str::<serde_json::Value>(text) {
        Ok(v) => Ok(json_from_value(v)),
        Err(e) => Err(e.to_string()),
    }
}

/// Writes a value compactly with the `to_string` of `serde_json::Value`. The contract claims that
/// the text depends on the value alone and, where member names are distinct and nesting stays below
/// the parser's limit, that reading the text gives the value back and that no object in the text has
/// two members of one name.
#[verifier::external_body]
pub(crate) fn write_json(value: &Json) -> (r: String)
    requires
        integers_only(value@),
        nests_within(value@, 127),
    ensures
        r@ == json_text(value@),
        distinct_names(value@) ==> json_parse(r@) == Some(value@) && forall|
            level: nat,
            name: Seq<char>,
        |
            !(#[trigger] names_twice(r@, level, name)),
{
    value_from_json(value).to_string()
}

spec fn name_views(names: Seq<(usize, String)>) -> Seq<(nat, Seq<char>)> {
    names.map_values(|n: (usize, String)| (n.0 as nat, n.1@))
}

/// The names in a JSON text at a level of nesting, as they are written.
fn written_names(text: &str, level: usize) -> (r: Vec<(usize, String)>)
    ensures
        name_views(r@) == name_scan(text@, level as nat).names,
{
    let chars = chars_of(text);
    let mut depth: usize = 0;
    let mut in_text = false;
    let mut escaped = false;
    let mut in_object = false;
    let mut expects_name = false;
    let mut objects: usize = 0;
    let mut current = String::new();
    let mut names: Vec<(usize, String)> = Vec::new();
    let mut i: usize = 0;
    assert(name_views(names@) =~= Seq::empty());
    assert(text@.take(0) =~= Seq::empty());
    while i < chars.len()
        invariant
            i <= chars@.len(),
            chars@ == text@,
            depth <= i,
            objects <= i,
            name_scan(text@.take(i as int), level as nat) == (NameScan {
                depth: depth as nat,
                in_text,
                escaped,
                in_object,
                expects_name,
                objects: objects as nat,
                current: current@,
                names: name_views(names@),
            }),
        decreases chars@.len() - i,
    {
        assert(text@.take(i + 1).drop_last() =~= text@.take(i as int));
        assert(text@.take(i + 1).last() == text@[i as int]);
        let c = chars[i];
        if in_text {
            if !escaped && c == '"' {
                in_text = false;
                if depth == level && in_object && expects_name {
                    let ghost before = names@;
                    names.push((objects, current.clone()));
                    assert(name_views(names@) =~= name_views(before).push(
                        (objects as nat, current@),
                    ));
                }
            } else {
                escaped = !escaped && c == '\\';
                current.push(c);
            }
        } else if c == '"' {
            in_text = true;
            escaped = false;
            current = String::new();
            assert(current@ =~= Seq::empty());
        } else if c == '{' || c == '[' {
            if level > 0 && depth == level - 1 {
                in_object = c == '{';
                expects_name = true;
                objects = objects + 1;
            }
            depth = depth + 1;
        } else if (c == '}' || c == ']') && depth > 0 {
            depth = depth - 1;
        } else if depth == level && c == ',' {
            expects_name = true;
        } else if depth == level && c == ':' {
            expects_name = false;
        }
        i = i + 1;
    }
    assert(text@.take(i as int) =~= text@);
    names
}

fn is_name(written: &str, name: &str) -> (r: bool)
    ensures
        r == reads_as(written@, name@),
{
    let mut quoted = String::new();
    quoted.push('"');
    quoted.append(written);
    quoted.push('"');
    assert(quoted@ =~= seq!['"'] + written@ + seq!['"']);
    match parse_json(quoted.as_str()) {
        Ok(Json::Str(t)) => str_eq(t.as_str(), name),
        _ => false,
    }
}

/// Whether an object at a level of nesting of a JSON text has two members of one name.
fn repeats_name(text: &str, level: usize, name: &str) -> (r: bool)
    ensures
        r == names_twice(text@, level as nat, name@),
{
    let names = written_names(text, level);
    let ghost all = name_scan(text@, level as nat).names;
    let mut i: usize = 0;
    while i < names.len()
        invariant
            i <= names@.len(),
            all == name_scan(text@, level as nat).names,
            all == name_views(names@),
            forall|a: int, b: int|
                #![trigger all[a], all[b]]
                0 <= a < b < all.len() && a < i && all[a].0 == all[b].0 && reads_as(
                    all[a].1,
                    name@,
                ) ==> !reads_as(all[b].1, name@),
        decreases names@.len() - i,
    {
        assert(all[i as int] == (names@[i as int].0 as nat, names@[i as int].1@));
        if is_name(names[i].1.as_str(), name) {
            let mut j: usize = i + 1;
            while j < names.len()
                invariant
                    i < j <= names@.len(),
                    all == name_scan(text@, level as nat).names,
                    all == name_views(names@),
                    reads_as(all[i as int].1, name@),
                    forall|b: int|
                        i < b < j && all[i as int].0 == (#[trigger] all[b]).0 ==> !reads_as(
                            all[b].1,
                            name@,
                        ),
                decreases names@.len() - j,
            {
                assert(all[i as int] == (names@[i as int].0 as nat, names@[i as int].1@));
                assert(all[j as int] == (names@[j as int].0 as nat, names@[j as int].1@));
                if names[j].0 == names[i].0 && is_name(names[j].1.as_str(), name) {
                    return true;
                }
                j = j + 1;
            }
        }
        i = i + 1;
    }
    false
}

/// Whether an object at a level of nesting of a JSON text has two members of one of some names.
pub fn repeats_any_name(text: &str, level: usize, names: &Vec<&str>) -> (r: bool)
    ensures
        r == names_any_twice(text@, level as nat, literals(names@)),
{
    let ghost all = literals(names@);
    let mut i: usize = 0;
    while i < names.len()
        invariant
            i <= names@.len(),
            all == literals(names@),
            forall|k: int| 0 <= k < i ==> !names_twice(text@, level as nat, #[trigger] all[k]),
        decreases names@.len() - i,
    {
        assert(all[i as int] == names@[i as int]@);
        if repeats_name(text, level, names[i]) {
            return true;
        }
        i = i + 1;
    }
    false
}

} // verus!
