//! Laws of JSON values.

use vstd::prelude::*;

use crate::json::{JsonView, NameScan};

verus! {

/// The member of a name is the first one that has it; only objects have members.
pub proof fn members_are_found_by_name(
    members: Seq<(Seq<char>, JsonView)>,
    key: Seq<char>,
    i: int,
)
    ensures
        0 <= i < members.len() && members[i].0 == key && (forall|j: int|
            0 <= j < i ==> (#[trigger] members[j]).0 != key) ==> crate::json::member(
            JsonView::Object(members),
            key,
        ) == Some(members[i].1),
        (forall|j: int| 0 <= j < members.len() ==> (#[trigger] members[j]).0 != key)
            ==> crate::json::member(JsonView::Object(members), key) is None,
        crate::json::member(JsonView::Null, key) is None,
    decreases members.len(),
{
    if members.len() > 0 {
        let rest = members.drop_first();
        assert(forall|j: int| 0 <= j < rest.len() ==> #[trigger] rest[j] == members[j + 1]);
        if members[0].0 != key {
            if 0 < i < members.len() && members[i].0 == key && (forall|j: int|
                0 <= j < i ==> (#[trigger] members[j]).0 != key) {
                assert(rest[i - 1] == members[i]);
                assert forall|j: int| 0 <= j < i - 1 implies (#[trigger] rest[j]).0 != key by {
                    assert(members[j + 1].0 != key);
                }
                members_are_found_by_name(rest, key, i - 1);
                crate::json::member_index_in_range(rest, key);
            }
            if forall|j: int| 0 <= j < members.len() ==> (#[trigger] members[j]).0 != key {
                assert forall|j: int| 0 <= j < rest.len() implies (#[trigger] rest[j]).0 != key by {
                    assert(members[j + 1].0 != key);
                }
                members_are_found_by_name(rest, key, 0);
            }
        } else if 0 < i < members.len() {
            assert(members[0].0 == key);
        }
    }
}

/// A member is set in its place where there is one of its name and behind the others where there is
/// none; the members at all other places stay as they are.
pub proof fn members_are_set_in_their_place(
    members: Seq<(Seq<char>, JsonView)>,
    name: Seq<char>,
    value: JsonView,
    i: int,
)
    requires
        0 <= i < members.len(),
    ensures
        ({
            let now = crate::json::set_member(members, name, value);
            let absent = forall|j: int| 0 <= j < members.len() ==> (#[trigger] members[j]).0 != name;
            let first = members[i].0 == name && forall|j: int|
                0 <= j < i ==> (#[trigger] members[j]).0 != name;
            &&& absent ==> now.len() == members.len() + 1 && now.last() == (name, value) && now[i]
                == members[i]
            &&& !absent ==> now.len() == members.len()
            &&& first ==> now[i] == (name, value)
            &&& !first ==> now[i] == members[i]
        }),
{
    first_place(members, name);
    let found = crate::json::member_index(members, name);
    if found is Some {
        let k = found->0;
        assert(members[k].0 == name);
        let first = members[i].0 == name && forall|j: int|
            0 <= j < i ==> (#[trigger] members[j]).0 != name;
        if first && k < i {
            assert(members[k].0 != name);
        }
        if first && i < k {
            assert(members[i].0 != name);
        }
    }
}

proof fn first_place(members: Seq<(Seq<char>, JsonView)>, name: Seq<char>)
    ensures
        match crate::json::member_index(members, name) {
            Some(i) => 0 <= i < members.len() && members[i].0 == name && forall|j: int|
                0 <= j < i ==> (#[trigger] members[j]).0 != name,
            None => forall|j: int| 0 <= j < members.len() ==> (#[trigger] members[j]).0 != name,
        },
    decreases members.len(),
{
    crate::json::member_index_in_range(members, name);
    if members.len() > 0 && members[0].0 != name {
        let rest = members.drop_first();
        first_place(rest, name);
        if crate::json::member_index(members, name) is Some {
            let i = crate::json::member_index(members, name)->0;
            assert forall|j: int| 0 <= j < i implies (#[trigger] members[j]).0 != name by {
                if j > 0 {
                    assert(rest[j - 1].0 != name);
                }
            }
        }
    }
}

/// A record is read from an object by name, and from a list by place where the list has just as many
/// items as the record has fields.
pub proof fn records_are_read_by_name_or_place(
    members: Seq<(Seq<char>, JsonView)>,
    items: Seq<JsonView>,
    name: Seq<char>,
    index: int,
    count: nat,
)
    ensures
        crate::json::record_field(JsonView::Object(members), name, index, count)
            == crate::json::member(JsonView::Object(members), name),
        items.len() == count ==> crate::json::record_field(
            JsonView::Array(items),
            name,
            index,
            count,
        ) == Some(items[index]),
        items.len() != count ==> crate::json::record_field(
            JsonView::Array(items),
            name,
            index,
            count,
        ) is None,
        crate::json::record_field(JsonView::Null, name, index, count) is None,
        crate::json::record_field(JsonView::Str(name), name, index, count) is None,
{
}

/// A text field holds a text, and a number field an integer from zero to 4294967295.
pub proof fn fields_hold_texts_or_small_numbers(
    value: JsonView,
    name: Seq<char>,
    index: int,
    count: nat,
    t: Seq<char>,
    n: u32,
)
    ensures
        crate::json::text_field(value, name, index, count) == Some(t) <==> crate::json::record_field(
            value,
            name,
            index,
            count,
        ) == Some(JsonView::Str(t)),
        crate::json::u32_field(value, name, index, count) == Some(n) <==> crate::json::record_field(
            value,
            name,
            index,
            count,
        ) == Some(JsonView::UInt(n as u64)),
        crate::json::record_field(value, name, index, count) matches Some(JsonView::UInt(m)) && m
            > 4_294_967_295 ==> crate::json::u32_field(value, name, index, count) is None,
{
}

/// An optional text is written as the text or as nothing, and a list of texts as the list of them.
pub proof fn texts_are_written_as_they_are(t: Option<String>, list: Seq<Seq<char>>, i: int)
    ensures
        t is None ==> crate::json::opt_text_value(t) == JsonView::Null,
        t is Some ==> crate::json::opt_text_value(t) == JsonView::Str(t->0@),
        crate::json::text_list(list) is Array,
        crate::json::text_list(list)->Array_0.len() == list.len(),
        0 <= i < list.len() ==> crate::json::text_list(list)->Array_0[i] == JsonView::Str(list[i]),
{
}

/// Values of different kinds are never alike; texts, truth values and integers are alike where they
/// are the same; lists where they are as long and alike item by item.
pub proof fn values_are_alike_by_kind(
    s: Seq<char>,
    t: Seq<char>,
    n: u64,
    m: u64,
    x: Seq<JsonView>,
    y: Seq<JsonView>,
    members: Seq<(Seq<char>, JsonView)>,
)
    ensures
        crate::json::alike(JsonView::Null, JsonView::Null),
        crate::json::alike(JsonView::Str(s), JsonView::Str(t)) <==> s == t,
        crate::json::alike(JsonView::UInt(n), JsonView::UInt(m)) <==> n == m,
        crate::json::alike(JsonView::Bool(true), JsonView::Bool(true)),
        !crate::json::alike(JsonView::Bool(true), JsonView::Bool(false)),
        !crate::json::alike(JsonView::Str(s), JsonView::UInt(n)),
        !crate::json::alike(JsonView::Null, JsonView::Str(s)),
        !crate::json::alike(JsonView::Array(x), JsonView::Object(members)),
        !crate::json::alike(JsonView::Object(members), JsonView::Null),
        crate::json::alike(JsonView::Array(x), JsonView::Array(y)) <==> x.len() == y.len()
            && forall|i: int| 0 <= i < x.len() ==> crate::json::alike(#[trigger] x[i], y[i]),
{
    if crate::json::alike(JsonView::Array(x), JsonView::Array(y)) {
        assert forall|i: int| 0 <= i < x.len() implies crate::json::alike(
            #[trigger] x[i],
            y[i],
        ) by {}
    }
}

/// Objects are alike where they have as many members and each member of the one is found in the
/// other, by its name, with a value alike; the order of the members does not count.
pub proof fn objects_are_alike_by_name(
    x: Seq<(Seq<char>, JsonView)>,
    y: Seq<(Seq<char>, JsonView)>,
)
    ensures
        crate::json::alike(JsonView::Object(x), JsonView::Object(y)) <==> x.len() == y.len()
            && forall|i: int|
            0 <= i < x.len() ==> crate::json::member(
                JsonView::Object(y),
                (#[trigger] x[i]).0,
            ) is Some && crate::json::alike(
                x[i].1,
                crate::json::member(JsonView::Object(y), x[i].0)->0,
            ),
{
    let told = forall|i: int|
        0 <= i < x.len() ==> (match crate::json::member(
            JsonView::Object(y),
            (#[trigger] x[i]).0,
        ) {
            Some(value) => crate::json::alike(x[i].1, value),
            None => false,
        });
    let plain = forall|i: int|
        0 <= i < x.len() ==> crate::json::member(
            JsonView::Object(y),
            (#[trigger] x[i]).0,
        ) is Some && crate::json::alike(
            x[i].1,
            crate::json::member(JsonView::Object(y), x[i].0)->0,
        );
    if told {
        assert(plain);
    }
    if plain {
        assert(told);
    }
    assert(crate::json::alike(JsonView::Object(x), JsonView::Object(y)) <==> x.len() == y.len()
        && told);
}

proof fn texts_are_read_to_their_quote(text: Seq<char>, level: nat, name: Seq<char>)
    requires
        !crate::json::name_scan(text, level).in_text,
        forall|i: int| 0 <= i < name.len() ==> #[trigger] name[i] != '"' && name[i] != '\\',
    ensures
        crate::json::name_scan(text + seq!['"'] + name, level) == (NameScan {
            in_text: true,
            escaped: false,
            current: name,
            ..crate::json::name_scan(text, level)
        }),
    decreases name.len(),
{
    if name.len() == 0 {
        assert(text + seq!['"'] + name =~= text.push('"'));
        assert(text.push('"').drop_last() =~= text);
        assert(name =~= Seq::empty());
    } else {
        let rest = name.drop_last();
        assert forall|i: int| 0 <= i < rest.len() implies #[trigger] rest[i] != '"' && rest[i]
            != '\\' by {
            assert(name[i] != '"' && name[i] != '\\');
        }
        texts_are_read_to_their_quote(text, level, rest);
        let whole = text + seq!['"'] + name;
        assert(whole.drop_last() =~= text + seq!['"'] + rest);
        assert(whole.last() == name[name.len() - 1]);
        assert(name =~= rest.push(name.last()));
    }
}

/// A text without special characters that stands, between quotes, where an object of the level waits
/// for a name is one more name of that object; anywhere else it is none.
pub proof fn names_stand_where_they_are_awaited(text: Seq<char>, level: nat, name: Seq<char>)
    requires
        !crate::json::name_scan(text, level).in_text,
        forall|i: int| 0 <= i < name.len() ==> #[trigger] name[i] != '"' && name[i] != '\\',
    ensures
        ({
            let before = crate::json::name_scan(text, level);
            let after = crate::json::name_scan(text + seq!['"'] + name + seq!['"'], level);
            let awaited = before.depth == level && before.in_object && before.expects_name;
            &&& !after.in_text
            &&& awaited ==> after.names == before.names.push((before.objects, name))
            &&& !awaited ==> after.names == before.names
            &&& after.depth == before.depth
            &&& after.objects == before.objects
        }),
{
    texts_are_read_to_their_quote(text, level, name);
    let whole = text + seq!['"'] + name + seq!['"'];
    assert(whole.drop_last() =~= text + seq!['"'] + name);
    assert(whole.last() == '"');
}

/// Outside of texts, a brace or a bracket opens one level more or closes one; an object that opens at
/// the level is one more object, which waits for a name until a colon and again from a comma on.
pub proof fn objects_wait_for_names(text: Seq<char>, level: nat)
    requires
        !crate::json::name_scan(text, level).in_text,
    ensures
        ({
            let before = crate::json::name_scan(text, level);
            let opened = crate::json::name_scan(text.push('{'), level);
            let listed = crate::json::name_scan(text.push('['), level);
            let closed = crate::json::name_scan(text.push('}'), level);
            let named = crate::json::name_scan(text.push(':'), level);
            let followed = crate::json::name_scan(text.push(','), level);
            &&& opened.depth == before.depth + 1
            &&& listed.depth == before.depth + 1
            &&& before.depth + 1 == level ==> opened.in_object && opened.expects_name
                && opened.objects == before.objects + 1 && !listed.in_object
            &&& before.depth + 1 != level ==> opened.objects == before.objects
            &&& before.depth > 0 ==> closed.depth == before.depth - 1
            &&& before.depth == level ==> !named.expects_name && followed.expects_name
            &&& before.depth != level ==> named == before && followed == before
            &&& opened.names == before.names && closed.names == before.names && named.names
                == before.names && followed.names == before.names
        }),
        crate::json::name_scan(Seq::empty(), level).depth == 0,
        crate::json::name_scan(Seq::empty(), level).names.len() == 0,
        crate::json::name_scan(Seq::empty(), level).objects == 0,
{
    assert(text.push('{').drop_last() =~= text);
    assert(text.push('[').drop_last() =~= text);
    assert(text.push('}').drop_last() =~= text);
    assert(text.push(':').drop_last() =~= text);
    assert(text.push(',').drop_last() =~= text);
}

} // verus!
