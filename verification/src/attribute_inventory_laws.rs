//! Laws of the inventory of attributes.

use vstd::prelude::*;
use vstd::string::*;

use crate::attribute_inventory::{
    AliasView, AttributeInventoryDocument, AttributeSuggestion, CandidateValueKind, CandidateView,
    CommandView, CountError, KnownView, SuggestionView,
};
use crate::json::JsonView;
use crate::profile::PersonProfile;

verus! {

/// A value that starts like a web address is one; any other one is long where it has more than 120
/// bytes or more than one line, and short where it has neither.
pub proof fn values_have_one_kind(value: Seq<char>)
    ensures
        ({
            let web = (value.len() >= "http://"@.len() && value.take("http://"@.len() as int)
                == "http://"@) || (value.len() >= "https://"@.len() && value.take(
                "https://"@.len() as int,
            ) == "https://"@);
            let long = vstd::utf8::encode_utf8(value).len() >= 121 || exists|i: int|
                0 <= i < value.len() && #[trigger] value[i] == '\n';
            let kind = crate::attribute_inventory::kind_of(value);
            &&& kind == CandidateValueKind::Url <==> web
            &&& kind == CandidateValueKind::LongText <==> !web && long
            &&& kind == CandidateValueKind::ShortText <==> !web && !long
        }),
{
}

/// Two letters or digits that stand together stay together in a segment, with an underscore between
/// them just where a capital follows a small letter.
pub proof fn words_of_a_segment_begin_with_capitals(key: Seq<char>, x: char, y: char)
    requires
        crate::text::is_alnum(x),
        crate::text::is_alnum(y),
    ensures
        ({
            let before = crate::attribute_inventory::segment_state(key.push(x)).text;
            let after = crate::attribute_inventory::segment_state(key.push(x).push(y)).text;
            after == if 'a' <= x && x <= 'z' && 'A' <= y && y <= 'Z' {
                before.push('_').push(crate::text::lower(y))
            } else {
                before.push(crate::text::lower(y))
            }
        }),
{
    assert(key.push(x).drop_last() =~= key);
    assert(key.push(x).push(y).drop_last() =~= key.push(x));
    small_letters_are_no_underscores(x);
    reveal_with_fuel(crate::attribute_inventory::segment_state, 2);
}

proof fn small_letters_are_no_underscores(c: char)
    ensures
        crate::text::is_alnum(c) ==> crate::text::lower(c) != '_' && crate::text::lower(c) != '-',
{
    crate::text_laws::letters_change_their_size_alone(c);
    if 'A' <= c && c <= 'Z' {
        assert(crate::text::lower(c) as int == c as int + 32);
    }
}

/// Whatever else stands between two letters or digits is one underscore in a segment.
pub proof fn other_characters_become_one_underscore(key: Seq<char>, x: char, a: char, b: char, y: char)
    requires
        crate::text::is_alnum(x),
        !crate::text::is_alnum(a),
        !crate::text::is_alnum(b),
        crate::text::is_alnum(y),
    ensures
        crate::attribute_inventory::segment_state(key.push(x).push(a).push(y)).text
            == crate::attribute_inventory::segment_state(key.push(x)).text.push('_').push(
            crate::text::lower(y),
        ),
        crate::attribute_inventory::segment_state(key.push(a).push(b))
            == crate::attribute_inventory::segment_state(key.push(a)),
        crate::attribute_inventory::segment_state(seq![a]).text == Seq::<char>::empty(),
        crate::attribute_inventory::segment_state(seq![x]).text == seq![crate::text::lower(x)],
{
    assert(key.push(x).drop_last() =~= key);
    assert(key.push(a).drop_last() =~= key);
    assert(key.push(a).push(b).drop_last() =~= key.push(a));
    assert(key.push(x).push(a).drop_last() =~= key.push(x));
    assert(key.push(x).push(a).push(y).drop_last() =~= key.push(x).push(a));
    small_letters_are_no_underscores(x);
    separators_leave_no_text(key);
    reveal_with_fuel(crate::attribute_inventory::segment_state, 3);
    assert(seq![a].drop_last() =~= Seq::<char>::empty());
    assert(seq![x].drop_last() =~= Seq::<char>::empty());
    assert(crate::attribute_inventory::segment_state(seq![x]).text =~= seq![crate::text::lower(x)]);
}

proof fn separators_leave_no_text(key: Seq<char>)
    ensures
        crate::attribute_inventory::segment_state(key).after_separator
            ==> crate::attribute_inventory::segment_state(key).text.len() > 0,
    decreases key.len(),
{
    if key.len() > 0 {
        separators_leave_no_text(key.drop_last());
    }
}

/// A canonical segment is the rewritten key without the underscores around it.
pub proof fn segments_lose_underscores_around_them(key: Seq<char>)
    ensures
        exists|before: Seq<char>, after: Seq<char>|
            #[trigger] all_are(before, '_') && #[trigger] all_are(after, '_')
                && crate::attribute_inventory::segment_state(key).text == before
                + crate::attribute_inventory::canonical_segment(key) + after,
        crate::attribute_inventory::canonical_segment(key).len() > 0
            ==> crate::attribute_inventory::canonical_segment(key)[0] != '_'
            && crate::attribute_inventory::canonical_segment(key).last() != '_',
{
    characters_are_taken_from_both_ends(crate::attribute_inventory::segment_state(key).text, '_');
}

/// Whether a text holds nothing but one character.
pub open spec fn all_are(s: Seq<char>, c: char) -> bool {
    forall|i: int| 0 <= i < s.len() ==> #[trigger] s[i] == c
}

proof fn characters_are_taken_from_both_ends(s: Seq<char>, c: char)
    ensures
        exists|before: Seq<char>, after: Seq<char>|
            #[trigger] all_are(before, c) && #[trigger] all_are(after, c) && s == before
                + crate::attribute_inventory::without_around(s, c) + after,
        crate::attribute_inventory::without_around(s, c).len() > 0
            ==> crate::attribute_inventory::without_around(s, c)[0] != c
            && crate::attribute_inventory::without_around(s, c).last() != c,
{
    let before = taken_from_the_start(s, c);
    let middle = crate::attribute_inventory::without_leading(s, c);
    let after = taken_from_the_end(middle, c);
    assert(s =~= before + crate::attribute_inventory::without_around(s, c) + after);
    assert(all_are(before, c) && all_are(after, c));
}

proof fn taken_from_the_start(s: Seq<char>, c: char) -> (before: Seq<char>)
    ensures
        all_are(before, c),
        s == before + crate::attribute_inventory::without_leading(s, c),
        crate::attribute_inventory::without_leading(s, c).len() > 0
            ==> crate::attribute_inventory::without_leading(s, c)[0] != c,
    decreases s.len(),
{
    if s.len() > 0 && s[0] == c {
        let rest = s.drop_first();
        let b = taken_from_the_start(rest, c);
        let before = seq![c] + b;
        assert(crate::attribute_inventory::without_leading(s, c)
            == crate::attribute_inventory::without_leading(rest, c));
        assert(s =~= seq![c] + rest);
        assert(s =~= before + crate::attribute_inventory::without_leading(s, c));
        before
    } else {
        let before = Seq::<char>::empty();
        assert(s =~= before + crate::attribute_inventory::without_leading(s, c));
        before
    }
}

proof fn taken_from_the_end(s: Seq<char>, c: char) -> (after: Seq<char>)
    ensures
        all_are(after, c),
        s == crate::attribute_inventory::without_trailing(s, c) + after,
        crate::attribute_inventory::without_trailing(s, c).len() > 0
            ==> crate::attribute_inventory::without_trailing(s, c).last() != c
            && crate::attribute_inventory::without_trailing(s, c)[0] == s[0],
    decreases s.len(),
{
    if s.len() > 0 && s.last() == c {
        let rest = s.drop_last();
        let a = taken_from_the_end(rest, c);
        let after = a.push(c);
        assert(crate::attribute_inventory::without_trailing(s, c)
            == crate::attribute_inventory::without_trailing(rest, c));
        assert(s =~= rest.push(c));
        assert(s =~= crate::attribute_inventory::without_trailing(s, c) + after);
        after
    } else {
        let after = Seq::<char>::empty();
        assert(s =~= crate::attribute_inventory::without_trailing(s, c) + after);
        after
    }
}

/// The last segment of a path holds no dot and stands at the end, behind the last dot where there
/// is one.
pub proof fn last_segments_stand_behind_the_last_dot(path: Seq<char>)
    ensures
        ({
            let leaf = crate::attribute_inventory::last_segment(path);
            let n = path.len() - leaf.len();
            &&& n >= 0
            &&& path.skip(n) == leaf
            &&& !leaf.contains('.')
            &&& n > 0 ==> path[n - 1] == '.'
        }),
    decreases path.len(),
{
    let leaf = crate::attribute_inventory::last_segment(path);
    if path.len() > 0 && path.last() != '.' {
        let rest = path.drop_last();
        last_segments_stand_behind_the_last_dot(rest);
        let before = crate::attribute_inventory::last_segment(rest);
        let n = path.len() - leaf.len();
        assert(path =~= rest.push(path.last()));
        assert(path.skip(n) =~= rest.skip(n).push(path.last()));
        if leaf.contains('.') {
            let i = choose|i: int| 0 <= i < leaf.len() && leaf[i] == '.';
            assert(before[i] == '.');
        }
    } else {
        assert(path.skip(path.len() as int) =~= leaf);
    }
}

/// The readable form of a text has a space for each underscore, nothing for each pair of brackets
/// and every other character as it is.
pub proof fn texts_are_made_readable_by_character(c: char, rest: Seq<char>)
    ensures
        crate::attribute_inventory::readable(Seq::empty()) == Seq::<char>::empty(),
        crate::attribute_inventory::readable(seq!['_'] + rest) == seq![' ']
            + crate::attribute_inventory::readable(rest),
        crate::attribute_inventory::readable(seq!['[', ']'] + rest)
            == crate::attribute_inventory::readable(rest),
        c != '_' && !(c == '[' && rest.len() > 0 && rest[0] == ']')
            ==> crate::attribute_inventory::readable(seq![c] + rest) == seq![c]
            + crate::attribute_inventory::readable(rest),
{
    assert((seq!['_'] + rest).skip(1) =~= rest);
    assert((seq!['[', ']'] + rest).skip(2) =~= rest);
    assert((seq![c] + rest).skip(1) =~= rest);
}

/// A label is the readable last segment with its first letter made a capital, or the word `Value`
/// where nothing is left.
pub proof fn labels_name_the_last_segment(path: Seq<char>)
    ensures
        ({
            let leaf = crate::attribute_inventory::readable(
                crate::attribute_inventory::last_segment(path),
            );
            let label = crate::attribute_inventory::label_of(path);
            &&& leaf.len() == 0 ==> label == "Value"@
            &&& leaf.len() > 0 ==> label.len() == leaf.len() && label[0] == crate::text::upper(
                leaf[0],
            )
            &&& forall|i: int| 0 < i < leaf.len() ==> #[trigger] label[i] == leaf[i]
        }),
{
}

/// Attributes are compared by the letters and digits of their last segment, whatever else stands
/// between them and however large the letters are.
pub proof fn leaves_are_letters_and_digits(value: Seq<char>)
    ensures
        forall|i: int|
            0 <= i < crate::attribute_inventory::leaf_of(value).len() ==> crate::text::is_lower(
                #[trigger] crate::attribute_inventory::leaf_of(value)[i],
            ) || crate::text::is_digit(crate::attribute_inventory::leaf_of(value)[i]),
        crate::attribute_inventory::leaf_of(value) == crate::attribute_inventory::small_letters(
            crate::attribute_inventory::last_segment(value),
        ),
{
    let s = crate::attribute_inventory::last_segment(value);
    leaf_by_character(s);
    let leaf = crate::attribute_inventory::leaf_of(value);
    assert(leaf =~= crate::attribute_inventory::small_letters(s));
}

proof fn leaf_by_character(s: Seq<char>)
    ensures
        crate::text::lowered(s.filter(|c: char| crate::text::is_alnum(c)))
            == crate::attribute_inventory::small_letters(s),
        forall|i: int|
            0 <= i < crate::attribute_inventory::small_letters(s).len() ==> crate::text::is_lower(
                #[trigger] crate::attribute_inventory::small_letters(s)[i],
            ) || crate::text::is_digit(crate::attribute_inventory::small_letters(s)[i]),
    decreases s.len(),
{
    reveal(Seq::filter);
    let wanted = |c: char| crate::text::is_alnum(c);
    if s.len() > 0 {
        let rest = s.drop_last();
        leaf_by_character(rest);
        let c = s.last();
        crate::text_laws::letters_change_their_size_alone(c);
        if crate::text::is_upper(c) {
            assert(crate::text::lower(c) as int == c as int + 32);
        }
        if crate::text::is_alnum(c) {
            assert(s.filter(wanted) == rest.filter(wanted).push(c));
            assert(crate::text::lowered(rest.filter(wanted).push(c)) =~= crate::text::lowered(
                rest.filter(wanted),
            ).push(crate::text::lower(c)));
        } else {
            assert(s.filter(wanted) == rest.filter(wanted));
        }
    } else {
        assert(s.filter(wanted) =~= Seq::<char>::empty());
        assert(crate::text::lowered(s.filter(wanted)) =~= Seq::<char>::empty());
    }
}

/// An identity has no dash around it: it is made of the trimmed name, whose letters and digits are
/// kept small and in order, and in which one dash stands for whatever is between two of them.
pub proof fn identities_are_dashed_names(name: Seq<char>, x: char, a: char, b: char, y: char)
    requires
        crate::text::is_alnum(x),
        !crate::text::is_alnum(a),
        !crate::text::is_alnum(b),
        crate::text::is_alnum(y),
    ensures
        crate::attribute_inventory::attribute_id_of(name).len() > 0
            ==> crate::attribute_inventory::attribute_id_of(name)[0] != '-'
            && crate::attribute_inventory::attribute_id_of(name).last() != '-',
        exists|before: Seq<char>, after: Seq<char>|
            #[trigger] all_are(before, '-') && #[trigger] all_are(after, '-')
                && crate::attribute_inventory::id_state(crate::text::trimmed(name)).0 == before
                + crate::attribute_inventory::attribute_id_of(name) + after,
        crate::attribute_inventory::id_state(Seq::empty()).0 == Seq::<char>::empty(),
        crate::attribute_inventory::id_state(name.push(x)).0
            == crate::attribute_inventory::id_state(name).0.push(crate::text::lower(x)),
        crate::attribute_inventory::id_state(name.push(x).push(a).push(y)).0
            == crate::attribute_inventory::id_state(name.push(x)).0.push('-').push(
            crate::text::lower(y),
        ),
        crate::attribute_inventory::id_state(name.push(a).push(b)).0
            == crate::attribute_inventory::id_state(name.push(a)).0,
        crate::attribute_inventory::id_state(seq![a]).0 == Seq::<char>::empty(),
{
    characters_are_taken_from_both_ends(
        crate::attribute_inventory::id_state(crate::text::trimmed(name)).0,
        '-',
    );
    assert(name.push(x).drop_last() =~= name);
    assert(name.push(a).drop_last() =~= name);
    assert(name.push(a).push(b).drop_last() =~= name.push(a));
    assert(name.push(x).push(a).drop_last() =~= name.push(x));
    assert(name.push(x).push(a).push(y).drop_last() =~= name.push(x).push(a));
    assert(seq![a].drop_last() =~= Seq::<char>::empty());
    reveal_with_fuel(crate::attribute_inventory::id_state, 3);
}

/// Records of the system are just the texts at eight paths.
pub proof fn records_of_the_system_stand_at_eight_paths(path: Seq<char>)
    ensures
        crate::attribute_inventory::metadata_path(path) <==> seq![
            "profile.source_slide_object_id"@,
            "profile.source_document_id"@,
            "profile.source_canonical_uri"@,
            "profile.thumbnail_blob_ref"@,
            "profile.thumbnail_url"@,
            "profile.companion_to_slide_object_id"@,
            "profile.profile_pic.url"@,
            "profile.gallery_images[].url"@,
        ].contains(path),
{
    let list = seq![
        "profile.source_slide_object_id"@,
        "profile.source_document_id"@,
        "profile.source_canonical_uri"@,
        "profile.thumbnail_blob_ref"@,
        "profile.thumbnail_url"@,
        "profile.companion_to_slide_object_id"@,
        "profile.profile_pic.url"@,
        "profile.gallery_images[].url"@,
    ];
    if crate::attribute_inventory::metadata_path(path) {
        assert(list[0] == path || list[1] == path || list[2] == path || list[3] == path || list[4]
            == path || list[5] == path || list[6] == path || list[7] == path);
    }
}

/// A text is a candidate just where it is not blank and no record of the system; it is found under
/// the place where it stands, which with its value makes its key, and it is known by its path.
pub proof fn texts_are_candidates_where_they_stand(raw: Seq<char>, source: Seq<char>, path: Seq<char>)
    ensures
        ({
            let found = crate::attribute_inventory::candidates_of(
                JsonView::Str(raw),
                source,
                path,
            );
            &&& crate::text::blank(raw) || crate::attribute_inventory::metadata_path(path)
                ==> found.len() == 0
            &&& !crate::text::blank(raw) && !crate::attribute_inventory::metadata_path(path)
                ==> found.len() == 1 && found[0].key == source + "="@ + crate::text::trimmed(raw)
                && found[0].path == path && found[0].source == source && found[0].label
                == crate::attribute_inventory::label_of(path) && found[0].value
                == crate::text::trimmed(raw) && found[0].kind
                == crate::attribute_inventory::kind_of(crate::text::trimmed(raw))
        }),
{
    crate::text::blank_trims_to_nothing(raw);
}

/// What is neither a text nor a list nor an object holds no candidate.
pub proof fn other_values_hold_no_candidates(
    value: JsonView,
    source: Seq<char>,
    path: Seq<char>,
)
    requires
        value is Null || value is Bool || value is UInt || value is NegInt || value is Float,
    ensures
        crate::attribute_inventory::candidates_of(value, source, path).len() == 0,
{
}

proof fn array_candidates_agree(
    items: Seq<JsonView>,
    one: JsonView,
    n: nat,
    source: Seq<char>,
    path: Seq<char>,
)
    requires
        n <= items.len(),
    ensures
        crate::attribute_inventory::array_candidates(items.push(one), n, source, path)
            == crate::attribute_inventory::array_candidates(items, n, source, path),
    decreases n,
{
    if n > 0 {
        array_candidates_agree(items, one, (n - 1) as nat, source, path);
        assert(items.push(one)[n - 1] == items[n - 1]);
    }
}

/// The candidates of a list are those of its items in order, each found under its place; for their
/// path the place does not count.
pub proof fn items_are_found_under_their_place(
    items: Seq<JsonView>,
    one: JsonView,
    source: Seq<char>,
    path: Seq<char>,
)
    ensures
        crate::attribute_inventory::candidates_of(JsonView::Array(Seq::empty()), source, path).len()
            == 0,
        crate::attribute_inventory::candidates_of(JsonView::Array(items.push(one)), source, path)
            == crate::attribute_inventory::candidates_of(JsonView::Array(items), source, path)
            + crate::attribute_inventory::candidates_of(
            one,
            source + "["@ + crate::text::decimal(items.len()) + "]"@,
            path + "[]"@,
        ),
{
    array_candidates_agree(items, one, items.len(), source, path);
    assert(items.push(one)[items.len() as int] == one);
}

proof fn object_candidates_agree(
    members: Seq<(Seq<char>, JsonView)>,
    one: (Seq<char>, JsonView),
    n: nat,
    source: Seq<char>,
    path: Seq<char>,
)
    requires
        n <= members.len(),
    ensures
        crate::attribute_inventory::object_candidates(members.push(one), n, source, path)
            == crate::attribute_inventory::object_candidates(members, n, source, path),
    decreases n,
{
    if n > 0 {
        object_candidates_agree(members, one, (n - 1) as nat, source, path);
        assert(members.push(one)[n - 1] == members[n - 1]);
    }
}

/// The candidates of an object are those of its members in order, each found under its name behind
/// a dot; for their path the name counts in its canonical form. Where nothing stands before it,
/// the name stands alone.
pub proof fn members_are_found_under_their_name(
    members: Seq<(Seq<char>, JsonView)>,
    name: Seq<char>,
    one: JsonView,
    source: Seq<char>,
    path: Seq<char>,
)
    ensures
        crate::attribute_inventory::candidates_of(
            JsonView::Object(Seq::empty()),
            source,
            path,
        ).len() == 0,
        source.len() > 0 && path.len() > 0 ==> crate::attribute_inventory::candidates_of(
            JsonView::Object(members.push((name, one))),
            source,
            path,
        ) == crate::attribute_inventory::candidates_of(JsonView::Object(members), source, path)
            + crate::attribute_inventory::candidates_of(
            one,
            source + "."@ + name,
            path + "."@ + crate::attribute_inventory::canonical_segment(name),
        ),
        crate::attribute_inventory::candidates_of(
            JsonView::Object(members.push((name, one))),
            Seq::empty(),
            Seq::empty(),
        ) == crate::attribute_inventory::candidates_of(
            JsonView::Object(members),
            Seq::empty(),
            Seq::empty(),
        ) + crate::attribute_inventory::candidates_of(
            one,
            name,
            crate::attribute_inventory::canonical_segment(name),
        ),
{
    object_candidates_agree(members, (name, one), members.len(), source, path);
    object_candidates_agree(members, (name, one), members.len(), Seq::empty(), Seq::empty());
    assert(members.push((name, one))[members.len() as int] == (name, one));
}

/// In a person the name is looked for first, then the introduction, then what their profile holds.
pub proof fn persons_are_searched_in_order(person: PersonProfile)
    ensures
        ({
            let value = crate::attribute_inventory::person_value(person);
            let outer = value->Object_0;
            let inner = outer[0].1->Object_0;
            &&& value is Object
            &&& outer.len() == 2
            &&& outer[0].0 == "person"@
            &&& outer[1].0 == "profile"@
            &&& outer[1].1 == crate::profile::profile_value(person.frontend_profile->0.profile)
            &&& outer[0].1 is Object
            &&& inner.len() == 2
            &&& inner[0].0 == "display_name"@
            &&& inner[0].1 == JsonView::Str(person.display_name@)
            &&& inner[1].0 == "self_intro_text"@
            &&& person.self_intro_text is None ==> inner[1].1 == JsonView::Null
            &&& person.self_intro_text matches Some(t) ==> inner[1].1 == JsonView::Str(t@)
        }),
{
}

/// A document is known by the document that its person's profile was taken from, and carries the
/// person's own name, identity and last activity; its texts stand by place and value.
pub proof fn documents_carry_their_person(document: AttributeInventoryDocument, person: PersonProfile)
    requires
        crate::attribute_inventory::documents(document, person),
    ensures
        person.frontend_profile is Some,
        document.document_key@ == person.frontend_profile->0.source_document_id@,
        document.source_document_id is Some,
        document.source_document_id->0@ == person.frontend_profile->0.source_document_id@,
        document.source_canonical_uri is Some
            <==> person.frontend_profile->0.source_canonical_uri is Some,
        document.source_canonical_uri is Some ==> document.source_canonical_uri->0@
            == person.frontend_profile->0.source_canonical_uri->0@,
        document.person_id@ == person.person_id@,
        document.display_name@ == person.display_name@,
        document.last_activity == person.last_activity,
        forall|i: int, j: int|
            0 <= i < j < document.candidates@.len() ==> ({
                let a = #[trigger] document.candidates@[i];
                let b = #[trigger] document.candidates@[j];
                crate::text::precedes(a.source_path@, b.source_path@) || (a.source_path@
                    == b.source_path@ && !crate::text::precedes(b.value@, a.value@))
            }),
{
    let found = choose|found: Seq<crate::attribute_inventory::AttributeCandidate>| #[trigger]
        crate::attribute_inventory::candidate_views(found)
            == crate::attribute_inventory::candidates_of(
            crate::attribute_inventory::person_value(person),
            Seq::empty(),
            Seq::empty(),
        ) && document.candidates@ == crate::sorting::in_rank(found);
    crate::sorting::sorting_rearranges(found);
    assert forall|i: int, j: int| 0 <= i < j < document.candidates@.len() implies ({
        let a = #[trigger] document.candidates@[i];
        let b = #[trigger] document.candidates@[j];
        crate::text::precedes(a.source_path@, b.source_path@) || (a.source_path@ == b.source_path@
            && !crate::text::precedes(b.value@, a.value@))
    }) by {
        let a = document.candidates@[i];
        let b = document.candidates@[j];
        crate::text::precedes_total(a.source_path@, b.source_path@);
        assert(!crate::sorting::Ranked::ranks_before(&b, &a));
    }
}

/// Documents stand in the order of their last activity, the latest first and those without any
/// last; among equally active ones the names decide, then the persons.
pub proof fn the_latest_documents_stand_first(
    a: AttributeInventoryDocument,
    b: AttributeInventoryDocument,
)
    ensures
        ({
            let first = crate::sorting::Ranked::ranks_before(&a, &b);
            &&& a.last_activity is Some && b.last_activity is None ==> first
            &&& a.last_activity is None && b.last_activity is Some ==> !first
            &&& a.last_activity is Some && b.last_activity is Some && crate::time::earlier(
                b.last_activity->0@,
                a.last_activity->0@,
            ) ==> first
            &&& a.last_activity == b.last_activity && crate::text::precedes(
                a.display_name@,
                b.display_name@,
            ) && !(a.last_activity is Some && crate::time::earlier(
                b.last_activity->0@,
                a.last_activity->0@,
            )) ==> first
            &&& a.last_activity == b.last_activity && a.display_name@ == b.display_name@ && !(
            a.last_activity is Some && crate::time::earlier(
                b.last_activity->0@,
                a.last_activity->0@,
            )) ==> (first <==> crate::text::precedes(a.person_id@, b.person_id@))
        }),
{
    crate::text::precedes_irreflexive(a.display_name@);
}

/// An attribute fits a candidate the better, the more of four signs there are: its exact path, the
/// same leaf in the identity, in the name and in one of the paths.
pub proof fn fits_are_the_sum_of_their_signs(known: KnownView, candidate: CandidateView)
    ensures
        ({
            let leaf = crate::attribute_inventory::leaf_of(candidate.path);
            let path = exists|i: int|
                0 <= i < known.paths.len() && #[trigger] known.paths[i] == candidate.path;
            let id = crate::attribute_inventory::leaf_of(known.id) == leaf;
            let name = crate::attribute_inventory::leaf_of(known.name) == leaf;
            let near = exists|i: int|
                0 <= i < known.paths.len() && crate::attribute_inventory::leaf_of(
                    #[trigger] known.paths[i],
                ) == leaf;
            crate::attribute_inventory::fit(known, candidate) == (if path {
                100int
            } else {
                0int
            }) + (if id {
                80int
            } else {
                0int
            }) + (if name {
                75int
            } else {
                0int
            }) + (if near {
                60int
            } else {
                0int
            })
        }),
{
}

/// Whether a suggestion is that of an attribute for a candidate.
pub open spec fn suggests(
    suggestion: SuggestionView,
    known: KnownView,
    candidate: CandidateView,
) -> bool {
    &&& suggestion.id == known.id
    &&& suggestion.name == known.name
    &&& suggestion.paths == known.paths
    &&& suggestion.score == crate::attribute_inventory::fit(known, candidate)
    &&& suggestion.score > 0
}

/// The attributes that fit are just those with a sign of fitting, and each of them is suggested
/// with its identity, its name, its paths and how well it fits.
pub proof fn fitting_attributes_are_suggested(
    known: Seq<KnownView>,
    candidate: CandidateView,
)
    ensures
        forall|i: int|
            0 <= i < known.len() && crate::attribute_inventory::fit(
                #[trigger] known[i],
                candidate,
            ) > 0 ==> exists|k: int|
                0 <= k < crate::attribute_inventory::fitting(known, candidate).len() && suggests(
                    #[trigger] crate::attribute_inventory::fitting(known, candidate)[k],
                    known[i],
                    candidate,
                ),
        forall|k: int|
            0 <= k < crate::attribute_inventory::fitting(known, candidate).len() ==> exists|i: int|
                0 <= i < known.len() && suggests(
                    #[trigger] crate::attribute_inventory::fitting(known, candidate)[k],
                    #[trigger] known[i],
                    candidate,
                ),
        crate::attribute_inventory::fitting(known, candidate).len() <= known.len(),
    decreases known.len(),
{
    if known.len() > 0 {
        let rest = known.drop_last();
        fitting_attributes_are_suggested(rest, candidate);
        let before = crate::attribute_inventory::fitting(rest, candidate);
        let now = crate::attribute_inventory::fitting(known, candidate);
        assert forall|i: int|
            0 <= i < known.len() && crate::attribute_inventory::fit(
                #[trigger] known[i],
                candidate,
            ) > 0 implies exists|k: int|
            0 <= k < now.len() && suggests(#[trigger] now[k], known[i], candidate) by {
            if i < rest.len() {
                assert(rest[i] == known[i]);
                let k = choose|k: int|
                    0 <= k < before.len() && suggests(#[trigger] before[k], rest[i], candidate);
                assert(suggests(now[k], known[i], candidate));
            } else {
                assert(suggests(now[now.len() - 1], known[i], candidate));
            }
        }
        assert forall|k: int| 0 <= k < now.len() implies exists|i: int|
            0 <= i < known.len() && suggests(#[trigger] now[k], #[trigger] known[i], candidate) by {
            if k < before.len() {
                assert(now[k] == before[k]);
                let i = choose|i: int|
                    0 <= i < rest.len() && suggests(before[k], #[trigger] rest[i], candidate);
                assert(suggests(now[k], known[i], candidate));
            } else {
                assert(suggests(now[k], known[known.len() - 1], candidate));
            }
        }
    }
}

/// At most five suggestions are made, as many as there are otherwise, and none that fits better
/// stands behind one that fits worse; among equal ones the names decide, then the identities.
pub proof fn the_best_five_are_suggested(
    list: Seq<AttributeSuggestion>,
    of: Seq<SuggestionView>,
    i: int,
    j: int,
)
    requires
        crate::attribute_inventory::best_fits(list, of),
    ensures
        list.len() == if of.len() < 5 {
            of.len()
        } else {
            5
        },
        0 <= i < j < list.len() ==> list[i].score >= list[j].score,
        0 <= i < j < list.len() && list[i].score == list[j].score ==> !crate::text::precedes(
            list[j].display_name@,
            list[i].display_name@,
        ),
        0 <= i < j < list.len() && list[i].score == list[j].score && list[i].display_name@
            == list[j].display_name@ ==> !crate::text::precedes(list[j].id@, list[i].id@),
{
    let unsorted = choose|unsorted: Seq<AttributeSuggestion>|
        {
            let sorted = crate::sorting::in_rank(unsorted);
            &&& #[trigger] crate::attribute_inventory::suggestion_views(unsorted) == of
            &&& list == (if sorted.len() > 5 {
                sorted.take(5)
            } else {
                sorted
            })
        };
    crate::sorting::sorting_rearranges(unsorted);
    assert(unsorted.len() == of.len());
    if 0 <= i < j < list.len() {
        let sorted = crate::sorting::in_rank(unsorted);
        assert(list[i] == sorted[i] && list[j] == sorted[j]);
        assert(!crate::sorting::Ranked::ranks_before(&sorted[j], &sorted[i]));
    }
}

proof fn kept_five(list: Seq<Seq<char>>)
    ensures
        crate::attribute_inventory::first_five(list).len() == if list.len() < 5 {
            list.len()
        } else {
            5
        },
        forall|i: int|
            0 <= i < crate::attribute_inventory::first_five(list).len()
                ==> #[trigger] crate::attribute_inventory::first_five(list)[i] == list[i],
{
}

/// An attribute that a candidate was found to belong to keeps its identity and its name, has the
/// candidate's path besides its own and is reviewed once more; of its examples and the candidate's
/// value the first five are kept.
pub proof fn attributes_take_candidates_in(
    known: KnownView,
    candidate: CandidateView,
    t: Seq<char>,
)
    ensures
        ({
            let now = crate::attribute_inventory::absorbed(known, candidate);
            &&& now.id == known.id
            &&& now.name == known.name
            &&& known.count < usize::MAX ==> now.count == known.count + 1
            &&& known.count == usize::MAX ==> now.count == usize::MAX
            &&& now.paths.contains(t) <==> known.paths.contains(t) || t == candidate.path
            &&& crate::text::ascending(now.paths)
            &&& now.examples.len() <= 5
            &&& crate::text::ascending(now.examples)
            &&& now.examples.contains(t) ==> known.examples.contains(t) || t == candidate.value
            &&& (known.examples.contains(t) || t == candidate.value) && !now.examples.contains(t)
                ==> now.examples.len() == 5 && forall|i: int|
                0 <= i < 5 ==> crate::text::precedes(#[trigger] now.examples[i], t)
        }),
{
    let now = crate::attribute_inventory::absorbed(known, candidate);
    vstd::seq_lib::seq_to_set_is_finite(known.paths);
    vstd::seq_lib::seq_to_set_is_finite(known.examples);
    let paths = known.paths.to_set().insert(candidate.path);
    let examples = known.examples.to_set().insert(candidate.value);
    crate::text_laws::sets_are_listed(paths);
    crate::text_laws::sets_are_listed(examples);
    let all = crate::text::sorted_texts(examples);
    kept_five(all);
    assert forall|i: int, j: int| 0 <= i < j < now.examples.len() implies crate::text::precedes(
        #[trigger] now.examples[i],
        #[trigger] now.examples[j],
    ) by {
        assert(crate::text::precedes(all[i], all[j]));
    }
    if now.examples.contains(t) {
        let i = choose|i: int| 0 <= i < now.examples.len() && now.examples[i] == t;
        assert(all[i] == t);
        assert(all.contains(t));
    }
    if (known.examples.contains(t) || t == candidate.value) && !now.examples.contains(t) {
        assert(examples.contains(t));
        assert(all.contains(t));
        let k = choose|k: int| 0 <= k < all.len() && all[k] == t;
        if k < now.examples.len() {
            assert(now.examples[k] == t);
        }
        assert forall|i: int| 0 <= i < 5 implies crate::text::precedes(
            #[trigger] now.examples[i],
            t,
        ) by {
            assert(now.examples[i] == all[i]);
            assert(crate::text::precedes(all[i], all[k]));
        }
    }
}

/// A new attribute has the trimmed name, the identity that the name gives, and just the path and the
/// value of the candidate it was made of; it is reviewed once.
pub proof fn new_attributes_start_with_their_candidate(
    name: Seq<char>,
    candidate: CandidateView,
    t: Seq<char>,
)
    ensures
        ({
            let made = crate::attribute_inventory::new_attribute(name, candidate);
            &&& made.id == crate::attribute_inventory::attribute_id_of(name)
            &&& made.name == crate::text::trimmed(name)
            &&& made.count == 1
            &&& made.paths.contains(t) <==> t == candidate.path
            &&& made.examples.contains(t) <==> t == candidate.value
        }),
{
    let blank = KnownView {
        id: crate::attribute_inventory::attribute_id_of(name),
        name: crate::text::trimmed(name),
        paths: Seq::empty(),
        examples: Seq::empty(),
        count: 0,
    };
    attributes_take_candidates_in(blank, candidate, t);
    let made = crate::attribute_inventory::new_attribute(name, candidate);
    if t == candidate.value && !made.examples.contains(t) {
        assert(crate::text::precedes(made.examples[0], t));
        assert(made.examples.contains(made.examples[0]));
        attributes_take_candidates_in(blank, candidate, made.examples[0]);
        crate::text::precedes_irreflexive(t);
    }
}

/// The attribute of an identity is the first one that has it.
pub proof fn the_first_attribute_of_an_identity_is_found(known: Seq<KnownView>, id: Seq<char>)
    ensures
        match crate::attribute_inventory::attribute_index(known, id) {
            Some(i) => 0 <= i < known.len() && known[i].id == id && forall|j: int|
                0 <= j < i ==> (#[trigger] known[j]).id != id,
            None => forall|j: int| 0 <= j < known.len() ==> (#[trigger] known[j]).id != id,
        },
    decreases known.len(),
{
    if known.len() > 0 {
        let rest = known.drop_last();
        the_first_attribute_of_an_identity_is_found(rest, id);
        assert(forall|j: int| 0 <= j < rest.len() ==> #[trigger] rest[j] == known[j]);
        match crate::attribute_inventory::attribute_index(rest, id) {
            Some(i) => {
                assert(rest[i] == known[i]);
                assert forall|j: int| 0 <= j < i implies (#[trigger] known[j]).id != id by {
                    assert(rest[j].id != id);
                }
            },
            None => {
                assert forall|j: int| 0 <= j < known.len() - 1 implies (#[trigger] known[j]).id
                    != id by {
                    assert(rest[j].id != id);
                }
            },
        }
    }
}

/// An entry of a catalog whose identity is known adds its aliases to the paths of that attribute
/// and fills in a blank name; no other attribute changes. An entry whose identity is not known
/// becomes a new attribute behind the others, reviewed by nobody.
pub proof fn catalog_entries_are_merged_by_identity(
    known: Seq<KnownView>,
    entry: AliasView,
    i: int,
    t: Seq<char>,
)
    requires
        0 <= i < known.len(),
    ensures
        ({
            let now = crate::attribute_inventory::merged_entry(known, entry);
            let absent = forall|j: int| 0 <= j < known.len() ==> (#[trigger] known[j]).id != entry.id;
            let first = known[i].id == entry.id && forall|j: int|
                0 <= j < i ==> (#[trigger] known[j]).id != entry.id;
            &&& absent ==> now.len() == known.len() + 1 && now[i] == known[i]
                && now.last().id == entry.id && now.last().name == entry.name
                && now.last().paths == entry.aliases && now.last().examples == entry.examples
                && now.last().count == 0
            &&& !absent ==> now.len() == known.len()
            &&& !absent && !first ==> now[i] == known[i]
            &&& first ==> now[i].id == known[i].id && now[i].count == known[i].count
                && now[i].name == (if crate::text::blank(known[i].name) {
                entry.name
            } else {
                known[i].name
            }) && (now[i].paths.contains(t) <==> known[i].paths.contains(t)
                || entry.aliases.contains(t)) && now[i].examples.len() <= 5 && (
            now[i].examples.contains(t) ==> known[i].examples.contains(t)
                || entry.examples.contains(t)) && (known[i].examples.len()
                + entry.examples.len() <= 5 && (known[i].examples.contains(t)
                || entry.examples.contains(t)) ==> now[i].examples.contains(t))
        }),
{
    the_first_attribute_of_an_identity_is_found(known, entry.id);
    let now = crate::attribute_inventory::merged_entry(known, entry);
    let index = crate::attribute_inventory::attribute_index(known, entry.id);
    if index is Some {
        let k = index->0;
        assert(known[k].id == entry.id);
        let first = known[i].id == entry.id && forall|j: int|
            0 <= j < i ==> (#[trigger] known[j]).id != entry.id;
        if first {
            if k < i {
                assert(known[k].id != entry.id);
            } else if i < k {
                assert(known[i].id != entry.id);
            }
            vstd::seq_lib::seq_to_set_is_finite(known[i].paths);
            vstd::seq_lib::seq_to_set_is_finite(known[i].examples);
            vstd::seq_lib::seq_to_set_is_finite(entry.aliases);
            vstd::seq_lib::seq_to_set_is_finite(entry.examples);
            let paths = known[i].paths.to_set().union(entry.aliases.to_set());
            let examples = known[i].examples.to_set().union(entry.examples.to_set());
            crate::text_laws::sets_are_listed(paths);
            crate::text_laws::sets_are_listed(examples);
            let all = crate::text::sorted_texts(examples);
            kept_five(all);
            if now[i].examples.contains(t) {
                let m = choose|m: int| 0 <= m < now[i].examples.len() && now[i].examples[m] == t;
                assert(all[m] == t);
                assert(all.contains(t));
            }
            if known[i].examples.len() + entry.examples.len() <= 5 && (known[i].examples.contains(t)
                || entry.examples.contains(t)) {
                listed_sets_are_as_long(examples);
                vstd::set_lib::lemma_len_union(
                    known[i].examples.to_set(),
                    entry.examples.to_set(),
                );
                known[i].examples.lemma_cardinality_of_set();
                entry.examples.lemma_cardinality_of_set();
                assert(all.len() <= 5);
                assert(examples.contains(t));
                assert(all.contains(t));
                let m = choose|m: int| 0 <= m < all.len() && all[m] == t;
                assert(now[i].examples[m] == t);
            }
        } else {
            assert(k != i);
        }
    } else {
        assert(now[i] == known[i]);
    }
}

proof fn listed_sets_are_as_long(set: Set<Seq<char>>)
    requires
        set.finite(),
    ensures
        crate::text::sorted_texts(set).len() == set.len(),
{
    crate::text_laws::sets_are_listed(set);
    let list = crate::text::sorted_texts(set);
    assert forall|i: int, j: int| 0 <= i < list.len() && 0 <= j < list.len() && i != j implies list[i]
        != list[j] by {
        if i < j {
            assert(crate::text::precedes(list[i], list[j]));
        } else {
            assert(crate::text::precedes(list[j], list[i]));
        }
        crate::text::precedes_irreflexive(list[i]);
    }
    assert(list.no_duplicates());
    list.unique_seq_to_set();
    assert(list.to_set() =~= set);
}

/// A catalog is merged entry by entry, in its order.
pub proof fn catalogs_are_merged_in_order(
    known: Seq<KnownView>,
    entries: Seq<AliasView>,
    one: AliasView,
)
    ensures
        crate::attribute_inventory::merged(known, Seq::empty()) == known,
        crate::attribute_inventory::merged(known, entries.push(one))
            == crate::attribute_inventory::merged_entry(
            crate::attribute_inventory::merged(known, entries),
            one,
        ),
{
    assert(entries.push(one).drop_last() =~= entries);
}

/// The entry of an attribute in a catalog has its identity and its name, its paths as aliases and
/// its examples.
pub proof fn catalog_entries_name_their_attribute(known: KnownView)
    ensures
        crate::attribute_inventory::alias_of(known).id == known.id,
        crate::attribute_inventory::alias_of(known).name == known.name,
        crate::attribute_inventory::alias_of(known).aliases == known.paths,
        crate::attribute_inventory::alias_of(known).examples == known.examples,
{
}

/// How often a path occurs.
pub open spec fn times(occurrences: Seq<(Seq<char>, CandidateView)>, path: Seq<char>) -> nat
    decreases occurrences.len(),
{
    if occurrences.len() == 0 {
        0
    } else {
        times(occurrences.drop_last(), path) + if occurrences.last().1.path == path {
            1nat
        } else {
            0nat
        }
    }
}

/// Whether a text occurs in some document at a path, as its document, its place or its value.
pub open spec fn occurs(
    occurrences: Seq<(Seq<char>, CandidateView)>,
    path: Seq<char>,
    document: Option<Seq<char>>,
    source: Option<Seq<char>>,
    value: Option<Seq<char>>,
) -> bool {
    exists|i: int|
        0 <= i < occurrences.len() && (#[trigger] occurrences[i]).1.path == path && (
        document is Some ==> occurrences[i].0 == document->0) && (source is Some
            ==> occurrences[i].1.source == source->0) && (value is Some
            ==> occurrences[i].1.value == value->0)
}

proof fn occurs_in_more(
    occurrences: Seq<(Seq<char>, CandidateView)>,
    path: Seq<char>,
    document: Option<Seq<char>>,
    source: Option<Seq<char>>,
    value: Option<Seq<char>>,
)
    requires
        occurrences.len() > 0,
    ensures
        occurs(occurrences, path, document, source, value) <==> occurs(
            occurrences.drop_last(),
            path,
            document,
            source,
            value,
        ) || (occurrences.last().1.path == path && (document is Some ==> occurrences.last().0
            == document->0) && (source is Some ==> occurrences.last().1.source == source->0) && (
        value is Some ==> occurrences.last().1.value == value->0)),
{
    let rest = occurrences.drop_last();
    assert(forall|i: int| 0 <= i < rest.len() ==> #[trigger] rest[i] == occurrences[i]);
    if occurs(rest, path, document, source, value) {
        let i = choose|i: int|
            0 <= i < rest.len() && (#[trigger] rest[i]).1.path == path && (document is Some
                ==> rest[i].0 == document->0) && (source is Some ==> rest[i].1.source == source->0)
                && (value is Some ==> rest[i].1.value == value->0);
        assert(occurrences[i].1.path == path);
    }
    if occurs(occurrences, path, document, source, value) {
        let i = choose|i: int|
            0 <= i < occurrences.len() && (#[trigger] occurrences[i]).1.path == path && (
            document is Some ==> occurrences[i].0 == document->0) && (source is Some
                ==> occurrences[i].1.source == source->0) && (value is Some
                ==> occurrences[i].1.value == value->0);
        if i < rest.len() {
            assert(rest[i].1.path == path);
        }
    }
    assert(occurrences[occurrences.len() - 1] == occurrences.last());
}

proof fn added_once(list: Seq<Seq<char>>, t: Seq<char>, u: Seq<char>)
    ensures
        crate::attribute_inventory::with_text(list, t).contains(u) <==> list.contains(u) || u == t,
        list.no_duplicates() ==> crate::attribute_inventory::with_text(list, t).no_duplicates(),
        list.len() <= crate::attribute_inventory::with_text(list, t).len() <= list.len() + 1,
{
    let now = crate::attribute_inventory::with_text(list, t);
    if !list.contains(t) {
        assert(now[list.len() as int] == t);
        if list.contains(u) {
            let i = choose|i: int| 0 <= i < list.len() && list[i] == u;
            assert(now[i] == u);
        }
    }
}

/// The group of a path is there where the path occurs; it counts the occurrences, lists each of
/// their documents and places once, and of their values the first eight different ones.
pub proof fn groups_gather_what_stands_at_their_path(
    occurrences: Seq<(Seq<char>, CandidateView)>,
    path: Seq<char>,
    t: Seq<char>,
)
    ensures
        crate::attribute_inventory::group_at(occurrences, path) is Some <==> times(
            occurrences,
            path,
        ) > 0,
        crate::attribute_inventory::group_at(occurrences, path) matches Some(group) ==> {
            &&& group.count == times(occurrences, path)
            &&& group.documents.no_duplicates()
            &&& group.documents.contains(t) <==> occurs(occurrences, path, Some(t), None, None)
            &&& group.sources.no_duplicates()
            &&& group.sources.contains(t) <==> occurs(occurrences, path, None, Some(t), None)
            &&& group.examples.no_duplicates()
            &&& group.examples.len() <= 8
            &&& group.examples.contains(t) ==> occurs(occurrences, path, None, None, Some(t))
            &&& occurs(occurrences, path, None, None, Some(t)) && !group.examples.contains(t)
                ==> group.examples.len() == 8
        },
        crate::attribute_inventory::group_at(occurrences, path) is None ==> !occurs(
            occurrences,
            path,
            Some(t),
            None,
            None,
        ) && !occurs(occurrences, path, None, Some(t), None) && !occurs(
            occurrences,
            path,
            None,
            None,
            Some(t),
        ),
    decreases occurrences.len(),
{
    if occurrences.len() > 0 {
        let rest = occurrences.drop_last();
        groups_gather_what_stands_at_their_path(rest, path, t);
        occurs_in_more(occurrences, path, Some(t), None, None);
        occurs_in_more(occurrences, path, None, Some(t), None);
        occurs_in_more(occurrences, path, None, None, Some(t));
        let (document, candidate) = occurrences.last();
        match crate::attribute_inventory::group_at(rest, path) {
            Some(group) => {
                added_once(group.documents, document, t);
                added_once(group.sources, candidate.source, t);
                added_once(group.examples, candidate.value, t);
            },
            None => {
                added_once(Seq::empty(), document, t);
                added_once(Seq::empty(), candidate.source, t);
                added_once(Seq::empty(), candidate.value, t);
            },
        }
    }
}

/// A group carries the label and the kind of the first text at its path.
pub proof fn groups_are_labelled_by_their_first_text(
    occurrences: Seq<(Seq<char>, CandidateView)>,
    path: Seq<char>,
    n: int,
)
    requires
        0 <= n < occurrences.len(),
        occurrences[n].1.path == path,
        forall|i: int| 0 <= i < n ==> (#[trigger] occurrences[i]).1.path != path,
    ensures
        crate::attribute_inventory::group_at(occurrences, path) is Some,
        crate::attribute_inventory::group_at(occurrences, path)->0.label == occurrences[n].1.label,
        crate::attribute_inventory::group_at(occurrences, path)->0.kind == occurrences[n].1.kind,
    decreases occurrences.len(),
{
    let rest = occurrences.drop_last();
    assert(forall|i: int| 0 <= i < rest.len() ==> #[trigger] rest[i] == occurrences[i]);
    if n < rest.len() {
        assert(rest[n].1.path == path);
        assert forall|i: int| 0 <= i < n implies (#[trigger] rest[i]).1.path != path by {
            assert(occurrences[i].1.path != path);
        }
        groups_are_labelled_by_their_first_text(rest, path, n);
    } else {
        assert forall|i: int| 0 <= i < rest.len() implies (#[trigger] rest[i]).1.path != path by {
            assert(occurrences[i].1.path != path);
        }
        absent_paths_have_no_group(rest, path);
    }
}

proof fn absent_paths_have_no_group(occurrences: Seq<(Seq<char>, CandidateView)>, path: Seq<char>)
    requires
        forall|i: int| 0 <= i < occurrences.len() ==> (#[trigger] occurrences[i]).1.path != path,
    ensures
        crate::attribute_inventory::group_at(occurrences, path) is None,
    decreases occurrences.len(),
{
    if occurrences.len() > 0 {
        let rest = occurrences.drop_last();
        assert forall|i: int| 0 <= i < rest.len() implies (#[trigger] rest[i]).1.path != path by {
            assert(occurrences[i].1.path != path);
        }
        assert(occurrences[occurrences.len() - 1].1.path != path);
        absent_paths_have_no_group(rest, path);
    }
}

/// All occurrences are those of the documents in order, each text under the key of its document.
pub proof fn occurrences_follow_their_documents(
    documents: Seq<AttributeInventoryDocument>,
    one: AttributeInventoryDocument,
    k: int,
)
    requires
        0 <= k < one.candidates@.len(),
    ensures
        crate::attribute_inventory::all_occurrences(documents.push(one)).len()
            == crate::attribute_inventory::all_occurrences(documents).len()
            + one.candidates@.len(),
        crate::attribute_inventory::all_occurrences(
            documents.push(one),
        )[crate::attribute_inventory::all_occurrences(documents).len() + k] == (
            one.document_key@,
            one.candidates@[k]@,
        ),
        forall|i: int|
            0 <= i < crate::attribute_inventory::all_occurrences(documents).len()
                ==> #[trigger] crate::attribute_inventory::all_occurrences(documents.push(one))[i]
                == crate::attribute_inventory::all_occurrences(documents)[i],
{
    assert(documents.push(one).drop_last() =~= documents);
}

/// A row of digits is the count that it stands for, as far as a count goes; one that stands for
/// more is too large, and one with anything else among its digits is refused.
pub proof fn counts_are_what_their_digits_stand_for(digits: Seq<char>)
    ensures
        ({
            let plain = forall|i: int|
                0 <= i < digits.len() ==> '0' <= #[trigger] digits[i] && digits[i] <= '9';
            let n = crate::text_laws::number_of(digits);
            &&& plain ==> n >= 0
            &&& plain && n <= usize::MAX ==> crate::attribute_inventory::digits_value(digits)
                == Ok::<nat, CountError>(n as nat)
            &&& plain && n > usize::MAX ==> crate::attribute_inventory::digits_value(digits)
                == Err::<nat, CountError>(CountError::TooLarge)
            &&& !plain ==> crate::attribute_inventory::digits_value(digits) is Err
        }),
    decreases digits.len(),
{
    if digits.len() > 0 {
        let rest = digits.drop_last();
        counts_are_what_their_digits_stand_for(rest);
        assert(forall|i: int| 0 <= i < rest.len() ==> #[trigger] rest[i] == digits[i]);
        let c = digits[digits.len() - 1];
        if forall|i: int|
            0 <= i < digits.len() ==> '0' <= #[trigger] digits[i] && digits[i] <= '9' {
            assert('0' <= c && c <= '9');
            assert(crate::text_laws::digit_value(c) == c as int - '0' as int);
        } else if forall|i: int| 0 <= i < rest.len() ==> '0' <= #[trigger] rest[i] && rest[i] <= '9' {
            assert(!('0' <= c && c <= '9')) by {
                if '0' <= c && c <= '9' {
                    assert forall|i: int| 0 <= i < digits.len() implies '0' <= #[trigger] digits[i]
                        && digits[i] <= '9' by {
                        if i < rest.len() {
                            assert('0' <= rest[i] && rest[i] <= '9');
                        }
                    }
                }
            }
        }
    }
}

/// A count may have one plus sign before its digits and needs at least one digit.
pub proof fn counts_may_have_a_plus_sign(digits: Seq<char>)
    ensures
        crate::attribute_inventory::count_value(Seq::empty()) == Err::<nat, CountError>(
            CountError::Empty,
        ),
        crate::attribute_inventory::count_value(seq!['+']) == Err::<nat, CountError>(
            CountError::InvalidDigit,
        ),
        digits.len() > 0 ==> crate::attribute_inventory::count_value(seq!['+'] + digits)
            == crate::attribute_inventory::digits_value(digits),
        digits.len() > 0 && digits[0] != '+' ==> crate::attribute_inventory::count_value(digits)
            == crate::attribute_inventory::digits_value(digits),
{
    assert((seq!['+'] + digits).skip(1) =~= digits);
}

/// A line asks for help where it is blank or says so, for the next candidate or for the end where it
/// says so, in letters of any size.
pub proof fn lines_ask_by_word(line: Seq<char>)
    ensures
        ({
            let s = crate::text::trimmed(line);
            let word = crate::text::lowered(s);
            let asked = crate::attribute_inventory::command_of(line);
            &&& s.len() == 0 || s == seq!['?'] || word == seq!['h', 'e', 'l', 'p'] <==> asked == Ok::<
                CommandView,
                Seq<char>,
            >(CommandView::Help)
            &&& word == seq!['s'] || word == seq!['s', 'k', 'i', 'p'] <==> asked == Ok::<
                CommandView,
                Seq<char>,
            >(CommandView::Skip)
            &&& word == seq!['q'] || word == seq!['q', 'u', 'i', 't'] <==> asked == Ok::<
                CommandView,
                Seq<char>,
            >(CommandView::Quit)
        }),
{
    reveal_strlit("?");
    reveal_strlit("help");
    reveal_strlit("s");
    reveal_strlit("skip");
    reveal_strlit("q");
    reveal_strlit("quit");
    let s = crate::text::trimmed(line);
    let word = crate::text::lowered(s);
    assert("?"@ =~= seq!['?']);
    assert(crate::text::lowered("help"@) =~= seq!['h', 'e', 'l', 'p']);
    assert(crate::text::lowered("s"@) =~= seq!['s']);
    assert(crate::text::lowered("skip"@) =~= seq!['s', 'k', 'i', 'p']);
    assert(crate::text::lowered("q"@) =~= seq!['q']);
    assert(crate::text::lowered("quit"@) =~= seq!['q', 'u', 'i', 't']);
    assert(word.len() == s.len());
    if word.len() > 0 {
        assert(word[0] == crate::text::lower(s[0]));
    }
    assert(seq!['?'][0] != 's' && seq!['?'][0] != 'q');
    assert(seq!['s'].len() == 1 && seq!['q'].len() == 1 && seq!['s'][0] == 's' && seq!['q'][0]
        == 'q');
    assert(seq!['s', 'k', 'i', 'p'][0] == 's' && seq!['q', 'u', 'i', 't'][0] == 'q' && seq![
        'h',
        'e',
        'l',
        'p',
    ][0] == 'h');
}

/// A line that is no word picks the suggestion of its number, counted from one; behind an `e` it
/// names an attribute and behind an `n` a new one; any other line is answered with what there is to
/// say.
pub proof fn lines_pick_or_name(line: Seq<char>)
    requires
        crate::attribute_inventory::command_of(line) != Ok::<CommandView, Seq<char>>(
            CommandView::Help,
        ),
        crate::attribute_inventory::command_of(line) != Ok::<CommandView, Seq<char>>(
            CommandView::Skip,
        ),
        crate::attribute_inventory::command_of(line) != Ok::<CommandView, Seq<char>>(
            CommandView::Quit,
        ),
    ensures
        ({
            let s = crate::text::trimmed(line);
            let count = crate::attribute_inventory::count_value(s);
            let asked = crate::attribute_inventory::command_of(line);
            let lettered = s.len() >= 2 && s[1] == ' ';
            let rest = crate::text::trimmed(s.skip(2));
            &&& count matches Ok(n) ==> asked == if n == 0 {
                Err::<CommandView, Seq<char>>("suggestion index starts at 1"@)
            } else {
                Ok(CommandView::PickSuggestion(n as usize))
            }
            &&& count is Err && lettered && s[0] == 'e' ==> asked == if rest.len() == 0 {
                Err::<CommandView, Seq<char>>("usage: e <attribute-id>"@)
            } else {
                Ok(CommandView::MapExisting(rest))
            }
            &&& count is Err && lettered && s[0] == 'n' ==> asked == if rest.len() == 0 {
                Err::<CommandView, Seq<char>>("usage: n <attribute display name>"@)
            } else {
                Ok(CommandView::CreateNew(rest))
            }
            &&& count is Err && !(lettered && (s[0] == 'e' || s[0] == 'n')) ==> asked == Err::<
                CommandView,
                Seq<char>,
            >("commands: <number>, e <attribute-id>, n <name>, s, q, ?"@)
        }),
{
    reveal_strlit("e ");
    reveal_strlit("n ");
    lines_ask_by_word(line);
    let s = crate::text::trimmed(line);
    if s.len() >= 2 {
        assert(s.take(2) =~= seq![s[0], s[1]]);
        assert("e "@ =~= seq!['e', ' ']);
        assert("n "@ =~= seq!['n', ' ']);
        assert(s.take(2)[0] == s[0] && s.take(2)[1] == s[1]);
        assert("e "@[0] == 'e' && "e "@[1] == ' ' && "n "@[0] == 'n' && "n "@[1] == ' ');
    }
}

} // verus!
