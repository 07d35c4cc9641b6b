//! The inventory of attributes: what texts profiles hold, which attribute each belongs to, and the
//! review in which a person decides it.

use vstd::prelude::*;
use vstd::string::*;

use crate::json::{entry, object, opt_text, text, Json, JsonView};
use crate::profile::{profile_json, PersonProfile};
use crate::sorting::{sort, Ranked};
use crate::text::{
    copy_texts,     char_is_alnum, char_is_lower, char_is_upper, char_lower, char_upper, chars_of, contains_char,
    decimal_text, insert_text, is_blank, starts_with, str_eq, str_precedes, string_of,
    strip_prefix, trim,
};
use crate::text_map::TextMap;
use crate::time::Timestamp;

verus! {

/// What kind of text a value is.
#[derive(Debug, Clone, Copy, PartialEq, Eq, Structural)]
pub enum CandidateValueKind {
    ShortText,
    LongText,
    Url,
}

/// A text found in a profile.
#[derive(Debug, PartialEq, Eq)]
pub struct AttributeCandidate {
    pub candidate_key: String,
    pub attribute_path: String,
    pub source_path: String,
    pub label: String,
    pub value: String,
    pub value_kind: CandidateValueKind,
}

/// What a candidate says.
pub struct CandidateView {
    pub key: Seq<char>,
    pub path: Seq<char>,
    pub source: Seq<char>,
    pub label: Seq<char>,
    pub value: Seq<char>,
    pub kind: CandidateValueKind,
}

impl View for AttributeCandidate {
    type V = CandidateView;

    open spec fn view(&self) -> CandidateView {
        CandidateView {
            key: self.candidate_key@,
            path: self.attribute_path@,
            source: self.source_path@,
            label: self.label@,
            value: self.value@,
            kind: self.value_kind,
        }
    }
}

/// What candidates say.
pub open spec fn candidate_views(list: Seq<AttributeCandidate>) -> Seq<CandidateView> {
    list.map_values(|c: AttributeCandidate| c@)
}

/// The kind of a value: a web address, a text of more than 120 bytes or of several lines, or a
/// short one.
pub open spec fn kind_of(value: Seq<char>) -> CandidateValueKind {
    if crate::text::begins(value, "http://"@) || crate::text::begins(value, "https://"@) {
        CandidateValueKind::Url
    } else if vstd::utf8::encode_utf8(value).len() > 120 || value.contains('\n') {
        CandidateValueKind::LongText
    } else {
        CandidateValueKind::ShortText
    }
}

fn classify_value_kind(value: &str) -> (r: CandidateValueKind)
    ensures
        r == kind_of(value@),
{
    if starts_with(value, "http://") || starts_with(value, "https://") {
        CandidateValueKind::Url
    } else if value.as_bytes().len() > 120 || contains_char(value, '\n') {
        CandidateValueKind::LongText
    } else {
        CandidateValueKind::ShortText
    }
}

/// The state in which the letters of a path segment are rewritten.
pub struct SegmentState {
    pub text: Seq<char>,
    pub after_separator: bool,
    pub after_lower: bool,
}

/// A path segment after one more character: letters and digits are kept in small letters, with an
/// underscore between a small letter and a capital, and anything else is one underscore.
pub open spec fn segment_step(state: SegmentState, c: char) -> SegmentState {
    if crate::text::is_alnum(c) {
        let spaced = if crate::text::is_upper(c) && state.after_lower && !(state.text.len() > 0
            && state.text.last() == '_') {
            state.text.push('_')
        } else {
            state.text
        };
        SegmentState {
            text: spaced.push(crate::text::lower(c)),
            after_separator: false,
            after_lower: crate::text::is_lower(c),
        }
    } else if !state.after_separator && state.text.len() > 0 {
        SegmentState { text: state.text.push('_'), after_separator: true, after_lower: false }
    } else {
        state
    }
}

/// A path segment after all its characters.
pub open spec fn segment_state(key: Seq<char>) -> SegmentState
    decreases key.len(),
{
    if key.len() == 0 {
        SegmentState { text: Seq::empty(), after_separator: false, after_lower: false }
    } else {
        segment_step(segment_state(key.drop_last()), key.last())
    }
}

/// A text without a character at its start.
pub open spec fn without_leading(s: Seq<char>, c: char) -> Seq<char>
    decreases s.len(),
{
    if s.len() > 0 && s[0] == c {
        without_leading(s.drop_first(), c)
    } else {
        s
    }
}

/// A text without a character at its end.
pub open spec fn without_trailing(s: Seq<char>, c: char) -> Seq<char>
    decreases s.len(),
{
    if s.len() > 0 && s.last() == c {
        without_trailing(s.drop_last(), c)
    } else {
        s
    }
}

/// A text without a character at both its ends.
pub open spec fn without_around(s: Seq<char>, c: char) -> Seq<char> {
    without_trailing(without_leading(s, c), c)
}

fn trim_char(chars: &Vec<char>, c: char) -> (r: String)
    ensures
        r@ == without_around(chars@, c),
{
    let mut start: usize = 0;
    let mut end: usize = chars.len();
    assert(chars@.skip(0) =~= chars@);
    while start < end && chars[start] == c
        invariant
            start <= end,
            end == chars.len(),
            without_leading(chars@, c) == without_leading(chars@.skip(start as int), c),
        decreases end - start,
    {
        assert(chars@.skip(start as int).drop_first() =~= chars@.skip(start + 1));
        start = start + 1;
    }
    let ghost rest = chars@.skip(start as int);
    assert(chars@.subrange(start as int, end as int) =~= rest);
    while start < end && chars[end - 1] == c
        invariant
            start <= end,
            end <= chars.len(),
            rest == chars@.skip(start as int),
            without_trailing(rest, c) == without_trailing(
                chars@.subrange(start as int, end as int),
                c,
            ),
        decreases end - start,
    {
        let ghost now = chars@.subrange(start as int, end as int);
        assert(now.drop_last() =~= chars@.subrange(start as int, end - 1));
        assert(now.last() == chars@[end - 1]);
        end = end - 1;
    }
    let ghost kept = chars@.subrange(start as int, end as int);
    assert(start < end ==> kept.last() == chars@[end - 1]);
    let mut out = String::new();
    let mut i: usize = start;
    while i < end
        invariant
            start <= i <= end,
            end <= chars.len(),
            kept == chars@.subrange(start as int, end as int),
            out@ == kept.take(i - start),
        decreases end - i,
    {
        out.push(chars[i]);
        assert(out@ =~= kept.take(i + 1 - start));
        i = i + 1;
    }
    assert(kept.take(i - start) =~= kept);
    out
}

/// The canonical form of a path segment.
pub open spec fn canonical_segment(key: Seq<char>) -> Seq<char> {
    without_around(segment_state(key).text, '_')
}

/// The canonical form of a path segment.
pub fn canonicalize_segment(key: &str) -> (r: String)
    ensures
        r@ == canonical_segment(key@),
{
    let chars = chars_of(key);
    let mut normalized: Vec<char> = Vec::new();
    let mut after_separator = false;
    let mut after_lower = false;
    let mut i: usize = 0;
    while i < chars.len()
        invariant
            i <= chars.len(),
            chars@ == key@,
            segment_state(key@.take(i as int)) == (SegmentState {
                text: normalized@,
                after_separator,
                after_lower,
            }),
        decreases chars.len() - i,
    {
        assert(key@.take(i + 1).drop_last() =~= key@.take(i as int));
        assert(key@.take(i + 1).last() == key@[i as int]);
        let c = chars[i];
        if char_is_alnum(c) {
            let n: usize = normalized.len();
            if char_is_upper(c) && after_lower && !(n > 0 && normalized[n - 1] == '_') {
                normalized.push('_');
            }
            normalized.push(char_lower(c));
            after_separator = false;
            after_lower = char_is_lower(c);
        } else if !after_separator && normalized.len() > 0 {
            normalized.push('_');
            after_separator = true;
            after_lower = false;
        }
        i = i + 1;
    }
    assert(key@.take(i as int) =~= key@);
    trim_char(&normalized, '_')
}

/// The letters and digits of a key, in order and in small letters.
pub open spec fn small_letters(key: Seq<char>) -> Seq<char>
    decreases key.len(),
{
    if key.len() == 0 {
        Seq::empty()
    } else if crate::text::is_alnum(key.last()) {
        small_letters(key.drop_last()).push(crate::text::lower(key.last()))
    } else {
        small_letters(key.drop_last())
    }
}

/// A text without its underscores.
pub open spec fn unspaced(s: Seq<char>) -> Seq<char>
    decreases s.len(),
{
    if s.len() == 0 {
        Seq::empty()
    } else if s.last() == '_' {
        unspaced(s.drop_last())
    } else {
        unspaced(s.drop_last()).push(s.last())
    }
}

/// Whether a text holds only small letters, digits and underscores, of which none comes first and
/// no two stand together.
pub open spec fn evenly_spaced(s: Seq<char>) -> bool {
    &&& forall|i: int|
        0 <= i < s.len() ==> crate::text::is_lower(#[trigger] s[i]) || crate::text::is_digit(s[i])
            || s[i] == '_'
    &&& s.len() > 0 ==> s[0] != '_'
    &&& forall|i: int, j: int|
        #![trigger s[i], s[j]]
        0 <= i && j == i + 1 && j < s.len() ==> !(s[i] == '_' && s[j] == '_')
}

proof fn segment_facts(key: Seq<char>)
    ensures
        ({
            let state = segment_state(key);
            &&& evenly_spaced(state.text)
            &&& state.after_separator <==> state.text.len() > 0 && state.text.last() == '_'
            &&& state.after_lower ==> state.text.len() > 0
            &&& unspaced(state.text) == small_letters(key)
        }),
    decreases key.len(),
{
    if key.len() > 0 {
        segment_facts(key.drop_last());
        let before = segment_state(key.drop_last());
        let c = key.last();
        let after = segment_state(key);
        if crate::text::is_alnum(c) {
            let small = crate::text::lower(c);
            assert(crate::text::is_lower(small) || crate::text::is_digit(small));
            let spaced = after.text.drop_last();
            if spaced.len() > before.text.len() {
                assert(spaced =~= before.text.push('_'));
                assert(spaced.drop_last() =~= before.text);
            } else {
                assert(spaced =~= before.text);
            }
            assert(unspaced(spaced) == unspaced(before.text));
        } else if !before.after_separator && before.text.len() > 0 {
            assert(after.text.drop_last() =~= before.text);
        }
    }
}

proof fn spaced_text_is_kept(s: Seq<char>)
    requires
        evenly_spaced(s),
    ensures
        segment_state(s).text == s,
    decreases s.len(),
{
    if s.len() > 0 {
        let init = s.drop_last();
        assert forall|i: int, j: int|
            #![trigger init[i], init[j]]
            0 <= i && j == i + 1 && j < init.len() implies !(init[i] == '_' && init[j] == '_') by {
            assert(init[i] == s[i] && init[j] == s[j]);
        }
        assert forall|i: int| 0 <= i < init.len() implies crate::text::is_lower(
            #[trigger] init[i],
        ) || crate::text::is_digit(init[i]) || init[i] == '_' by {
            assert(init[i] == s[i]);
        }
        spaced_text_is_kept(init);
        segment_facts(init);
        let c = s[s.len() - 1];
        assert(s.last() == c);
        if c == '_' {
            assert(init.len() > 0);
            assert(s[s.len() - 2] == init.last());
            assert(segment_state(s).text =~= s);
        } else {
            assert(segment_state(s).text =~= s);
        }
    }
}

/// A canonical segment holds only small letters, digits and underscores; none of these comes first
/// or last and no two stand together. Making it canonical again changes nothing, and without its
/// underscores it is the letters and digits of the key, in order and in small letters.
pub proof fn segments_are_canonical(key: Seq<char>)
    ensures
        evenly_spaced(canonical_segment(key)),
        canonical_segment(key).len() > 0 ==> canonical_segment(key).last() != '_',
        canonical_segment(canonical_segment(key)) == canonical_segment(key),
        unspaced(canonical_segment(key)) == small_letters(key),
{
    let text = segment_state(key).text;
    segment_facts(key);
    assert(without_leading(text, '_') == text);
    let s = canonical_segment(key);
    if text.len() > 0 && text.last() == '_' {
        let init = text.drop_last();
        assert(init.len() > 0);
        assert(text[text.len() - 2] == init.last() && text[text.len() - 1] == '_');
        assert(without_trailing(init, '_') == init);
        assert(s == init);
        assert forall|i: int| 0 <= i < init.len() implies crate::text::is_lower(
            #[trigger] init[i],
        ) || crate::text::is_digit(init[i]) || init[i] == '_' by {
            assert(init[i] == text[i]);
        }
        assert forall|i: int, j: int|
            #![trigger init[i], init[j]]
            0 <= i && j == i + 1 && j < init.len() implies !(init[i] == '_' && init[j] == '_') by {
            assert(init[i] == text[i] && init[j] == text[j]);
        }
    } else {
        assert(s == text);
    }
    spaced_text_is_kept(s);
    assert(without_leading(s, '_') == s);
}

/// What follows the last dot of a text, or all of a text without a dot.
pub open spec fn last_segment(s: Seq<char>) -> Seq<char>
    decreases s.len(),
{
    if s.len() == 0 || s.last() == '.' {
        Seq::empty()
    } else {
        last_segment(s.drop_last()).push(s.last())
    }
}

fn last_segment_of(value: &str) -> (r: Vec<char>)
    ensures
        r@ == last_segment(value@),
{
    let chars = chars_of(value);
    let mut out: Vec<char> = Vec::new();
    let mut i: usize = 0;
    while i < chars.len()
        invariant
            i <= chars.len(),
            chars@ == value@,
            out@ == last_segment(value@.take(i as int)),
        decreases chars.len() - i,
    {
        assert(value@.take(i + 1).drop_last() =~= value@.take(i as int));
        assert(value@.take(i + 1).last() == value@[i as int]);
        if chars[i] == '.' {
            out = Vec::new();
        } else {
            out.push(chars[i]);
        }
        i = i + 1;
    }
    assert(value@.take(i as int) =~= value@);
    out
}

/// A text without its pairs of brackets, and with spaces for underscores.
pub open spec fn readable(s: Seq<char>) -> Seq<char>
    decreases s.len(),
{
    if s.len() == 0 {
        s
    } else if s.len() >= 2 && s[0] == '[' && s[1] == ']' {
        readable(s.skip(2))
    } else {
        seq![
            if s[0] == '_' {
                ' '
            } else {
                s[0]
            },
        ] + readable(s.skip(1))
    }
}

/// The label of an attribute path: its last segment, readable and with a capital.
pub open spec fn label_of(path: Seq<char>) -> Seq<char> {
    let leaf = readable(last_segment(path));
    if leaf.len() == 0 {
        "Value"@
    } else {
        seq![crate::text::upper(leaf[0])] + leaf.skip(1)
    }
}

fn label_for_attribute_path(attribute_path: &str) -> (r: String)
    ensures
        r@ == label_of(attribute_path@),
{
    let segment = last_segment_of(attribute_path);
    let ghost whole = last_segment(attribute_path@);
    let mut out: Vec<char> = Vec::new();
    let mut i: usize = 0;
    assert(whole.skip(0) =~= whole);
    while i < segment.len()
        invariant
            i <= segment.len(),
            segment@ == whole,
            readable(whole) == out@ + readable(whole.skip(i as int)),
        decreases segment.len() - i,
    {
        let ghost rest = whole.skip(i as int);
        if segment.len() - i >= 2 && segment[i] == '[' && segment[i + 1] == ']' {
            assert(rest.skip(2) =~= whole.skip(i + 2));
            i = i + 2;
        } else {
            assert(rest.skip(1) =~= whole.skip(i + 1));
            let ghost before = out@;
            let c = if segment[i] == '_' {
                ' '
            } else {
                segment[i]
            };
            out.push(c);
            assert(out@ + readable(whole.skip(i + 1)) =~= before + (seq![c] + readable(
                whole.skip(i + 1),
            )));
            i = i + 1;
        }
    }
    assert(readable(whole.skip(i as int)) =~= Seq::<char>::empty());
    assert(out@ =~= readable(whole));
    if out.len() == 0 {
        return "Value".to_owned();
    }
    let mut label = String::new();
    label.push(char_upper(out[0]));
    let mut k: usize = 1;
    assert(label@ =~= seq![crate::text::upper(out@[0])] + out@.skip(1).take(0));
    while k < out.len()
        invariant
            1 <= k <= out.len(),
            label@ == seq![crate::text::upper(out@[0])] + out@.skip(1).take(k - 1),
        decreases out.len() - k,
    {
        label.push(out[k]);
        assert(label@ =~= seq![crate::text::upper(out@[0])] + out@.skip(1).take(k as int));
        k = k + 1;
    }
    assert(out@.skip(1).take(k - 1) =~= out@.skip(1));
    label
}

/// The letters and digits of the last segment of a text, in small letters.
pub open spec fn leaf_of(value: Seq<char>) -> Seq<char> {
    crate::text::lowered(last_segment(value).filter(|c: char| crate::text::is_alnum(c)))
}

fn normalized_leaf(value: &str) -> (r: String)
    ensures
        r@ == leaf_of(value@),
{
    let segment = last_segment_of(value);
    let ghost whole = last_segment(value@);
    let ghost wanted = |c: char| crate::text::is_alnum(c);
    let mut out = String::new();
    let mut i: usize = 0;
    assert(crate::text::lowered(whole.take(0).filter(wanted)) =~= Seq::<char>::empty()) by {
        reveal(Seq::filter);
    }
    while i < segment.len()
        invariant
            i <= segment.len(),
            segment@ == whole,
            wanted == (|c: char| crate::text::is_alnum(c)),
            out@ == crate::text::lowered(whole.take(i as int).filter(wanted)),
        decreases segment.len() - i,
    {
        proof {
            reveal(Seq::filter);
            assert(whole.take(i + 1).drop_last() =~= whole.take(i as int));
            assert(whole.take(i + 1).last() == whole[i as int]);
        }
        if char_is_alnum(segment[i]) {
            let ghost before = whole.take(i as int).filter(wanted);
            out.push(char_lower(segment[i]));
            assert(out@ =~= crate::text::lowered(before.push(whole[i as int])));
        }
        i = i + 1;
    }
    assert(whole.take(i as int) =~= whole);
    out
}

/// The identity that a name gives: its letters and digits in small letters, with one dash for
/// whatever stands between them.
pub open spec fn id_state(name: Seq<char>) -> (Seq<char>, bool)
    decreases name.len(),
{
    if name.len() == 0 {
        (Seq::empty(), false)
    } else {
        let (id, after_dash) = id_state(name.drop_last());
        if crate::text::is_alnum(name.last()) {
            (id.push(crate::text::lower(name.last())), false)
        } else if !after_dash && id.len() > 0 {
            (id.push('-'), true)
        } else {
            (id, after_dash)
        }
    }
}

/// The identity of an attribute of a name.
pub open spec fn attribute_id_of(name: Seq<char>) -> Seq<char> {
    without_around(id_state(crate::text::trimmed(name)).0, '-')
}

fn normalize_attribute_id(value: &str) -> (r: String)
    ensures
        r@ == attribute_id_of(value@),
{
    let name = trim(value);
    let chars = chars_of(name);
    let mut id: Vec<char> = Vec::new();
    let mut after_dash = false;
    let mut i: usize = 0;
    while i < chars.len()
        invariant
            i <= chars.len(),
            chars@ == name@,
            id_state(name@.take(i as int)) == (id@, after_dash),
        decreases chars.len() - i,
    {
        assert(name@.take(i + 1).drop_last() =~= name@.take(i as int));
        assert(name@.take(i + 1).last() == name@[i as int]);
        if char_is_alnum(chars[i]) {
            id.push(char_lower(chars[i]));
            after_dash = false;
        } else if !after_dash && id.len() > 0 {
            id.push('-');
            after_dash = true;
        }
        i = i + 1;
    }
    assert(name@.take(i as int) =~= name@);
    trim_char(&id, '-')
}

/// The paths that hold records of the system and no attributes of a person.
pub open spec fn metadata_path(path: Seq<char>) -> bool {
    path == "profile.source_slide_object_id"@ || path == "profile.source_document_id"@ || path
        == "profile.source_canonical_uri"@ || path == "profile.thumbnail_blob_ref"@ || path
        == "profile.thumbnail_url"@ || path == "profile.companion_to_slide_object_id"@ || path
        == "profile.profile_pic.url"@ || path == "profile.gallery_images[].url"@
}

fn is_metadata_path(path: &str) -> (r: bool)
    ensures
        r == metadata_path(path@),
{
    str_eq(path, "profile.source_slide_object_id") || str_eq(path, "profile.source_document_id")
        || str_eq(path, "profile.source_canonical_uri") || str_eq(
        path,
        "profile.thumbnail_blob_ref",
    ) || str_eq(path, "profile.thumbnail_url") || str_eq(
        path,
        "profile.companion_to_slide_object_id",
    ) || str_eq(path, "profile.profile_pic.url") || str_eq(path, "profile.gallery_images[].url")
}

/// A path with one more member name.
pub open spec fn with_member(base: Seq<char>, name: Seq<char>) -> Seq<char> {
    if base.len() == 0 {
        name
    } else {
        base + "."@ + name
    }
}

/// A path with the place in a list.
pub open spec fn with_place(base: Seq<char>, index: nat) -> Seq<char> {
    base + "["@ + crate::text::decimal(index) + "]"@
}

/// A path with any place in a list.
pub open spec fn with_any_place(base: Seq<char>) -> Seq<char> {
    base + "[]"@
}

/// The candidate of a text found at a path; blank texts and records of the system are none.
pub open spec fn text_candidates(raw: Seq<char>, source: Seq<char>, path: Seq<char>) -> Seq<
    CandidateView,
> {
    let value = crate::text::trimmed(raw);
    if value.len() == 0 || metadata_path(path) {
        Seq::empty()
    } else {
        seq![
            CandidateView {
                key: source + "="@ + value,
                path,
                source,
                label: label_of(path),
                value,
                kind: kind_of(value),
            },
        ]
    }
}

/// The candidates of a JSON value at a path, in the order in which they stand.
pub open spec fn candidates_of(value: JsonView, source: Seq<char>, path: Seq<char>) -> Seq<
    CandidateView,
>
    decreases value, 0nat,
{
    match value {
        JsonView::Str(raw) => text_candidates(raw, source, path),
        JsonView::Array(items) => array_candidates(items, items.len(), source, path),
        JsonView::Object(members) => object_candidates(members, members.len(), source, path),
        _ => Seq::empty(),
    }
}

/// The candidates of the first `n` items of a list.
pub open spec fn array_candidates(
    items: Seq<JsonView>,
    n: nat,
    source: Seq<char>,
    path: Seq<char>,
) -> Seq<CandidateView>
    decreases items, n,
{
    if n == 0 || n > items.len() {
        Seq::empty()
    } else {
        array_candidates(items, (n - 1) as nat, source, path) + candidates_of(
            items[n - 1],
            with_place(source, (n - 1) as nat),
            with_any_place(path),
        )
    }
}

/// The candidates of the first `n` members of an object.
pub open spec fn object_candidates(
    members: Seq<(Seq<char>, JsonView)>,
    n: nat,
    source: Seq<char>,
    path: Seq<char>,
) -> Seq<CandidateView>
    decreases members, n,
{
    if n == 0 || n > members.len() {
        Seq::empty()
    } else {
        object_candidates(members, (n - 1) as nat, source, path) + candidates_of(
            members[n - 1].1,
            with_member(source, members[n - 1].0),
            with_member(path, canonical_segment(members[n - 1].0)),
        )
    }
}

fn append_object_segment(base: &str, key: &str) -> (r: String)
    ensures
        r@ == with_member(base@, key@),
{
    if base.is_empty() {
        key.to_owned()
    } else {
        let mut out = base.to_owned();
        out.append(".");
        out.append(key);
        out
    }
}

/// Collects the texts of a JSON value.
fn collect_string_candidates(
    value: &Json,
    source_path: &str,
    attribute_path: &str,
    out: &mut Vec<AttributeCandidate>,
)
    ensures
        candidate_views(final(out)@) == candidate_views(old(out)@) + candidates_of(
            value@,
            source_path@,
            attribute_path@,
        ),
    decreases value,
{
    match value {
        Json::Str(raw) => {
            let trimmed = trim(raw.as_str());
            if trimmed.is_empty() || is_metadata_path(attribute_path) {
                assert(candidate_views(out@) =~= candidate_views(old(out)@) + candidates_of(
                    value@,
                    source_path@,
                    attribute_path@,
                ));
                return ;
            }
            let mut candidate_key = source_path.to_owned();
            candidate_key.append("=");
            candidate_key.append(trimmed);
            out.push(
                AttributeCandidate {
                    candidate_key,
                    label: label_for_attribute_path(attribute_path),
                    value: trimmed.to_owned(),
                    value_kind: classify_value_kind(trimmed),
                    source_path: source_path.to_owned(),
                    attribute_path: attribute_path.to_owned(),
                },
            );
            assert(candidate_views(out@) =~= candidate_views(old(out)@) + candidates_of(
                value@,
                source_path@,
                attribute_path@,
            ));
        },
        Json::Array(items) => {
            let ghost views = value@->Array_0;
            let ghost start = candidate_views(out@);
            assert(start + array_candidates(views, 0, source_path@, attribute_path@) =~= start);
            let mut i: usize = 0;
            while i < items.len()
                invariant
                    i <= items.len(),
                    *value matches Json::Array(own) && own == *items,
                    value@ == JsonView::Array(views),
                    views.len() == items.len(),
                    candidate_views(out@) == start + array_candidates(
                        views,
                        i as nat,
                        source_path@,
                        attribute_path@,
                    ),
                decreases items.len() - i,
            {
                let mut next_source = source_path.to_owned();
                next_source.append("[");
                next_source.append(decimal_text(i as u64).as_str());
                next_source.append("]");
                let mut next_attribute = attribute_path.to_owned();
                next_attribute.append("[]");
                assert(views[i as int] == items@[i as int]@);
                collect_string_candidates(
                    &items[i],
                    next_source.as_str(),
                    next_attribute.as_str(),
                    out,
                );
                i = i + 1;
                assert(candidate_views(out@) =~= start + array_candidates(
                    views,
                    i as nat,
                    source_path@,
                    attribute_path@,
                ));
            }
        },
        Json::Object(members) => {
            let ghost views = value@->Object_0;
            let ghost start = candidate_views(out@);
            assert(start + object_candidates(views, 0, source_path@, attribute_path@) =~= start);
            let mut i: usize = 0;
            while i < members.len()
                invariant
                    i <= members.len(),
                    *value matches Json::Object(own) && own == *members,
                    value@ == JsonView::Object(views),
                    views.len() == members.len(),
                    candidate_views(out@) == start + object_candidates(
                        views,
                        i as nat,
                        source_path@,
                        attribute_path@,
                    ),
                decreases members.len() - i,
            {
                let key = members[i].0.as_str();
                let next_source = append_object_segment(source_path, key);
                let next_attribute = append_object_segment(
                    attribute_path,
                    canonicalize_segment(key).as_str(),
                );
                assert(views[i as int] == (members@[i as int].0@, members@[i as int].1@));
                collect_string_candidates(
                    &members[i].1,
                    next_source.as_str(),
                    next_attribute.as_str(),
                    out,
                );
                i = i + 1;
                assert(candidate_views(out@) =~= start + object_candidates(
                    views,
                    i as nat,
                    source_path@,
                    attribute_path@,
                ));
            }
        },
        _ => {
            assert(candidate_views(out@) =~= candidate_views(old(out)@) + candidates_of(
                value@,
                source_path@,
                attribute_path@,
            ));
        },
    }
}

/// The texts of one document.
#[derive(Debug)]
pub struct AttributeInventoryDocument {
    pub document_key: String,
    pub person_id: String,
    pub display_name: String,
    pub source_document_id: Option<String>,
    pub source_canonical_uri: Option<String>,
    pub last_activity: Option<Timestamp>,
    pub candidates: Vec<AttributeCandidate>,
}

/// Whether one pair of texts comes before another.
pub open spec fn pair_precedes(
    a: (Seq<char>, Seq<char>),
    b: (Seq<char>, Seq<char>),
) -> bool {
    crate::text::precedes(a.0, b.0) || (a.0 == b.0 && crate::text::precedes(a.1, b.1))
}

proof fn pairs_in_order(
    a: (Seq<char>, Seq<char>),
    b: (Seq<char>, Seq<char>),
    c: (Seq<char>, Seq<char>),
)
    ensures
        !pair_precedes(b, a) && !pair_precedes(c, b) ==> !pair_precedes(c, a),
        !(pair_precedes(a, b) && pair_precedes(b, a)),
{
    texts_in_order(a.0, b.0, c.0);
    texts_in_order(a.1, b.1, c.1);
    crate::text::precedes_irreflexive(a.0);
    crate::text::precedes_irreflexive(a.1);
    if a.0 == c.0 && a.0 != b.0 {
        crate::text::precedes_total(a.0, b.0);
        texts_in_order(b.0, a.0, b.0);
    }
    if pair_precedes(c, a) && !pair_precedes(b, a) && !pair_precedes(c, b) {
        crate::text::precedes_total(a.0, b.0);
        crate::text::precedes_total(b.0, c.0);
        crate::text::precedes_total(a.0, c.0);
        texts_in_order(c.0, b.0, a.0);
        texts_in_order(a.0, c.0, a.0);
    }
}

proof fn texts_in_order(a: Seq<char>, b: Seq<char>, c: Seq<char>)
    ensures
        !crate::text::precedes(b, a) && !crate::text::precedes(c, b) ==> !crate::text::precedes(
            c,
            a,
        ),
        !(crate::text::precedes(a, b) && crate::text::precedes(b, a)),
{
    if crate::text::precedes(a, b) && crate::text::precedes(b, a) {
        crate::text::precedes_transitive(a, b, a);
        crate::text::precedes_irreflexive(a);
    }
    if !crate::text::precedes(b, a) && !crate::text::precedes(c, b) && crate::text::precedes(c, a) {
        crate::text::precedes_total(a, b);
        crate::text::precedes_total(b, c);
        if a != b {
            if b != c {
                crate::text::precedes_transitive(a, b, c);
            }
        }
        if crate::text::precedes(a, c) {
            crate::text::precedes_transitive(a, c, a);
        }
        crate::text::precedes_irreflexive(a);
    }
}

fn pair_is_before(a: (&str, &str), b: (&str, &str)) -> (r: bool)
    ensures
        r == pair_precedes((a.0@, a.1@), (b.0@, b.1@)),
{
    str_precedes(a.0, b.0) || (str_eq(a.0, b.0) && str_precedes(a.1, b.1))
}

impl Ranked for AttributeCandidate {
    /// By the path that a text was found at, then by the text.
    open spec fn ranks_before(&self, other: &AttributeCandidate) -> bool {
        pair_precedes((self.source_path@, self.value@), (other.source_path@, other.value@))
    }

    proof fn ranks_transitively(
        a: &AttributeCandidate,
        b: &AttributeCandidate,
        c: &AttributeCandidate,
    ) {
        pairs_in_order(
            (a.source_path@, a.value@),
            (b.source_path@, b.value@),
            (c.source_path@, c.value@),
        );
    }

    proof fn ranks_one_way(a: &AttributeCandidate, b: &AttributeCandidate) {
        pairs_in_order(
            (a.source_path@, a.value@),
            (b.source_path@, b.value@),
            (a.source_path@, a.value@),
        );
    }

    fn is_before(&self, other: &AttributeCandidate) -> bool {
        pair_is_before(
            (self.source_path.as_str(), self.value.as_str()),
            (other.source_path.as_str(), other.value.as_str()),
        )
    }
}

/// Whether one time of activity is more recent than another; no activity is the least recent.
pub open spec fn more_recent(a: Option<Timestamp>, b: Option<Timestamp>) -> bool {
    match (a, b) {
        (Some(x), Some(y)) => crate::time::earlier(y@, x@),
        (Some(_), None) => true,
        _ => false,
    }
}

/// Whether two times of activity are the same.
pub open spec fn same_activity(a: Option<Timestamp>, b: Option<Timestamp>) -> bool {
    match (a, b) {
        (Some(x), Some(y)) => x@ == y@,
        (None, None) => true,
        _ => false,
    }
}

impl Ranked for AttributeInventoryDocument {
    /// The most recently active first, then by name and person.
    open spec fn ranks_before(&self, other: &AttributeInventoryDocument) -> bool {
        more_recent(self.last_activity, other.last_activity) || (same_activity(
            self.last_activity,
            other.last_activity,
        ) && pair_precedes(
            (self.display_name@, self.person_id@),
            (other.display_name@, other.person_id@),
        ))
    }

    proof fn ranks_transitively(
        a: &AttributeInventoryDocument,
        b: &AttributeInventoryDocument,
        c: &AttributeInventoryDocument,
    ) {
        pairs_in_order(
            (a.display_name@, a.person_id@),
            (b.display_name@, b.person_id@),
            (c.display_name@, c.person_id@),
        );
    }

    proof fn ranks_one_way(a: &AttributeInventoryDocument, b: &AttributeInventoryDocument) {
        pairs_in_order(
            (a.display_name@, a.person_id@),
            (b.display_name@, b.person_id@),
            (a.display_name@, a.person_id@),
        );
    }

    fn is_before(&self, other: &AttributeInventoryDocument) -> bool {
        let same = match (&self.last_activity, &other.last_activity) {
            (Some(x), Some(y)) => {
                if y.is_before(x) {
                    return true;
                }
                x.same(y)
            },
            (Some(_), None) => return true,
            (None, None) => true,
            (None, Some(_)) => false,
        };
        same && pair_is_before(
            (self.display_name.as_str(), self.person_id.as_str()),
            (other.display_name.as_str(), other.person_id.as_str()),
        )
    }
}

/// The JSON value in which a person's texts are looked for.
pub open spec fn person_value(person: PersonProfile) -> JsonView {
    JsonView::Object(
        seq![
            (
                "person"@,
                JsonView::Object(
                    seq![
                        ("display_name"@, JsonView::Str(person.display_name@)),
                        (
                            "self_intro_text"@,
                            crate::json::opt_text_value(person.self_intro_text),
                        ),
                    ],
                ),
            ),
            ("profile"@, crate::profile::profile_value(person.frontend_profile->0.profile)),
        ],
    )
}

/// Whether a document lists the texts of a person, in the order of their paths.
pub open spec fn documents(document: AttributeInventoryDocument, person: PersonProfile) -> bool {
    &&& person.frontend_profile matches Some(frontend)
    &&& document.document_key@ == frontend.source_document_id@
    &&& document.person_id@ == person.person_id@
    &&& document.display_name@ == person.display_name@
    &&& crate::text::opt_string(document.source_document_id) == Some(frontend.source_document_id@)
    &&& crate::text::opt_string(document.source_canonical_uri) == crate::text::opt_string(
        frontend.source_canonical_uri,
    )
    &&& document.last_activity == person.last_activity
    &&& exists|found: Seq<AttributeCandidate>| #[trigger]
        candidate_views(found) == candidates_of(
            person_value(person),
            Seq::empty(),
            Seq::empty(),
        ) && document.candidates@ == crate::sorting::in_rank(found)
}

/// Whether documents are those of the persons that have a profile, one for one.
pub open spec fn documents_all(
    list: Seq<AttributeInventoryDocument>,
    persons: Seq<PersonProfile>,
) -> bool {
    let profiled = persons.filter(|p: PersonProfile| p.frontend_profile is Some);
    list.len() == profiled.len() && forall|i: int|
        0 <= i < list.len() ==> documents(#[trigger] list[i], profiled[i])
}

fn document_of(person: &PersonProfile) -> (r: Option<AttributeInventoryDocument>)
    ensures
        match r {
            Some(document) => documents(document, *person),
            None => person.frontend_profile is None,
        },
{
    match &person.frontend_profile {
        None => None,
        Some(frontend) => {
            let intro = object(
                vec![
                    entry("display_name", text(person.display_name.as_str())),
                    entry("self_intro_text", opt_text(&person.self_intro_text)),
                ],
            );
            assert(intro@->Object_0 =~= person_value(*person)->Object_0[0].1->Object_0);
            let payload = object(
                vec![entry("person", intro), entry("profile", profile_json(&frontend.profile))],
            );
            assert(payload@->Object_0 =~= person_value(*person)->Object_0);
            let mut found: Vec<AttributeCandidate> = Vec::new();
            collect_string_candidates(&payload, "", "", &mut found);
            proof {
                reveal_strlit("");
                assert(""@ =~= Seq::<char>::empty());
                assert(candidate_views(found@) =~= candidates_of(
                    person_value(*person),
                    Seq::empty(),
                    Seq::empty(),
                ));
            }
            let candidates = sort(found);
            Some(
                AttributeInventoryDocument {
                    document_key: frontend.source_document_id.clone(),
                    person_id: person.person_id.as_str().to_owned(),
                    display_name: person.display_name.clone(),
                    source_document_id: Some(frontend.source_document_id.clone()),
                    source_canonical_uri: frontend.source_canonical_uri.clone(),
                    last_activity: person.last_activity,
                    candidates,
                },
            )
        },
    }
}

/// Lists the texts of every person that has a profile, the most recently active person first.
pub fn build_inventory_documents(persons: &[PersonProfile]) -> (r: Vec<AttributeInventoryDocument>)
    ensures
        exists|made: Seq<AttributeInventoryDocument>| #[trigger]
            documents_all(made, persons@) && r@ == crate::sorting::in_rank(made),
{
    let ghost wanted = |p: PersonProfile| p.frontend_profile is Some;
    let mut made: Vec<AttributeInventoryDocument> = Vec::new();
    let mut i: usize = 0;
    assert(persons@.take(0).filter(wanted) =~= Seq::<PersonProfile>::empty()) by {
        reveal(Seq::filter);
    }
    while i < persons.len()
        invariant
            i <= persons.len(),
            wanted == (|p: PersonProfile| p.frontend_profile is Some),
            made@.len() == persons@.take(i as int).filter(wanted).len(),
            forall|j: int|
                0 <= j < made@.len() ==> documents(
                    #[trigger] made@[j],
                    persons@.take(i as int).filter(wanted)[j],
                ),
        decreases persons.len() - i,
    {
        let ghost before = persons@.take(i as int).filter(wanted);
        proof {
            reveal(Seq::filter);
            assert(persons@.take(i + 1).drop_last() =~= persons@.take(i as int));
            assert(persons@.take(i + 1).last() == persons@[i as int]);
        }
        match document_of(&persons[i]) {
            Some(document) => made.push(document),
            None => {},
        }
        i = i + 1;
    }
    assert(persons@.take(i as int) =~= persons@);
    assert(documents_all(made@, persons@));
    sort(made)
}

/// An attribute that reviews have established.
#[derive(Debug)]
pub struct KnownAttribute {
    pub id: String,
    pub display_name: String,
    pub source_paths: Vec<String>,
    pub examples: Vec<String>,
    pub review_count: usize,
}

/// What a known attribute says.
pub struct KnownView {
    pub id: Seq<char>,
    pub name: Seq<char>,
    pub paths: Seq<Seq<char>>,
    pub examples: Seq<Seq<char>>,
    pub count: usize,
}

impl View for KnownAttribute {
    type V = KnownView;

    open spec fn view(&self) -> KnownView {
        KnownView {
            id: self.id@,
            name: self.display_name@,
            paths: crate::text::strings(self.source_paths@),
            examples: crate::text::strings(self.examples@),
            count: self.review_count,
        }
    }
}

/// What known attributes say.
pub open spec fn known_views(list: Seq<KnownAttribute>) -> Seq<KnownView> {
    list.map_values(|k: KnownAttribute| k@)
}

impl Ranked for KnownAttribute {
    /// By name, then by identity.
    open spec fn ranks_before(&self, other: &KnownAttribute) -> bool {
        pair_precedes((self.display_name@, self.id@), (other.display_name@, other.id@))
    }

    proof fn ranks_transitively(a: &KnownAttribute, b: &KnownAttribute, c: &KnownAttribute) {
        pairs_in_order(
            (a.display_name@, a.id@),
            (b.display_name@, b.id@),
            (c.display_name@, c.id@),
        );
    }

    proof fn ranks_one_way(a: &KnownAttribute, b: &KnownAttribute) {
        pairs_in_order(
            (a.display_name@, a.id@),
            (b.display_name@, b.id@),
            (a.display_name@, a.id@),
        );
    }

    fn is_before(&self, other: &KnownAttribute) -> bool {
        pair_is_before(
            (self.display_name.as_str(), self.id.as_str()),
            (other.display_name.as_str(), other.id.as_str()),
        )
    }
}

/// What a review decided.
#[derive(Debug, Clone, Copy, PartialEq, Eq, Structural)]
pub enum ReviewAction {
    Existing,
    New,
    Skipped,
}

/// The record of a review.
#[derive(Debug)]
pub struct ReviewedCandidate {
    pub candidate_key: String,
    pub action: ReviewAction,
    pub attribute_id: Option<String>,
    pub attribute_path: String,
    pub source_path: String,
    pub value: String,
    pub reviewed_at: Timestamp,
}

/// Whether a record says that a candidate was reviewed so, at that time.
pub open spec fn records(
    record: ReviewedCandidate,
    candidate: CandidateView,
    action: ReviewAction,
    attribute_id: Option<Seq<char>>,
    reviewed_at: Timestamp,
) -> bool {
    &&& record.candidate_key@ == candidate.key
    &&& record.action == action
    &&& crate::text::opt_string(record.attribute_id) == attribute_id
    &&& record.attribute_path@ == candidate.path
    &&& record.source_path@ == candidate.source
    &&& record.value@ == candidate.value
    &&& record.reviewed_at == reviewed_at
}

fn record_of(
    candidate: &AttributeCandidate,
    action: ReviewAction,
    attribute_id: Option<String>,
    reviewed_at: Timestamp,
) -> (r: ReviewedCandidate)
    ensures
        records(r, candidate@, action, crate::text::opt_string(attribute_id), reviewed_at),
{
    ReviewedCandidate {
        candidate_key: candidate.candidate_key.clone(),
        action,
        attribute_id,
        attribute_path: candidate.attribute_path.clone(),
        source_path: candidate.source_path.clone(),
        value: candidate.value.clone(),
        reviewed_at,
    }
}

/// What reviews have established so far.
#[derive(Debug)]
pub struct AttributeInventoryState {
    pub version: u32,
    pub known_attributes: Vec<KnownAttribute>,
    /// The reviews, by the key of their candidate.
    pub reviewed_candidates: TextMap<ReviewedCandidate>,
}

impl Default for AttributeInventoryState {
    /// The state before the first review.
    fn default() -> (r: AttributeInventoryState)
        ensures
            r.version == 1,
            r.known_attributes@.len() == 0,
            r.reviewed_candidates@ == Map::<Seq<char>, ReviewedCandidate>::empty(),
    {
        AttributeInventoryState {
            version: 1,
            known_attributes: Vec::new(),
            reviewed_candidates: TextMap::new(),
        }
    }
}

/// The first attribute with an identity.
pub open spec fn attribute_index(known: Seq<KnownView>, id: Seq<char>) -> Option<int>
    decreases known.len(),
{
    if known.len() == 0 {
        None
    } else {
        match attribute_index(known.drop_last(), id) {
            Some(i) => Some(i),
            None => if known.last().id == id {
                Some(known.len() - 1)
            } else {
                None
            },
        }
    }
}

/// The first five of a list.
pub open spec fn first_five(list: Seq<Seq<char>>) -> Seq<Seq<char>> {
    if list.len() > 5 {
        list.take(5)
    } else {
        list
    }
}

/// One more, as far as it can be counted.
pub open spec fn one_more(count: usize) -> usize {
    if count == usize::MAX {
        count
    } else {
        (count + 1) as usize
    }
}

/// An attribute after a candidate was found to belong to it.
pub open spec fn absorbed(known: KnownView, candidate: CandidateView) -> KnownView {
    KnownView {
        paths: crate::text::sorted_texts(known.paths.to_set().insert(candidate.path)),
        examples: first_five(
            crate::text::sorted_texts(known.examples.to_set().insert(candidate.value)),
        ),
        count: one_more(known.count),
        ..known
    }
}

/// The different texts of two lists in ascending order.
fn sorted_union(list: &Vec<String>, more: &Vec<String>) -> (r: Vec<String>)
    ensures
        crate::text::strings(r@) == crate::text::sorted_texts(
            crate::text::strings(list@).to_set().union(crate::text::strings(more@).to_set()),
        ),
{
    let mut both = copy_texts(list);
    let mut extra = copy_texts(more);
    let ghost a = crate::text::strings(both@);
    let ghost b = crate::text::strings(extra@);
    both.append(&mut extra);
    let r = crate::text::sorted_set(&both);
    proof {
        let joined = crate::text::strings(both@);
        assert(joined =~= a + b);
        assert forall|t: Seq<char>| #[trigger] joined.to_set().contains(t) <==> a.to_set().union(
            b.to_set(),
        ).contains(t) by {
            crate::runtime::tree::concat_contains(a, b, t);
        }
        assert(joined.to_set() =~= a.to_set().union(b.to_set()));
    }
    r
}

fn keep_five(list: Vec<String>) -> (r: Vec<String>)
    ensures
        crate::text::strings(r@) == first_five(crate::text::strings(list@)),
{
    let mut out = list;
    out.truncate(5);
    assert(crate::text::strings(out@) =~= first_five(crate::text::strings(list@)));
    out
}

fn one_text(value: &String) -> (r: Vec<String>)
    ensures
        crate::text::strings(r@) == seq![value@],
{
    let r = vec![value.clone()];
    assert(crate::text::strings(r@) =~= seq![value@]);
    r
}

proof fn set_with_one(set: Set<Seq<char>>, t: Seq<char>)
    ensures
        set.union(seq![t].to_set()) == set.insert(t),
{
    assert(seq![t][0] == t);
    assert(set.union(seq![t].to_set()) =~= set.insert(t));
}

fn absorb_candidate(attribute: &KnownAttribute, candidate: &AttributeCandidate) -> (r:
    KnownAttribute)
    ensures
        r@ == absorbed(attribute@, candidate@),
{
    proof {
        set_with_one(
            crate::text::strings(attribute.source_paths@).to_set(),
            candidate.attribute_path@,
        );
        set_with_one(crate::text::strings(attribute.examples@).to_set(), candidate.value@);
    }
    let source_paths = sorted_union(
        &attribute.source_paths,
        &one_text(&candidate.attribute_path),
    );
    let examples = keep_five(sorted_union(&attribute.examples, &one_text(&candidate.value)));
    KnownAttribute {
        id: attribute.id.clone(),
        display_name: attribute.display_name.clone(),
        source_paths,
        examples,
        review_count: if attribute.review_count == usize::MAX {
            attribute.review_count
        } else {
            attribute.review_count + 1
        },
    }
}

fn find_attribute(known: &Vec<KnownAttribute>, id: &str) -> (r: Option<usize>)
    ensures
        match r {
            Some(i) => i < known@.len() && attribute_index(known_views(known@), id@) == Some(
                i as int,
            ),
            None => attribute_index(known_views(known@), id@) is None,
        },
{
    let ghost views = known_views(known@);
    let mut i: usize = 0;
    while i < known.len()
        invariant
            i <= known.len(),
            views == known_views(known@),
            attribute_index(views.take(i as int), id@) is None,
        decreases known.len() - i,
    {
        proof {
            assert(views.take(i + 1).drop_last() =~= views.take(i as int));
            assert(views.take(i + 1).last() == known@[i as int]@);
        }
        if str_eq(known[i].id.as_str(), id) {
            proof {
                index_stays(views, id@, i + 1);
            }
            return Some(i);
        }
        i = i + 1;
    }
    assert(views.take(i as int) =~= views);
    None
}

proof fn index_stays(known: Seq<KnownView>, id: Seq<char>, i: int)
    requires
        0 <= i <= known.len(),
        attribute_index(known.take(i), id) is Some,
    ensures
        attribute_index(known, id) == attribute_index(known.take(i), id),
    decreases known.len() - i,
{
    if i < known.len() {
        assert(known.take(i + 1).drop_last() =~= known.take(i));
        index_stays(known, id, i + 1);
    } else {
        assert(known.take(i) =~= known);
    }
}

/// The attribute that a new name makes of a candidate.
pub open spec fn new_attribute(name: Seq<char>, candidate: CandidateView) -> KnownView {
    absorbed(
        KnownView {
            id: attribute_id_of(name),
            name: crate::text::trimmed(name),
            paths: Seq::empty(),
            examples: Seq::empty(),
            count: 0,
        },
        candidate,
    )
}

/// Whether attributes in the order of their names are those of a list, in whatever order it is.
pub open spec fn sorted_attributes(list: Seq<KnownAttribute>, of: Seq<KnownView>) -> bool {
    exists|unsorted: Seq<KnownAttribute>| #[trigger]
        known_views(unsorted) == of && list == crate::sorting::in_rank(unsorted)
}

/// How well an attribute fits a candidate.
pub open spec fn fit(known: KnownView, candidate: CandidateView) -> nat {
    let leaf = leaf_of(candidate.path);
    (if known.paths.contains(candidate.path) {
        100nat
    } else {
        0
    }) + (if leaf_of(known.id) == leaf {
        80nat
    } else {
        0
    }) + (if leaf_of(known.name) == leaf {
        75nat
    } else {
        0
    }) + (if exists|i: int| 0 <= i < known.paths.len() && leaf_of(#[trigger] known.paths[i]) == leaf {
        60nat
    } else {
        0
    })
}

/// An attribute that a candidate may belong to.
#[derive(Debug)]
pub struct AttributeSuggestion {
    pub id: String,
    pub display_name: String,
    pub score: usize,
    pub source_paths: Vec<String>,
}

/// What a suggestion says.
pub struct SuggestionView {
    pub id: Seq<char>,
    pub name: Seq<char>,
    pub score: nat,
    pub paths: Seq<Seq<char>>,
}

impl View for AttributeSuggestion {
    type V = SuggestionView;

    open spec fn view(&self) -> SuggestionView {
        SuggestionView {
            id: self.id@,
            name: self.display_name@,
            score: self.score as nat,
            paths: crate::text::strings(self.source_paths@),
        }
    }
}

/// What suggestions say.
pub open spec fn suggestion_views(list: Seq<AttributeSuggestion>) -> Seq<SuggestionView> {
    list.map_values(|s: AttributeSuggestion| s@)
}

impl Ranked for AttributeSuggestion {
    /// The best fit first, then by name and identity.
    open spec fn ranks_before(&self, other: &AttributeSuggestion) -> bool {
        self.score > other.score || (self.score == other.score && pair_precedes(
            (self.display_name@, self.id@),
            (other.display_name@, other.id@),
        ))
    }

    proof fn ranks_transitively(
        a: &AttributeSuggestion,
        b: &AttributeSuggestion,
        c: &AttributeSuggestion,
    ) {
        pairs_in_order(
            (a.display_name@, a.id@),
            (b.display_name@, b.id@),
            (c.display_name@, c.id@),
        );
    }

    proof fn ranks_one_way(a: &AttributeSuggestion, b: &AttributeSuggestion) {
        pairs_in_order(
            (a.display_name@, a.id@),
            (b.display_name@, b.id@),
            (a.display_name@, a.id@),
        );
    }

    fn is_before(&self, other: &AttributeSuggestion) -> bool {
        self.score > other.score || (self.score == other.score && pair_is_before(
            (self.display_name.as_str(), self.id.as_str()),
            (other.display_name.as_str(), other.id.as_str()),
        ))
    }
}

/// The attributes that fit a candidate at all, with how well they do.
pub open spec fn fitting(known: Seq<KnownView>, candidate: CandidateView) -> Seq<SuggestionView>
    decreases known.len(),
{
    if known.len() == 0 {
        Seq::empty()
    } else {
        let before = fitting(known.drop_last(), candidate);
        let last = known.last();
        if fit(last, candidate) == 0 {
            before
        } else {
            before.push(
                SuggestionView {
                    id: last.id,
                    name: last.name,
                    score: fit(last, candidate),
                    paths: last.paths,
                },
            )
        }
    }
}

/// Whether a list is the first five, in the order of their ranking, of the attributes that fit.
pub open spec fn best_fits(list: Seq<AttributeSuggestion>, of: Seq<SuggestionView>) -> bool {
    exists|unsorted: Seq<AttributeSuggestion>|
        {
            let sorted = crate::sorting::in_rank(unsorted);
            &&& #[trigger] suggestion_views(unsorted) == of
            &&& list == (if sorted.len() > 5 {
                sorted.take(5)
            } else {
                sorted
            })
        }
}

fn score_of(attribute: &KnownAttribute, candidate: &AttributeCandidate) -> (r: usize)
    ensures
        r == fit(attribute@, candidate@),
{
    let leaf = normalized_leaf(candidate.attribute_path.as_str());
    let ghost paths = crate::text::strings(attribute.source_paths@);
    let mut score: usize = 0;
    let mut same_path = false;
    let mut same_leaf = false;
    let mut i: usize = 0;
    while i < attribute.source_paths.len()
        invariant
            i <= attribute.source_paths.len(),
            paths == crate::text::strings(attribute.source_paths@),
            leaf@ == leaf_of(candidate.attribute_path@),
            same_path == exists|j: int|
                0 <= j < i && #[trigger] paths[j] == candidate.attribute_path@,
            same_leaf == exists|j: int| 0 <= j < i && leaf_of(#[trigger] paths[j]) == leaf@,
        decreases attribute.source_paths.len() - i,
    {
        assert(paths[i as int] == attribute.source_paths@[i as int]@);
        let path = attribute.source_paths[i].as_str();
        if str_eq(path, candidate.attribute_path.as_str()) {
            same_path = true;
        }
        if str_eq(normalized_leaf(path).as_str(), leaf.as_str()) {
            same_leaf = true;
        }
        i = i + 1;
    }
    if same_path {
        score = score + 100;
    }
    if str_eq(normalized_leaf(attribute.id.as_str()).as_str(), leaf.as_str()) {
        score = score + 80;
    }
    if str_eq(normalized_leaf(attribute.display_name.as_str()).as_str(), leaf.as_str()) {
        score = score + 75;
    }
    if same_leaf {
        score = score + 60;
    }
    score
}

/// A catalog of attributes with the names that they go by.
#[derive(Debug)]
pub struct AttributeAliasCatalog {
    pub version: u32,
    pub attributes: Vec<AttributeAliasDefinition>,
}

/// An attribute with the names that it goes by.
#[derive(Debug)]
pub struct AttributeAliasDefinition {
    pub id: String,
    pub display_name: String,
    pub aliases: Vec<String>,
    pub examples: Vec<String>,
}

/// What an entry of a catalog says.
pub struct AliasView {
    pub id: Seq<char>,
    pub name: Seq<char>,
    pub aliases: Seq<Seq<char>>,
    pub examples: Seq<Seq<char>>,
}

impl View for AttributeAliasDefinition {
    type V = AliasView;

    open spec fn view(&self) -> AliasView {
        AliasView {
            id: self.id@,
            name: self.display_name@,
            aliases: crate::text::strings(self.aliases@),
            examples: crate::text::strings(self.examples@),
        }
    }
}

/// What the entries of a catalog say.
pub open spec fn alias_views(list: Seq<AttributeAliasDefinition>) -> Seq<AliasView> {
    list.map_values(|a: AttributeAliasDefinition| a@)
}

/// The catalog entry of a known attribute.
pub open spec fn alias_of(known: KnownView) -> AliasView {
    AliasView { id: known.id, name: known.name, aliases: known.paths, examples: known.examples }
}

/// The known attributes after one catalog entry was merged into them: where the identity is known,
/// aliases and examples are united and a missing name is filled in; otherwise the entry is added.
pub open spec fn merged_entry(known: Seq<KnownView>, entry: AliasView) -> Seq<KnownView> {
    match attribute_index(known, entry.id) {
        Some(i) => known.update(
            i,
            KnownView {
                paths: crate::text::sorted_texts(known[i].paths.to_set().union(entry.aliases.to_set())),
                examples: first_five(
                    crate::text::sorted_texts(
                        known[i].examples.to_set().union(entry.examples.to_set()),
                    ),
                ),
                name: if crate::text::blank(known[i].name) {
                    entry.name
                } else {
                    known[i].name
                },
                ..known[i]
            },
        ),
        None => known.push(
            KnownView {
                id: entry.id,
                name: entry.name,
                paths: entry.aliases,
                examples: entry.examples,
                count: 0,
            },
        ),
    }
}

/// The known attributes after the entries of a catalog were merged into them, one by one.
pub open spec fn merged(known: Seq<KnownView>, entries: Seq<AliasView>) -> Seq<KnownView>
    decreases entries.len(),
{
    if entries.len() == 0 {
        known
    } else {
        merged_entry(merged(known, entries.drop_last()), entries.last())
    }
}

impl AttributeInventoryState {
    /// Whether a candidate was reviewed already.
    pub fn is_reviewed(&self, candidate: &AttributeCandidate) -> (r: bool)
        ensures
            r == self.reviewed_candidates@.contains_key(candidate.candidate_key@),
    {
        self.reviewed_candidates.contains_key(candidate.candidate_key.as_str())
    }

    /// Records that a candidate belongs to a known attribute.
    pub fn review_existing(
        &mut self,
        candidate: &AttributeCandidate,
        attribute_id: &str,
        reviewed_at: Timestamp,
    ) -> (r: Result<(), String>)
        ensures
            final(self).version == old(self).version,
            match attribute_index(known_views(old(self).known_attributes@), attribute_id@) {
                None => {
                    &&& r is Err && r->Err_0@ == "unknown attribute id: "@ + attribute_id@
                    &&& final(self).known_attributes@ == old(self).known_attributes@
                    &&& final(self).reviewed_candidates@ == old(self).reviewed_candidates@
                },
                Some(i) => {
                    &&& r is Ok
                    &&& known_views(final(self).known_attributes@) == known_views(
                        old(self).known_attributes@,
                    ).update(
                        i,
                        absorbed(known_views(old(self).known_attributes@)[i], candidate@),
                    )
                    &&& exists|record: ReviewedCandidate| #[trigger]
                        records(
                            record,
                            candidate@,
                            ReviewAction::Existing,
                            Some(attribute_id@),
                            reviewed_at,
                        ) && final(self).reviewed_candidates@
                            == old(self).reviewed_candidates@.insert(candidate@.key, record)
                },
            },
    {
        match find_attribute(&self.known_attributes, attribute_id) {
            None => {
                let mut message = "unknown attribute id: ".to_owned();
                message.append(attribute_id);
                Err(message)
            },
            Some(i) => {
                let ghost before = known_views(self.known_attributes@);
                let attribute = absorb_candidate(&self.known_attributes[i], candidate);
                self.known_attributes.set(i, attribute);
                assert(known_views(self.known_attributes@) =~= before.update(
                    i as int,
                    absorbed(before[i as int], candidate@),
                ));
                let record = record_of(
                    candidate,
                    ReviewAction::Existing,
                    Some(attribute_id.to_owned()),
                    reviewed_at,
                );
                self.reviewed_candidates.insert(candidate.candidate_key.as_str(), record);
                Ok(())
            },
        }
    }

    /// Records that a candidate belongs to a new attribute, and what its identity is.
    pub fn review_new(
        &mut self,
        candidate: &AttributeCandidate,
        display_name: &str,
        reviewed_at: Timestamp,
    ) -> (r: Result<String, String>)
        ensures
            final(self).version == old(self).version,
            ({
                let id = attribute_id_of(display_name@);
                let known = known_views(old(self).known_attributes@);
                let unchanged = final(self).known_attributes@ == old(self).known_attributes@
                    && final(self).reviewed_candidates@ == old(self).reviewed_candidates@;
                if id.len() == 0 {
                    r is Err && unchanged && r->Err_0@
                        == "attribute name must contain at least one alphanumeric character"@
                } else if attribute_index(known, id) is Some {
                    r is Err && unchanged && r->Err_0@ == "attribute id already exists: "@ + id
                } else {
                    &&& r is Ok && r->Ok_0@ == id
                    &&& sorted_attributes(
                        final(self).known_attributes@,
                        known.push(new_attribute(display_name@, candidate@)),
                    )
                    &&& exists|record: ReviewedCandidate| #[trigger]
                        records(record, candidate@, ReviewAction::New, Some(id), reviewed_at)
                            && final(self).reviewed_candidates@
                            == old(self).reviewed_candidates@.insert(candidate@.key, record)
                }
            }),
    {
        let id = normalize_attribute_id(display_name);
        if id.as_str().is_empty() {
            return Err(
                "attribute name must contain at least one alphanumeric character".to_owned(),
            );
        }
        if find_attribute(&self.known_attributes, id.as_str()).is_some() {
            let mut message = "attribute id already exists: ".to_owned();
            message.append(id.as_str());
            return Err(message);
        }
        let ghost known = known_views(self.known_attributes@);
        let empty = KnownAttribute {
            id: id.clone(),
            display_name: trim(display_name).to_owned(),
            source_paths: Vec::new(),
            examples: Vec::new(),
            review_count: 0,
        };
        assert(crate::text::strings(empty.source_paths@) =~= Seq::<Seq<char>>::empty());
        assert(crate::text::strings(empty.examples@) =~= Seq::<Seq<char>>::empty());
        let attribute = absorb_candidate(&empty, candidate);
        let mut list: Vec<KnownAttribute> = Vec::new();
        std::mem::swap(&mut list, &mut self.known_attributes);
        list.push(attribute);
        assert(known_views(list@) =~= known.push(new_attribute(display_name@, candidate@)));
        self.known_attributes = sort(list);
        let record = record_of(candidate, ReviewAction::New, Some(id.clone()), reviewed_at);
        self.reviewed_candidates.insert(candidate.candidate_key.as_str(), record);
        Ok(id)
    }

    /// Records that a candidate was passed over.
    pub fn review_skip(&mut self, candidate: &AttributeCandidate, reviewed_at: Timestamp)
        ensures
            final(self).version == old(self).version,
            final(self).known_attributes@ == old(self).known_attributes@,
            exists|record: ReviewedCandidate| #[trigger]
                records(record, candidate@, ReviewAction::Skipped, None, reviewed_at)
                    && final(self).reviewed_candidates@ == old(self).reviewed_candidates@.insert(
                    candidate@.key,
                    record,
                ),
    {
        let record = record_of(candidate, ReviewAction::Skipped, None, reviewed_at);
        self.reviewed_candidates.insert(candidate.candidate_key.as_str(), record);
    }

    /// The known attributes that fit a candidate best, at most five.
    pub fn suggestions_for(&self, candidate: &AttributeCandidate) -> (r: Vec<AttributeSuggestion>)
        ensures
            best_fits(r@, fitting(known_views(self.known_attributes@), candidate@)),
    {
        let ghost known = known_views(self.known_attributes@);
        let mut found: Vec<AttributeSuggestion> = Vec::new();
        let mut i: usize = 0;
        assert(suggestion_views(found@) =~= fitting(known.take(0), candidate@));
        while i < self.known_attributes.len()
            invariant
                i <= self.known_attributes.len(),
                known == known_views(self.known_attributes@),
                suggestion_views(found@) == fitting(known.take(i as int), candidate@),
            decreases self.known_attributes.len() - i,
        {
            assert(known.take(i + 1).drop_last() =~= known.take(i as int));
            assert(known.take(i + 1).last() == self.known_attributes@[i as int]@);
            let attribute = &self.known_attributes[i];
            let score: usize = score_of(attribute, candidate);
            if score != 0 {
                let ghost before = suggestion_views(found@);
                found.push(
                    AttributeSuggestion {
                        id: attribute.id.clone(),
                        display_name: attribute.display_name.clone(),
                        score,
                        source_paths: copy_texts(&attribute.source_paths),
                    },
                );
                assert(suggestion_views(found@) =~= fitting(known.take(i + 1), candidate@));
            }
            i = i + 1;
        }
        assert(known.take(i as int) =~= known);
        let ghost unsorted = found@;
        let mut suggestions = sort(found);
        let ghost sorted = suggestions@;
        suggestions.truncate(5);
        assert(suggestions@ =~= (if sorted.len() > 5 {
            sorted.take(5)
        } else {
            sorted
        }));
        assert(suggestion_views(unsorted) == fitting(known, candidate@));
        suggestions
    }

    /// The known attributes as a catalog.
    pub fn export_alias_catalog(&self) -> (r: AttributeAliasCatalog)
        ensures
            r.version == self.version,
            alias_views(r.attributes@) == known_views(self.known_attributes@).map_values(
                |k: KnownView| alias_of(k),
            ),
    {
        let mut attributes: Vec<AttributeAliasDefinition> = Vec::new();
        let mut i: usize = 0;
        while i < self.known_attributes.len()
            invariant
                i <= self.known_attributes.len(),
                attributes.len() == i,
                forall|j: int|
                    0 <= j < i ==> (#[trigger] attributes@[j])@ == alias_of(
                        self.known_attributes@[j]@,
                    ),
            decreases self.known_attributes.len() - i,
        {
            let attribute = &self.known_attributes[i];
            attributes.push(
                AttributeAliasDefinition {
                    id: attribute.id.clone(),
                    display_name: attribute.display_name.clone(),
                    aliases: copy_texts(&attribute.source_paths),
                    examples: copy_texts(&attribute.examples),
                },
            );
            i = i + 1;
        }
        assert(alias_views(attributes@) =~= known_views(self.known_attributes@).map_values(
            |k: KnownView| alias_of(k),
        ));
        AttributeAliasCatalog { version: self.version, attributes }
    }

    /// Merges a catalog into the known attributes.
    pub fn merge_alias_catalog(&mut self, catalog: AttributeAliasCatalog)
        ensures
            final(self).version == old(self).version,
            final(self).reviewed_candidates@ == old(self).reviewed_candidates@,
            sorted_attributes(
                final(self).known_attributes@,
                merged(known_views(old(self).known_attributes@), alias_views(catalog.attributes@)),
            ),
    {
        let ghost given = known_views(self.known_attributes@);
        let ghost entries = alias_views(catalog.attributes@);
        let mut list: Vec<KnownAttribute> = Vec::new();
        std::mem::swap(&mut list, &mut self.known_attributes);
        let mut i: usize = 0;
        assert(entries.take(0) =~= Seq::<AliasView>::empty());
        while i < catalog.attributes.len()
            invariant
                i <= catalog.attributes.len(),
                entries == alias_views(catalog.attributes@),
                known_views(list@) == merged(given, entries.take(i as int)),
            decreases catalog.attributes.len() - i,
        {
            let entry = &catalog.attributes[i];
            proof {
                assert(entries.take(i + 1).drop_last() =~= entries.take(i as int));
                assert(entries.take(i + 1).last() == catalog.attributes@[i as int]@);
            }
            let ghost before = known_views(list@);
            match find_attribute(&list, entry.id.as_str()) {
                Some(k) => {
                    let existing = &list[k];
                    let display_name = if is_blank(existing.display_name.as_str()) {
                        entry.display_name.clone()
                    } else {
                        existing.display_name.clone()
                    };
                    let updated = KnownAttribute {
                        id: existing.id.clone(),
                        display_name,
                        source_paths: sorted_union(&existing.source_paths, &entry.aliases),
                        examples: keep_five(sorted_union(&existing.examples, &entry.examples)),
                        review_count: existing.review_count,
                    };
                    list.set(k, updated);
                    assert(known_views(list@) =~= merged_entry(before, entry@));
                },
                None => {
                    list.push(
                        KnownAttribute {
                            id: entry.id.clone(),
                            display_name: entry.display_name.clone(),
                            source_paths: copy_texts(&entry.aliases),
                            examples: copy_texts(&entry.examples),
                            review_count: 0,
                        },
                    );
                    assert(known_views(list@) =~= merged_entry(before, entry@));
                },
            }
            i = i + 1;
        }
        assert(entries.take(i as int) =~= entries);
        self.known_attributes = sort(list);
    }
}

/// Whether no two attributes have the same identity.
pub open spec fn distinct_ids(known: Seq<KnownView>) -> bool {
    forall|i: int, j: int|
        #![trigger known[i], known[j]]
        0 <= i < j < known.len() ==> known[i].id != known[j].id
}

proof fn index_of_an_id(known: Seq<KnownView>, id: Seq<char>)
    ensures
        match attribute_index(known, id) {
            Some(i) => 0 <= i < known.len() && known[i].id == id,
            None => forall|i: int| 0 <= i < known.len() ==> (#[trigger] known[i]).id != id,
        },
    decreases known.len(),
{
    if known.len() > 0 {
        index_of_an_id(known.drop_last(), id);
        if attribute_index(known, id) is None {
            assert forall|i: int| 0 <= i < known.len() implies (#[trigger] known[i]).id != id by {
                if i < known.len() - 1 {
                    assert(known.drop_last()[i] == known[i]);
                }
            }
        }
    }
}

proof fn merging_keeps_ids_distinct(known: Seq<KnownView>, entries: Seq<AliasView>)
    requires
        distinct_ids(known),
    ensures
        distinct_ids(merged(known, entries)),
    decreases entries.len(),
{
    if entries.len() > 0 {
        let before = merged(known, entries.drop_last());
        merging_keeps_ids_distinct(known, entries.drop_last());
        index_of_an_id(before, entries.last().id);
    }
}

proof fn placing_keeps_ids_distinct(list: Seq<KnownAttribute>, item: KnownAttribute)
    requires
        distinct_ids(known_views(list.push(item))),
    ensures
        distinct_ids(known_views(crate::sorting::placed(list, item))),
        forall|i: int|
            0 <= i < crate::sorting::placed(list, item).len() ==> list.push(item).contains(
                #[trigger] crate::sorting::placed(list, item)[i],
            ),
    decreases list.len(),
{
    let all = list.push(item);
    let after = crate::sorting::placed(list, item);
    if list.len() > 0 && item.ranks_before(&list.last()) {
        let rest = list.drop_last();
        let shorter = crate::sorting::placed(rest, item);
        assert forall|i: int, j: int|
            #![trigger known_views(rest.push(item))[i], known_views(rest.push(item))[j]]
            0 <= i < j < rest.push(item).len() implies known_views(rest.push(item))[i].id
            != known_views(rest.push(item))[j].id by {
            let to = if j == rest.len() {
                list.len() as int
            } else {
                j
            };
            assert(known_views(all)[i] == known_views(rest.push(item))[i]);
            assert(known_views(all)[to] == known_views(rest.push(item))[j]);
        }
        placing_keeps_ids_distinct(rest, item);
        assert forall|i: int| 0 <= i < after.len() implies all.contains(#[trigger] after[i]) by {
            if i < shorter.len() {
                let at = choose|at: int|
                    0 <= at < rest.push(item).len() && rest.push(item)[at] == shorter[i];
                assert(all[if at == rest.len() {
                    list.len() as int
                } else {
                    at
                }] == after[i]);
            } else {
                assert(all[list.len() - 1] == after[i]);
            }
        }
        assert forall|i: int, j: int|
            #![trigger known_views(after)[i], known_views(after)[j]]
            0 <= i < j < after.len() implies known_views(after)[i].id != known_views(after)[j].id by {
            if j < shorter.len() {
                assert(known_views(shorter)[i].id != known_views(shorter)[j].id);
            } else {
                let at = choose|at: int|
                    0 <= at < rest.push(item).len() && rest.push(item)[at] == shorter[i];
                if at == rest.len() {
                    assert(known_views(all)[list.len() - 1].id != known_views(
                        all,
                    )[list.len() as int].id);
                } else {
                    assert(known_views(all)[at].id != known_views(all)[list.len() - 1].id);
                }
            }
        }
    } else {
        assert forall|i: int| 0 <= i < after.len() implies all.contains(#[trigger] after[i]) by {
            assert(all[i] == after[i]);
        }
    }
}

proof fn sorting_keeps_ids_distinct(unsorted: Seq<KnownAttribute>)
    requires
        distinct_ids(known_views(unsorted)),
    ensures
        distinct_ids(known_views(crate::sorting::in_rank(unsorted))),
        forall|i: int|
            0 <= i < crate::sorting::in_rank(unsorted).len() ==> unsorted.contains(
                #[trigger] crate::sorting::in_rank(unsorted)[i],
            ),
    decreases unsorted.len(),
{
    if unsorted.len() > 0 {
        let rest = unsorted.drop_last();
        let last = unsorted.last();
        let ranked = crate::sorting::in_rank(rest);
        assert forall|i: int, j: int|
            #![trigger known_views(rest)[i], known_views(rest)[j]]
            0 <= i < j < rest.len() implies known_views(rest)[i].id != known_views(rest)[j].id by {
            assert(known_views(unsorted)[i].id != known_views(unsorted)[j].id);
        }
        sorting_keeps_ids_distinct(rest);
        assert forall|i: int, j: int|
            #![trigger known_views(ranked.push(last))[i], known_views(ranked.push(last))[j]]
            0 <= i < j < ranked.push(last).len() implies known_views(ranked.push(last))[i].id
            != known_views(ranked.push(last))[j].id by {
            if j < ranked.len() {
                assert(known_views(ranked)[i].id != known_views(ranked)[j].id);
            } else {
                assert(rest.contains(ranked[i]));
                let at = choose|at: int| 0 <= at < rest.len() && rest[at] == ranked[i];
                assert(known_views(unsorted)[at].id != known_views(unsorted)[rest.len() as int].id);
            }
        }
        placing_keeps_ids_distinct(ranked, last);
        let after = crate::sorting::in_rank(unsorted);
        assert forall|i: int| 0 <= i < after.len() implies unsorted.contains(
            #[trigger] after[i],
        ) by {
            assert(ranked.push(last).contains(after[i]));
            let at = choose|at: int|
                0 <= at < ranked.push(last).len() && ranked.push(last)[at] == after[i];
            if at < ranked.len() {
                assert(rest.contains(ranked[at]));
                let from = choose|from: int| 0 <= from < rest.len() && rest[from] == ranked[at];
                assert(unsorted[from] == after[i]);
            } else {
                assert(unsorted[rest.len() as int] == after[i]);
            }
        }
    }
}

/// Attributes keep distinct identities: whatever candidate is reviewed, whatever name a new
/// attribute is given and whatever catalog is imported.
pub proof fn identities_stay_distinct(
    known: Seq<KnownView>,
    at: int,
    candidate: CandidateView,
    name: Seq<char>,
    entries: Seq<AliasView>,
    list: Seq<KnownAttribute>,
)
    requires
        distinct_ids(known),
    ensures
        0 <= at < known.len() ==> distinct_ids(known.update(at, absorbed(known[at], candidate))),
        attribute_index(known, attribute_id_of(name)) is None && sorted_attributes(
            list,
            known.push(new_attribute(name, candidate)),
        ) ==> distinct_ids(known_views(list)),
        sorted_attributes(list, merged(known, entries)) ==> distinct_ids(known_views(list)),
{
    index_of_an_id(known, attribute_id_of(name));
    merging_keeps_ids_distinct(known, entries);
    if attribute_index(known, attribute_id_of(name)) is None && sorted_attributes(
        list,
        known.push(new_attribute(name, candidate)),
    ) {
        let unsorted = choose|unsorted: Seq<KnownAttribute>| #[trigger]
            known_views(unsorted) == known.push(new_attribute(name, candidate)) && list
                == crate::sorting::in_rank(unsorted);
        sorting_keeps_ids_distinct(unsorted);
    }
    if sorted_attributes(list, merged(known, entries)) {
        let unsorted = choose|unsorted: Seq<KnownAttribute>| #[trigger]
            known_views(unsorted) == merged(known, entries) && list == crate::sorting::in_rank(
                unsorted,
            );
        sorting_keeps_ids_distinct(unsorted);
    }
}

/// An exported catalog gives a fresh inventory the same attributes back, none of them reviewed yet.
pub proof fn exported_catalogs_are_read_back(known: Seq<KnownView>)
    requires
        distinct_ids(known),
    ensures
        merged(Seq::empty(), known.map_values(|k: KnownView| alias_of(k))) == known.map_values(
            |k: KnownView| KnownView { count: 0, ..k },
        ),
    decreases known.len(),
{
    let fresh = |k: KnownView| KnownView { count: 0, ..k };
    let aliases = known.map_values(|k: KnownView| alias_of(k));
    if known.len() > 0 {
        let rest = known.drop_last();
        exported_catalogs_are_read_back(rest);
        assert(aliases.drop_last() =~= rest.map_values(|k: KnownView| alias_of(k)));
        let before = rest.map_values(fresh);
        index_of_an_id(before, known.last().id);
        assert(attribute_index(before, known.last().id) is None) by {
            if attribute_index(before, known.last().id) is Some {
                let i = attribute_index(before, known.last().id)->0;
                assert(known[i].id == known[known.len() - 1].id);
            }
        }
        assert(known.map_values(fresh) =~= before.push(fresh(known.last())));
    } else {
        assert(known.map_values(fresh) =~= Seq::empty());
    }
}

/// The texts that stand at one path, over all documents.
#[derive(Debug, PartialEq, Eq)]
pub struct DiscoveredAttributeGroup {
    pub attribute_path: String,
    pub label: String,
    pub value_kind: CandidateValueKind,
    pub occurrence_count: usize,
    pub document_count: usize,
    pub source_paths: Vec<String>,
    pub example_values: Vec<String>,
}

/// What is known of the texts at one path.
pub struct GroupView {
    pub label: Seq<char>,
    pub kind: CandidateValueKind,
    pub count: nat,
    pub documents: Seq<Seq<char>>,
    pub sources: Seq<Seq<char>>,
    pub examples: Seq<Seq<char>>,
}

/// A list with one more text, unless it holds the text already.
pub open spec fn with_text(list: Seq<Seq<char>>, t: Seq<char>) -> Seq<Seq<char>> {
    if list.contains(t) {
        list
    } else {
        list.push(t)
    }
}

/// A group with one more occurrence: its place, document and value are added where they are new,
/// and of the values the first eight are kept.
pub open spec fn with_occurrence(
    group: GroupView,
    document: Seq<char>,
    candidate: CandidateView,
) -> GroupView {
    GroupView {
        count: group.count + 1,
        documents: with_text(group.documents, document),
        sources: with_text(group.sources, candidate.source),
        examples: if group.examples.len() < 8 {
            with_text(group.examples, candidate.value)
        } else {
            group.examples
        },
        ..group
    }
}

/// What a list of occurrences makes of one path; nothing where the path does not occur.
pub open spec fn group_at(
    occurrences: Seq<(Seq<char>, CandidateView)>,
    path: Seq<char>,
) -> Option<GroupView>
    decreases occurrences.len(),
{
    if occurrences.len() == 0 {
        None
    } else {
        let before = group_at(occurrences.drop_last(), path);
        let (document, candidate) = occurrences.last();
        if candidate.path != path {
            before
        } else {
            let group = match before {
                Some(g) => g,
                None => GroupView {
                    label: candidate.label,
                    kind: candidate.kind,
                    count: 0,
                    documents: Seq::empty(),
                    sources: Seq::empty(),
                    examples: Seq::empty(),
                },
            };
            Some(with_occurrence(group, document, candidate))
        }
    }
}

/// The occurrences of the first `n` candidates of a document.
pub open spec fn occurrences_in(
    key: Seq<char>,
    candidates: Seq<AttributeCandidate>,
) -> Seq<(Seq<char>, CandidateView)> {
    candidates.map_values(|c: AttributeCandidate| (key, c@))
}

/// The occurrences of all candidates, document by document.
pub open spec fn all_occurrences(documents: Seq<AttributeInventoryDocument>) -> Seq<
    (Seq<char>, CandidateView),
>
    decreases documents.len(),
{
    if documents.len() == 0 {
        Seq::empty()
    } else {
        all_occurrences(documents.drop_last()) + occurrences_in(
            documents.last().document_key@,
            documents.last().candidates@,
        )
    }
}

/// A number as far as it can be counted.
pub open spec fn counted(n: nat) -> usize {
    if n > usize::MAX {
        usize::MAX
    } else {
        n as usize
    }
}

/// Whether a group says what is known of a path.
pub open spec fn group_says(group: DiscoveredAttributeGroup, path: Seq<char>, view: GroupView) -> bool {
    &&& group.attribute_path@ == path
    &&& group.label@ == view.label
    &&& group.value_kind == view.kind
    &&& group.occurrence_count == counted(view.count)
    &&& group.document_count == view.documents.len()
    &&& crate::text::strings(group.source_paths@) == view.sources
    &&& crate::text::strings(group.example_values@) == view.examples
}

struct GroupInProgress {
    label: String,
    value_kind: CandidateValueKind,
    occurrence_count: usize,
    documents: Vec<String>,
    source_paths: Vec<String>,
    example_values: Vec<String>,
}

spec fn progress_says(group: GroupInProgress, view: GroupView) -> bool {
    &&& group.label@ == view.label
    &&& group.value_kind == view.kind
    &&& group.occurrence_count == counted(view.count)
    &&& crate::text::strings(group.documents@) == view.documents
    &&& crate::text::strings(group.source_paths@) == view.sources
    &&& crate::text::strings(group.example_values@) == view.examples
}

fn add_text(list: &mut Vec<String>, item: &str)
    ensures
        crate::text::strings(final(list)@) == with_text(crate::text::strings(old(list)@), item@),
{
    let ghost views = crate::text::strings(list@);
    let mut i: usize = 0;
    while i < list.len()
        invariant
            i <= list.len(),
            views == crate::text::strings(list@),
            *list == *old(list),
            forall|j: int| 0 <= j < i ==> #[trigger] views[j] != item@,
        decreases list.len() - i,
    {
        assert(views[i as int] == list@[i as int]@);
        if str_eq(list[i].as_str(), item) {
            return ;
        }
        i = i + 1;
    }
    list.push(item.to_owned());
    assert(crate::text::strings(list@) =~= views.push(item@));
}

/// Groups the texts of all documents by their path, in the order of the paths.
pub fn summarize_documents(documents: &[AttributeInventoryDocument]) -> (r: Vec<
    DiscoveredAttributeGroup,
>)
    ensures
        crate::text::ascending(
            r@.map_values(|g: DiscoveredAttributeGroup| g.attribute_path@),
        ),
        forall|i: int|
            0 <= i < r@.len() ==> {
                let path = (#[trigger] r@[i]).attribute_path@;
                group_at(all_occurrences(documents@), path) matches Some(view) && group_says(
                    r@[i],
                    path,
                    view,
                )
            },
        forall|path: Seq<char>| #[trigger]
            group_at(all_occurrences(documents@), path) is Some ==> exists|i: int|
                0 <= i < r@.len() && (#[trigger] r@[i]).attribute_path@ == path,
{
    let mut groups: TextMap<GroupInProgress> = TextMap::new();
    let mut d: usize = 0;
    assert(all_occurrences(documents@.take(0)) =~= Seq::<(Seq<char>, CandidateView)>::empty());
    while d < documents.len()
        invariant
            d <= documents.len(),
            forall|path: Seq<char>| #[trigger]
                groups@.contains_key(path) <==> group_at(
                    all_occurrences(documents@.take(d as int)),
                    path,
                ) is Some,
            forall|path: Seq<char>|
                groups@.contains_key(path) ==> progress_says(
                    #[trigger] groups@[path],
                    group_at(all_occurrences(documents@.take(d as int)), path)->0,
                ),
        decreases documents.len() - d,
    {
        let document = &documents[d];
        let ghost seen = all_occurrences(documents@.take(d as int));
        let ghost mine = occurrences_in(document.document_key@, document.candidates@);
        proof {
            assert(documents@.take(d + 1).drop_last() =~= documents@.take(d as int));
            assert(documents@.take(d + 1).last() == documents@[d as int]);
            assert(seen + mine.take(0) =~= seen);
        }
        let mut c: usize = 0;
        while c < document.candidates.len()
            invariant
                c <= document.candidates.len(),
                mine == occurrences_in(document.document_key@, document.candidates@),
                forall|path: Seq<char>| #[trigger]
                    groups@.contains_key(path) <==> group_at(
                        seen + mine.take(c as int),
                        path,
                    ) is Some,
                forall|path: Seq<char>|
                    groups@.contains_key(path) ==> progress_says(
                        #[trigger] groups@[path],
                        group_at(seen + mine.take(c as int), path)->0,
                    ),
            decreases document.candidates.len() - c,
        {
            let candidate = &document.candidates[c];
            let ghost before = seen + mine.take(c as int);
            let ghost after = seen + mine.take(c + 1);
            let ghost old_groups = groups@;
            proof {
                assert(after.drop_last() =~= before);
                assert(after.last() == (document.document_key@, candidate@));
            }
            let mut group = match groups.remove(candidate.attribute_path.as_str()) {
                Some(g) => g,
                None => GroupInProgress {
                    label: candidate.label.clone(),
                    value_kind: candidate.value_kind,
                    occurrence_count: 0,
                    documents: Vec::new(),
                    source_paths: Vec::new(),
                    example_values: Vec::new(),
                },
            };
            let ghost given = match group_at(before, candidate.attribute_path@) {
                Some(g) => g,
                None => GroupView {
                    label: candidate.label@,
                    kind: candidate.value_kind,
                    count: 0,
                    documents: Seq::empty(),
                    sources: Seq::empty(),
                    examples: Seq::empty(),
                },
            };
            proof {
                assert(old_groups.contains_key(candidate.attribute_path@) <==> group_at(
                    before,
                    candidate.attribute_path@,
                ) is Some);
                if old_groups.contains_key(candidate.attribute_path@) {
                    assert(progress_says(old_groups[candidate.attribute_path@], given));
                } else {
                    assert(crate::text::strings(group.documents@) =~= Seq::<Seq<char>>::empty());
                    assert(crate::text::strings(group.source_paths@) =~= Seq::<Seq<char>>::empty());
                    assert(crate::text::strings(group.example_values@) =~= Seq::<
                        Seq<char>,
                    >::empty());
                }
            }
            assert(progress_says(group, given));
            if group.occurrence_count < usize::MAX {
                group.occurrence_count = group.occurrence_count + 1;
            }
            add_text(&mut group.source_paths, candidate.source_path.as_str());
            if group.example_values.len() < 8 {
                add_text(&mut group.example_values, candidate.value.as_str());
            }
            add_text(&mut group.documents, document.document_key.as_str());
            assert(progress_says(
                group,
                with_occurrence(given, document.document_key@, candidate@),
            ));
            let ghost made = group;
            groups.insert(candidate.attribute_path.as_str(), group);
            proof {
                assert(groups@ =~= old_groups.insert(candidate.attribute_path@, made));
                assert forall|path: Seq<char>| #[trigger]
                    groups@.contains_key(path) <==> group_at(after, path) is Some by {
                    assert(old_groups.contains_key(path) <==> group_at(before, path) is Some);
                }
                assert forall|path: Seq<char>| groups@.contains_key(path) implies progress_says(
                    #[trigger] groups@[path],
                    group_at(after, path)->0,
                ) by {
                    if path != candidate.attribute_path@ {
                        assert(old_groups.contains_key(path));
                        assert(progress_says(old_groups[path], group_at(before, path)->0));
                    }
                }
            }
            c = c + 1;
        }
        assert(mine.take(c as int) =~= mine);
        d = d + 1;
    }
    assert(documents@.take(d as int) =~= documents@);
    let ghost total = all_occurrences(documents@);
    let entries = groups.entries();
    let ghost keys = crate::text_map::entry_keys(entries@);
    let mut out: Vec<DiscoveredAttributeGroup> = Vec::new();
    let mut i: usize = 0;
    while i < entries.len()
        invariant
            i <= entries.len(),
            keys == crate::text_map::entry_keys(entries@),
            crate::text::ascending(keys),
            crate::text_map::entry_map(entries@) == groups@,
            forall|path: Seq<char>| #[trigger]
                groups@.contains_key(path) <==> group_at(total, path) is Some,
            forall|path: Seq<char>|
                groups@.contains_key(path) ==> progress_says(
                    #[trigger] groups@[path],
                    group_at(total, path)->0,
                ),
            out@.len() == i,
            forall|j: int|
                0 <= j < i ==> {
                    let path = (#[trigger] out@[j]).attribute_path@;
                    &&& path == keys[j]
                    &&& group_at(total, path) matches Some(view) && group_says(out@[j], path, view)
                },
        decreases entries.len() - i,
    {
        let group = &entries[i].1;
        proof {
            crate::text_map::entry_at(entries@, i as int);
            assert(keys[i as int] == entries@[i as int].0@);
            assert(groups@.contains_key(keys[i as int]));
            assert(progress_says(groups@[keys[i as int]], group_at(total, keys[i as int])->0));
        }
        let made = DiscoveredAttributeGroup {
            attribute_path: entries[i].0.clone(),
            label: group.label.clone(),
            value_kind: group.value_kind,
            occurrence_count: group.occurrence_count,
            document_count: group.documents.len(),
            source_paths: copy_texts(&group.source_paths),
            example_values: copy_texts(&group.example_values),
        };
        assert(made.document_count == crate::text::strings(group.documents@).len());
        out.push(made);
        i = i + 1;
    }
    proof {
        let paths = out@.map_values(|g: DiscoveredAttributeGroup| g.attribute_path@);
        assert(paths =~= keys);
        assert forall|path: Seq<char>| #[trigger] group_at(total, path) is Some implies exists|k:
            int|
            0 <= k < out@.len() && (#[trigger] out@[k]).attribute_path@ == path by {
            assert(groups@.contains_key(path));
            assert(keys.contains(path));
            let k = choose|k: int| 0 <= k < keys.len() && keys[k] == path;
            assert(out@[k].attribute_path@ == path);
        }
    }
    out
}

/// Why a text is no count.
#[derive(Debug, Clone, Copy, PartialEq, Eq, Structural)]
pub enum CountError {
    Empty,
    InvalidDigit,
    TooLarge,
}

/// The value of decimal digits, or the fault at the first place that has one.
pub open spec fn digits_value(digits: Seq<char>) -> Result<nat, CountError>
    decreases digits.len(),
{
    if digits.len() == 0 {
        Ok(0)
    } else {
        match digits_value(digits.drop_last()) {
            Err(e) => Err(e),
            Ok(n) => if !crate::text::is_digit(digits.last()) {
                Err(CountError::InvalidDigit)
            } else if n * 10 + (digits.last() as int - '0' as int) > usize::MAX {
                Err(CountError::TooLarge)
            } else {
                Ok((n * 10 + (digits.last() as int - '0' as int)) as nat)
            },
        }
    }
}

/// The count that a text holds: decimal digits, which a plus sign may precede.
pub open spec fn count_value(s: Seq<char>) -> Result<nat, CountError> {
    if s.len() == 0 {
        Err(CountError::Empty)
    } else if s.len() == 1 && s[0] == '+' {
        Err(CountError::InvalidDigit)
    } else if s[0] == '+' {
        digits_value(s.skip(1))
    } else {
        digits_value(s)
    }
}

proof fn digits_fault_stays(digits: Seq<char>, i: int)
    requires
        0 <= i <= digits.len(),
        digits_value(digits.take(i)) is Err,
    ensures
        digits_value(digits) == digits_value(digits.take(i)),
    decreases digits.len() - i,
{
    if i < digits.len() {
        assert(digits.take(i + 1).drop_last() =~= digits.take(i));
        digits_fault_stays(digits, i + 1);
    } else {
        assert(digits.take(i) =~= digits);
    }
}

proof fn digit_codes(c: char)
    ensures
        crate::text::is_digit(c) ==> (c as u32) as int - 48 == c as int - '0' as int && 48 <= c as u32
            <= 57,
{
}

/// Reads a count.
pub fn parse_count(value: &str) -> (r: Result<usize, CountError>)
    ensures
        match r {
            Ok(n) => count_value(value@) == Ok::<nat, CountError>(n as nat),
            Err(e) => count_value(value@) == Err::<nat, CountError>(e),
        },
{
    let chars = chars_of(value);
    if chars.len() == 0 {
        return Err(CountError::Empty);
    }
    if chars.len() == 1 && chars[0] == '+' {
        return Err(CountError::InvalidDigit);
    }
    let start: usize = if chars[0] == '+' {
        1
    } else {
        0
    };
    let ghost digits = value@.skip(start as int);
    assert(start == 0 ==> digits =~= value@);
    assert(digits.take(0) =~= Seq::<char>::empty());
    let mut n: usize = 0;
    let mut i: usize = start;
    while i < chars.len()
        invariant
            start <= i <= chars.len(),
            chars@ == value@,
            digits == value@.skip(start as int),
            count_value(value@) == digits_value(digits),
            digits_value(digits.take(i - start)) == Ok::<nat, CountError>(n as nat),
        decreases chars.len() - i,
    {
        let c: char = chars[i];
        proof {
            assert(digits.take(i + 1 - start).drop_last() =~= digits.take(i - start));
            assert(digits.take(i + 1 - start).last() == c);
            digit_codes(c);
            if digits_value(digits.take(i + 1 - start)) is Err {
                digits_fault_stays(digits, i + 1 - start);
            }
        }
        if !('0' <= c && c <= '9') {
            return Err(CountError::InvalidDigit);
        }
        let d: usize = (c as u32 - 48) as usize;
        match n.checked_mul(10) {
            None => return Err(CountError::TooLarge),
            Some(tens) => match tens.checked_add(d) {
                None => return Err(CountError::TooLarge),
                Some(sum) => {
                    n = sum;
                },
            },
        }
        i = i + 1;
    }
    assert(digits.take(i - start) =~= digits);
    Ok(n)
}

/// What a line of input asks for.
#[derive(Debug, PartialEq, Eq)]
pub enum InventoryCommand {
    PickSuggestion(usize),
    MapExisting(String),
    CreateNew(String),
    Skip,
    Quit,
    Help,
}

/// What a command says.
pub enum CommandView {
    PickSuggestion(usize),
    MapExisting(Seq<char>),
    CreateNew(Seq<char>),
    Skip,
    Quit,
    Help,
}

impl View for InventoryCommand {
    type V = CommandView;

    open spec fn view(&self) -> CommandView {
        match *self {
            InventoryCommand::PickSuggestion(n) => CommandView::PickSuggestion(n),
            InventoryCommand::MapExisting(s) => CommandView::MapExisting(s@),
            InventoryCommand::CreateNew(s) => CommandView::CreateNew(s@),
            InventoryCommand::Skip => CommandView::Skip,
            InventoryCommand::Quit => CommandView::Quit,
            InventoryCommand::Help => CommandView::Help,
        }
    }
}

/// Whether a text is a word, whatever its letters' case.
pub open spec fn is_word(s: Seq<char>, word: Seq<char>) -> bool {
    crate::text::lowered(s) == crate::text::lowered(word)
}

fn same_word(s: &str, word: &str) -> (r: bool)
    ensures
        r == is_word(s@, word@),
{
    let a = chars_of(s);
    let b = chars_of(word);
    let ghost x = crate::text::lowered(s@);
    let ghost y = crate::text::lowered(word@);
    if a.len() != b.len() {
        assert(x.len() != y.len());
        return false;
    }
    let mut i: usize = 0;
    while i < a.len()
        invariant
            i <= a.len(),
            a.len() == b.len(),
            a@ == s@,
            b@ == word@,
            x == crate::text::lowered(s@),
            y == crate::text::lowered(word@),
            forall|j: int| 0 <= j < i ==> x[j] == y[j],
        decreases a.len() - i,
    {
        if char_lower(a[i]) != char_lower(b[i]) {
            assert(x[i as int] != y[i as int]);
            return false;
        }
        i = i + 1;
    }
    assert(x =~= y);
    true
}

/// The command that a line holds, or what is wrong with it.
pub open spec fn command_of(line: Seq<char>) -> Result<CommandView, Seq<char>> {
    let s = crate::text::trimmed(line);
    if s.len() == 0 || s == "?"@ || is_word(s, "help"@) {
        Ok(CommandView::Help)
    } else if is_word(s, "s"@) || is_word(s, "skip"@) {
        Ok(CommandView::Skip)
    } else if is_word(s, "q"@) || is_word(s, "quit"@) {
        Ok(CommandView::Quit)
    } else if count_value(s) is Ok {
        if count_value(s)->Ok_0 == 0 {
            Err("suggestion index starts at 1"@)
        } else {
            Ok(CommandView::PickSuggestion(count_value(s)->Ok_0 as usize))
        }
    } else if crate::text::begins(s, "e "@) {
        let id = crate::text::trimmed(s.skip("e "@.len() as int));
        if id.len() == 0 {
            Err("usage: e <attribute-id>"@)
        } else {
            Ok(CommandView::MapExisting(id))
        }
    } else if crate::text::begins(s, "n "@) {
        let name = crate::text::trimmed(s.skip("n "@.len() as int));
        if name.len() == 0 {
            Err("usage: n <attribute display name>"@)
        } else {
            Ok(CommandView::CreateNew(name))
        }
    } else {
        Err("commands: <number>, e <attribute-id>, n <name>, s, q, ?"@)
    }
}

/// Reads the command of a line.
pub fn parse_inventory_command(input: &str) -> (r: Result<InventoryCommand, String>)
    ensures
        crate::text::result_view(r) == command_of(input@),
{
    let s = trim(input);
    if s.is_empty() || str_eq(s, "?") || same_word(s, "help") {
        return Ok(InventoryCommand::Help);
    }
    if same_word(s, "s") || same_word(s, "skip") {
        return Ok(InventoryCommand::Skip);
    }
    if same_word(s, "q") || same_word(s, "quit") {
        return Ok(InventoryCommand::Quit);
    }
    match parse_count(s) {
        Ok(index) => {
            if index == 0 {
                return Err("suggestion index starts at 1".to_owned());
            }
            return Ok(InventoryCommand::PickSuggestion(index));
        },
        Err(_) => {},
    }
    match strip_prefix(s, "e ") {
        Some(value) => {
            let id = trim(value);
            if id.is_empty() {
                return Err("usage: e <attribute-id>".to_owned());
            }
            return Ok(InventoryCommand::MapExisting(id.to_owned()));
        },
        None => {},
    }
    match strip_prefix(s, "n ") {
        Some(value) => {
            let name = trim(value);
            if name.is_empty() {
                return Err("usage: n <attribute display name>".to_owned());
            }
            return Ok(InventoryCommand::CreateNew(name.to_owned()));
        },
        None => {},
    }
    Err("commands: <number>, e <attribute-id>, n <name>, s, q, ?".to_owned())
}

} // verus!
