//! Names of properties, compared without regard to case, space and punctuation.

use vstd::prelude::*;
use vstd::string::*;

use crate::text::{chars_of, str_eq};

verus! {

/// Whether a character is a letter or a number in Unicode.
pub uninterp spec fn alphanumeric(c: char) -> bool;

/// A character in small letters, which may take several characters.
pub uninterp spec fn lowercase(c: char) -> Seq<char>;

/// The `is_alphanumeric` of `char`. The contract claims that it depends on the character alone and
/// that it takes the letters and digits of ASCII, and nothing else of ASCII.
pub assume_specification[ char::is_alphanumeric ](c: char) -> (r: bool)
    ensures
        r == alphanumeric(c),
        c <= '\u{7f}' ==> r == crate::text::is_alnum(c),
;

/// The characters of the `to_lowercase` of `char`. The contract claims that they depend on the
/// character alone, and that of the characters of ASCII the capital letters become small ones and
/// the others stay.
#[verifier::external_body]
fn char_lowercase(c: char) -> (r: String)
    ensures
        r@ == lowercase(c),
        c <= '\u{7f}' ==> r@ == seq![crate::text::lower(c)],
{
    c.to_lowercase().to_string()
}

/// Whether a character counts in a name: a letter or a number.
pub open spec fn names_something(c: char) -> bool {
    if c <= '\u{7f}' {
        crate::text::is_alnum(c)
    } else {
        alphanumeric(c)
    }
}

/// A character of a name in small letters.
pub open spec fn small(c: char) -> Seq<char> {
    if c <= '\u{7f}' {
        seq![crate::text::lower(c)]
    } else {
        lowercase(c)
    }
}

/// A name without what is no letter or number, in small letters.
pub open spec fn normalized_name(name: Seq<char>) -> Seq<char>
    decreases name.len(),
{
    if name.len() == 0 {
        Seq::empty()
    } else if names_something(name.last()) {
        normalized_name(name.drop_last()) + small(name.last())
    } else {
        normalized_name(name.drop_last())
    }
}

/// A name without what is no letter or number, in small letters.
pub fn normalize_property_name(value: &str) -> (r: String)
    ensures
        r@ == normalized_name(value@),
{
    let chars = chars_of(value);
    let mut out = String::new();
    let mut i: usize = 0;
    while i < chars.len()
        invariant
            i <= chars.len(),
            chars@ == value@,
            out@ == normalized_name(value@.take(i as int)),
        decreases chars.len() - i,
    {
        proof {
            assert(value@.take(i + 1).drop_last() =~= value@.take(i as int));
        }
        if chars[i].is_alphanumeric() {
            let letters = char_lowercase(chars[i]);
            out.append(letters.as_str());
        }
        i = i + 1;
    }
    assert(value@.take(i as int) =~= value@);
    out
}

/// Whether a text has a name at all and no earlier one has the same.
pub open spec fn first_of_its_name(texts: Seq<Seq<char>>, i: int) -> bool {
    &&& normalized_name(texts[i]).len() > 0
    &&& forall|j: int| 0 <= j < i ==> normalized_name(#[trigger] texts[j]) != normalized_name(texts[i])
}

/// The texts that have a name, each name once, in the order in which they came first.
pub open spec fn once_by_name(texts: Seq<Seq<char>>) -> Seq<Seq<char>>
    decreases texts.len(),
{
    if texts.len() == 0 {
        Seq::empty()
    } else {
        let before = once_by_name(texts.drop_last());
        if first_of_its_name(texts, texts.len() - 1) {
            before.push(texts.last())
        } else {
            before
        }
    }
}

/// The texts that have a name, each name once, in the order in which they came first.
pub fn keep_once_by_name(texts: &Vec<String>) -> (r: Vec<String>)
    ensures
        crate::text::strings(r@) == once_by_name(crate::text::strings(texts@)),
{
    let ghost all = crate::text::strings(texts@);
    let mut keys: Vec<String> = Vec::new();
    let mut out: Vec<String> = Vec::new();
    let mut i: usize = 0;
    assert(crate::text::strings(out@) =~= once_by_name(all.take(0)));
    while i < texts.len()
        invariant
            i <= texts.len(),
            all == crate::text::strings(texts@),
            keys.len() == i,
            forall|j: int| 0 <= j < i ==> (#[trigger] keys@[j])@ == normalized_name(all[j]),
            crate::text::strings(out@) == once_by_name(all.take(i as int)),
        decreases texts.len() - i,
    {
        let key = normalize_property_name(texts[i].as_str());
        let ghost now = all.take(i + 1);
        proof {
            assert(now.drop_last() =~= all.take(i as int));
            assert(now.last() == texts@[i as int]@);
        }
        let mut fresh = key.as_str().unicode_len() > 0;
        let mut k: usize = 0;
        while k < keys.len()
            invariant
                k <= keys.len(),
                keys.len() == i,
                i < texts.len(),
                all == crate::text::strings(texts@),
                now == all.take(i + 1),
                key@ == normalized_name(now[i as int]),
                forall|j: int| 0 <= j < i ==> (#[trigger] keys@[j])@ == normalized_name(all[j]),
                fresh == (key@.len() > 0 && forall|j: int|
                    0 <= j < k ==> normalized_name(#[trigger] now[j]) != key@),
            decreases keys.len() - k,
        {
            assert(now[k as int] == all[k as int]);
            if str_eq(keys[k].as_str(), key.as_str()) {
                fresh = false;
            }
            k = k + 1;
        }
        assert(fresh == first_of_its_name(now, i as int));
        let ghost before = out@;
        if fresh {
            out.push(texts[i].clone());
            assert(crate::text::strings(out@) =~= crate::text::strings(before).push(now.last()));
        }
        keys.push(key);
        i = i + 1;
    }
    assert(all.take(i as int) =~= all);
    out
}

/// Of texts that are kept once by name, no two have the same name, and each is one of those given.
pub proof fn names_are_kept_once(texts: Seq<Seq<char>>)
    ensures
        forall|i: int|
            0 <= i < once_by_name(texts).len() ==> {
                &&& texts.contains(#[trigger] once_by_name(texts)[i])
                &&& normalized_name(once_by_name(texts)[i]).len() > 0
            },
        forall|i: int, j: int|
            0 <= i < j < once_by_name(texts).len() ==> normalized_name(
                #[trigger] once_by_name(texts)[i],
            ) != normalized_name(#[trigger] once_by_name(texts)[j]),
    decreases texts.len(),
{
    if texts.len() > 0 {
        let init = texts.drop_last();
        names_are_kept_once(init);
        let before = once_by_name(init);
        assert forall|i: int| 0 <= i < before.len() implies texts.contains(
            #[trigger] before[i],
        ) && exists|k: int| 0 <= k < texts.len() - 1 && texts[k] == before[i] by {
            let k = choose|k: int| 0 <= k < init.len() && init[k] == before[i];
            assert(texts[k] == before[i]);
        }
        assert(texts.last() == texts[texts.len() - 1]);
        assert(texts.contains(texts.last()));
        let after = once_by_name(texts);
        assert forall|i: int, j: int| 0 <= i < j < after.len() implies normalized_name(
            #[trigger] after[i],
        ) != normalized_name(#[trigger] after[j]) by {
            assert(after[i] == before[i]);
            if j < before.len() {
                assert(after[j] == before[j]);
            }
        }
        assert forall|i: int| 0 <= i < after.len() implies texts.contains(#[trigger] after[i])
            && normalized_name(after[i]).len() > 0 by {
            if i < before.len() {
                assert(after[i] == before[i]);
            }
        }
    }
}

} // verus!
