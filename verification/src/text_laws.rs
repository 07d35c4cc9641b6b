//! Laws of texts.

use vstd::prelude::*;

verus! {

/// One text comes before another just where it is a shorter beginning of it or has the smaller
/// character in the first place where both differ.
pub proof fn texts_are_ordered_by_their_first_difference(a: Seq<char>, b: Seq<char>, n: int)
    requires
        0 <= n <= a.len(),
        n <= b.len(),
        forall|i: int| 0 <= i < n ==> #[trigger] a[i] == b[i],
    ensures
        n == a.len() && n < b.len() ==> crate::text::precedes(a, b),
        n == b.len() ==> !crate::text::precedes(a, b),
        n < a.len() && n < b.len() && (a[n] as int) < (b[n] as int) ==> crate::text::precedes(a, b),
        n < a.len() && n < b.len() && (a[n] as int) > (b[n] as int) ==> !crate::text::precedes(
            a,
            b,
        ),
    decreases n,
{
    if n > 0 {
        assert(a[0] == b[0]);
        let x = a.drop_first();
        let y = b.drop_first();
        assert forall|i: int| 0 <= i < n - 1 implies #[trigger] x[i] == y[i] by {
            assert(a[i + 1] == b[i + 1]);
        }
        texts_are_ordered_by_their_first_difference(x, y, n - 1);
    }
}

spec fn parts_at(list: Seq<Seq<char>>, one: Seq<char>, k: int) -> bool {
    &&& 0 <= k <= list.len()
    &&& forall|i: int| 0 <= i < k ==> crate::text::precedes(#[trigger] list[i], one)
    &&& forall|i: int| k <= i < list.len() ==> crate::text::precedes(one, #[trigger] list[i])
}

proof fn set_has_a_list(set: Set<Seq<char>>) -> (list: Seq<Seq<char>>)
    requires
        set.finite(),
    ensures
        crate::text::ascending(list),
        forall|t: Seq<char>| #[trigger] list.contains(t) <==> set.contains(t),
    decreases set.len(),
{
    if set.len() == 0 {
        let list = Seq::<Seq<char>>::empty();
        assert(set =~= Set::empty());
        assert(forall|t: Seq<char>| #[trigger] list.contains(t) <==> set.contains(t));
        list
    } else {
        let one = set.choose();
        let rest = set_has_a_list(set.remove(one));
        insertion_place(rest, one);
        let k = choose|k: int| #[trigger] parts_at(rest, one, k);
        let list = rest.insert(k, one);
        assert forall|i: int, j: int| 0 <= i < j < list.len() implies crate::text::precedes(
            #[trigger] list[i],
            #[trigger] list[j],
        ) by {
            if i < k && j == k {
                assert(list[i] == rest[i]);
            } else if i == k {
                assert(list[j] == rest[j - 1]);
            } else if i < k && j < k {
                assert(list[i] == rest[i] && list[j] == rest[j]);
            } else if i < k {
                assert(list[i] == rest[i] && list[j] == rest[j - 1]);
            } else {
                assert(list[i] == rest[i - 1] && list[j] == rest[j - 1]);
            }
        }
        assert forall|t: Seq<char>| #[trigger] list.contains(t) <==> set.contains(t) by {
            if list.contains(t) {
                let i = choose|i: int| 0 <= i < list.len() && list[i] == t;
                if i < k {
                    assert(rest[i] == t);
                    assert(rest.contains(t));
                } else if i > k {
                    assert(rest[i - 1] == t);
                    assert(rest.contains(t));
                }
            }
            if set.contains(t) {
                if t == one {
                    assert(list[k] == t);
                } else {
                    assert(rest.contains(t));
                    let i = choose|i: int| 0 <= i < rest.len() && rest[i] == t;
                    if i < k {
                        assert(list[i] == t);
                    } else {
                        assert(list[i + 1] == t);
                    }
                }
            }
        }
        list
    }
}

proof fn insertion_place(list: Seq<Seq<char>>, one: Seq<char>)
    requires
        crate::text::ascending(list),
        !list.contains(one),
    ensures
        exists|k: int| #[trigger] parts_at(list, one, k),
    decreases list.len(),
{
    if list.len() == 0 {
        let k: int = 0;
        assert(parts_at(list, one, k));
    } else {
        let rest = list.drop_last();
        assert(forall|i: int| 0 <= i < rest.len() ==> #[trigger] rest[i] == list[i]);
        if rest.contains(one) {
            let i = choose|i: int| 0 <= i < rest.len() && rest[i] == one;
            assert(list[i] == one);
        }
        crate::text::precedes_total(list.last(), one);
        assert(list[list.len() - 1] == list.last());
        if crate::text::precedes(list.last(), one) {
            let k = list.len() as int;
            assert forall|i: int| 0 <= i < k implies crate::text::precedes(#[trigger] list[i], one) by {
                if i < list.len() - 1 {
                    crate::text::precedes_transitive(list[i], list[list.len() - 1], one);
                }
            }
            assert(parts_at(list, one, k));
        } else {
            assert forall|i: int, j: int| 0 <= i < j < rest.len() implies crate::text::precedes(
                #[trigger] rest[i],
                #[trigger] rest[j],
            ) by {
                assert(crate::text::precedes(list[i], list[j]));
            }
            insertion_place(rest, one);
            let k = choose|k: int| #[trigger] parts_at(rest, one, k);
            assert forall|i: int| 0 <= i < k implies crate::text::precedes(#[trigger] list[i], one) by {
                assert(crate::text::precedes(rest[i], one));
            }
            assert forall|i: int| k <= i < list.len() implies crate::text::precedes(one, #[trigger] list[i]) by {
                if i < rest.len() {
                    assert(crate::text::precedes(one, rest[i]));
                }
            }
            assert(parts_at(list, one, k));
        }
    }
}

/// The list of a finite set of texts holds just the texts of the set, each before the ones that
/// follow it in the order of texts.
pub proof fn sets_are_listed(set: Set<Seq<char>>)
    requires
        set.finite(),
    ensures
        forall|t: Seq<char>| #[trigger]
            crate::text::sorted_texts(set).contains(t) <==> set.contains(t),
        crate::text::ascending(crate::text::sorted_texts(set)),
        forall|i: int, j: int|
            0 <= i < j < crate::text::sorted_texts(set).len() ==> crate::text::precedes(
                #[trigger] crate::text::sorted_texts(set)[i],
                #[trigger] crate::text::sorted_texts(set)[j],
            ),
{
    let list = set_has_a_list(set);
    crate::text::ascending_list_of_a_set(list, set);
}

/// A text is made of what white space stands before it, of the text without it and of what white
/// space stands behind it; and what is left neither begins nor ends with white space.
pub proof fn trimming_takes_white_space_from_both_ends(s: Seq<char>)
    ensures
        exists|before: Seq<char>, after: Seq<char>|
            #[trigger] crate::text::blank(before) && #[trigger] crate::text::blank(after) && s
                == before + crate::text::trimmed(s) + after,
        crate::text::trimmed(s).len() > 0 ==> !crate::text::is_space(crate::text::trimmed(s)[0])
            && !crate::text::is_space(crate::text::trimmed(s).last()),
{
    let head = trimmed_from_the_start(s);
    let middle = crate::text::trimmed_start(s);
    let tail = trimmed_from_the_end(middle);
    assert(s =~= head + crate::text::trimmed(s) + tail);
    assert(crate::text::blank(head) && crate::text::blank(tail));
}

proof fn trimmed_from_the_start(s: Seq<char>) -> (before: Seq<char>)
    ensures
        crate::text::blank(before),
        s == before + crate::text::trimmed_start(s),
        crate::text::trimmed_start(s).len() > 0 ==> !crate::text::is_space(
            crate::text::trimmed_start(s)[0],
        ),
    decreases s.len(),
{
    if s.len() > 0 && crate::text::is_space(s[0]) {
        let rest = s.drop_first();
        let b = trimmed_from_the_start(rest);
        let before = seq![s[0]] + b;
        assert(crate::text::trimmed_start(s) == crate::text::trimmed_start(rest));
        assert(s =~= seq![s[0]] + rest);
        assert(s =~= before + crate::text::trimmed_start(s));
        before
    } else {
        let before = Seq::<char>::empty();
        assert(s =~= before + crate::text::trimmed_start(s));
        before
    }
}

proof fn trimmed_from_the_end(s: Seq<char>) -> (after: Seq<char>)
    ensures
        crate::text::blank(after),
        s == crate::text::trimmed_end(s) + after,
        crate::text::trimmed_end(s).len() > 0 ==> !crate::text::is_space(
            crate::text::trimmed_end(s).last(),
        ) && crate::text::trimmed_end(s)[0] == s[0],
    decreases s.len(),
{
    if s.len() > 0 && crate::text::is_space(s.last()) {
        let rest = s.drop_last();
        let a = trimmed_from_the_end(rest);
        let after = a.push(s.last());
        assert(crate::text::trimmed_end(s) == crate::text::trimmed_end(rest));
        assert(s =~= rest.push(s.last()));
        assert(s =~= crate::text::trimmed_end(s) + after);
        after
    } else {
        let after = Seq::<char>::empty();
        assert(s =~= crate::text::trimmed_end(s) + after);
        after
    }
}

/// What a digit stands for.
pub open spec fn digit_value(c: char) -> int {
    (c as u32) as int - ('0' as u32) as int
}

/// The number that a row of digits stands for.
pub open spec fn number_of(digits: Seq<char>) -> int
    decreases digits.len(),
{
    if digits.len() == 0 {
        0
    } else {
        10 * number_of(digits.drop_last()) + digit_value(digits.last())
    }
}

/// A number in decimal notation is a row of digits that stands for that number, without a zero
/// before it unless it is zero itself.
pub proof fn decimals_stand_for_their_number(n: nat)
    ensures
        number_of(crate::text::decimal(n)) == n,
        crate::text::decimal(n).len() >= 1,
        forall|i: int|
            0 <= i < crate::text::decimal(n).len() ==> '0' <= #[trigger] crate::text::decimal(n)[i]
                && crate::text::decimal(n)[i] <= '9',
        n > 0 ==> crate::text::decimal(n)[0] != '0',
        n == 0 ==> crate::text::decimal(n) == seq!['0'],
    decreases n,
{
    reveal_with_fuel(number_of, 2);
    let d = crate::text::decimal(n);
    if n < 10 {
        assert(d =~= seq![crate::text::digit(n)]);
        assert(d.drop_last() =~= Seq::empty());
        assert(digit_value(crate::text::digit(n)) == n);
    } else {
        decimals_stand_for_their_number(n / 10);
        assert(d.drop_last() =~= crate::text::decimal(n / 10));
        assert(digit_value(crate::text::digit(n % 10)) == n % 10);
        assert(d[0] == crate::text::decimal(n / 10)[0]);
    }
}

/// A filled number ends with the number, has zeros before it and is as wide as is asked where the
/// number alone is not.
pub proof fn filled_numbers_begin_with_zeros(n: nat, width: nat, k: int)
    ensures
        crate::text::padded(n, width).len() == if crate::text::decimal(n).len() < width {
            width
        } else {
            crate::text::decimal(n).len()
        },
        0 <= k < crate::text::padded(n, width).len() - crate::text::decimal(n).len()
            ==> crate::text::padded(n, width)[k] == '0',
        0 <= k < crate::text::decimal(n).len() ==> crate::text::padded(n, width)[k + (
        crate::text::padded(n, width).len() - crate::text::decimal(n).len())]
            == crate::text::decimal(n)[k],
{
}

/// Joined texts: one text stands alone, and of more the first one is followed by the separator and
/// the others joined.
pub proof fn joined_texts_stand_with_a_separator_between(parts: Seq<Seq<char>>, sep: Seq<char>)
    ensures
        parts.len() == 0 ==> crate::text::join(parts, sep) == Seq::<char>::empty(),
        parts.len() == 1 ==> crate::text::join(parts, sep) == parts[0],
        parts.len() >= 2 ==> crate::text::join(parts, sep) == parts[0] + sep + crate::text::join(
            parts.drop_first(),
            sep,
        ),
    decreases parts.len(),
{
    if parts.len() == 2 {
        reveal_with_fuel(crate::text::join, 3);
        assert(parts.drop_last() =~= seq![parts[0]]);
        assert(parts.drop_first() =~= seq![parts[1]]);
    } else if parts.len() > 2 {
        let rest = parts.drop_last();
        joined_texts_stand_with_a_separator_between(rest, sep);
        assert(rest.drop_first() =~= parts.drop_first().drop_last());
        assert(parts.drop_first().last() == parts.last());
        assert(crate::text::join(parts, sep) =~= parts[0] + sep + crate::text::join(
            parts.drop_first(),
            sep,
        ));
    }
}

/// Making a capital small and a small letter capital are each other's reverse, and nothing else is
/// changed.
pub proof fn letters_change_their_size_alone(c: char)
    ensures
        'A' <= c && c <= 'Z' ==> crate::text::lower(c) as u32 == c as u32 + 32
            && crate::text::upper(crate::text::lower(c)) == c,
        !('A' <= c && c <= 'Z') ==> crate::text::lower(c) == c,
        'a' <= c && c <= 'z' ==> crate::text::upper(c) as u32 == c as u32 - 32
            && crate::text::lower(crate::text::upper(c)) == c,
        !('a' <= c && c <= 'z') ==> crate::text::upper(c) == c,
{
    if 'A' <= c && c <= 'Z' {
        let n = c as u8;
        assert(n as int == c as int);
        assert(crate::text::lower(c) as int == n as int + 32);
        let m = crate::text::lower(c) as u8;
        assert(m as int == n as int + 32);
    }
    if 'a' <= c && c <= 'z' {
        let n = c as u8;
        assert(n as int == c as int);
        assert(crate::text::upper(c) as int == n as int - 32);
        let m = crate::text::upper(c) as u8;
        assert(m as int == n as int - 32);
    }
}

/// A lowered text has the length of the text and in each place its character made small.
pub proof fn texts_are_lowered_by_character(s: Seq<char>, i: int)
    requires
        0 <= i < s.len(),
    ensures
        crate::text::lowered(s).len() == s.len(),
        'A' <= s[i] && s[i] <= 'Z' ==> crate::text::lowered(s)[i] as u32 == s[i] as u32 + 32,
        !('A' <= s[i] && s[i] <= 'Z') ==> crate::text::lowered(s)[i] == s[i],
{
    letters_change_their_size_alone(s[i]);
}

} // verus!
