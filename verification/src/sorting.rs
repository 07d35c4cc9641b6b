//! Sorting by a ranking.

use vstd::prelude::*;

verus! {

/// Things that stand in a ranking, where several may hold the same rank.
pub trait Ranked: Sized {
    /// Whether one ranks before another.
    spec fn ranks_before(&self, other: &Self) -> bool;

    /// What does not rank behind something does not rank behind what follows it.
    proof fn ranks_transitively(a: &Self, b: &Self, c: &Self)
        requires
            !b.ranks_before(a),
            !c.ranks_before(b),
        ensures
            !c.ranks_before(a),
    ;

    /// Of two things at most one ranks before the other.
    proof fn ranks_one_way(a: &Self, b: &Self)
        ensures
            !(a.ranks_before(b) && b.ranks_before(a)),
    ;

    fn is_before(&self, other: &Self) -> (r: bool)
        ensures
            r == self.ranks_before(other),
    ;
}

/// Whether a list is in the order of its ranking.
pub open spec fn ranked<T: Ranked>(list: Seq<T>) -> bool {
    forall|i: int, j: int|
        #![trigger list[i], list[j]]
        0 <= i < j < list.len() ==> !list[j].ranks_before(&list[i])
}

/// A ranked list with one more item, which stands behind the others of its rank.
pub open spec fn placed<T: Ranked>(list: Seq<T>, item: T) -> Seq<T>
    decreases list.len(),
{
    if list.len() > 0 && item.ranks_before(&list.last()) {
        placed(list.drop_last(), item).push(list.last())
    } else {
        list.push(item)
    }
}

/// A list in the order of its ranking, where items of one rank keep their order.
pub open spec fn in_rank<T: Ranked>(items: Seq<T>) -> Seq<T>
    decreases items.len(),
{
    if items.len() == 0 {
        items
    } else {
        placed(in_rank(items.drop_last()), items.last())
    }
}

/// Whether two items hold the same rank.
pub open spec fn same_rank<T: Ranked>(a: &T, b: &T) -> bool {
    !a.ranks_before(b) && !b.ranks_before(a)
}

proof fn placed_at<T: Ranked>(list: Seq<T>, item: T, k: int)
    requires
        0 <= k <= list.len(),
        k > 0 ==> !item.ranks_before(&list[k - 1]),
        forall|j: int| k <= j < list.len() ==> item.ranks_before(#[trigger] &list[j]),
    ensures
        placed(list, item) == list.insert(k, item),
    decreases list.len(),
{
    if k == list.len() {
        assert(list.insert(k, item) =~= list.push(item));
    } else {
        placed_at(list.drop_last(), item, k);
        assert(list.insert(k, item) =~= list.drop_last().insert(k, item).push(list.last()));
    }
}

proof fn placed_is_ranked<T: Ranked>(list: Seq<T>, item: T)
    requires
        ranked(list),
    ensures
        ranked(placed(list, item)),
        placed(list, item).to_multiset() == list.to_multiset().insert(item),
        placed(list, item).len() == list.len() + 1,
    decreases list.len(),
{
    let after = placed(list, item);
    list.to_multiset_ensures();
    if list.len() > 0 && item.ranks_before(&list.last()) {
        let rest = list.drop_last();
        let shorter = placed(rest, item);
        placed_is_ranked(rest, item);
        shorter.to_multiset_ensures();
        rest.to_multiset_ensures();
        assert(list =~= rest.push(list.last()));
        assert forall|i: int, j: int|
            #![trigger after[i], after[j]]
            0 <= i < j < after.len() implies !after[j].ranks_before(&after[i]) by {
            if j == after.len() - 1 {
                let earlier = shorter[i];
                assert(shorter.to_multiset().contains(earlier)) by {
                    assert(shorter.contains(earlier));
                }
                if earlier == item {
                    T::ranks_one_way(&item, &list.last());
                } else {
                    assert(rest.to_multiset().contains(earlier));
                    assert(rest.contains(earlier));
                    let at = choose|at: int| 0 <= at < rest.len() && rest[at] == earlier;
                    assert(list[at] == earlier);
                }
            } else {
                assert(after[i] == shorter[i] && after[j] == shorter[j]);
            }
        }
        assert(after.to_multiset() =~= list.to_multiset().insert(item));
    } else {
        assert forall|i: int, j: int|
            #![trigger after[i], after[j]]
            0 <= i < j < after.len() implies !after[j].ranks_before(&after[i]) by {
            if j == list.len() && i < list.len() - 1 {
                T::ranks_transitively(&list[i], &list.last(), &item);
            } else if j < list.len() {
                assert(after[i] == list[i] && after[j] == list[j]);
            }
        }
    }
}

/// Sorting puts a list in the order of its ranking and neither adds nor drops anything.
pub proof fn sorting_rearranges<T: Ranked>(items: Seq<T>)
    ensures
        ranked(in_rank(items)),
        in_rank(items).to_multiset() == items.to_multiset(),
        in_rank(items).len() == items.len(),
    decreases items.len(),
{
    if items.len() > 0 {
        sorting_rearranges(items.drop_last());
        placed_is_ranked(in_rank(items.drop_last()), items.last());
        items.drop_last().to_multiset_ensures();
        assert(items =~= items.drop_last().push(items.last()));
    }
}

/// The items of a list that hold the rank of one item, in order.
pub open spec fn of_rank<T: Ranked>(items: Seq<T>, one: T) -> Seq<T> {
    items.filter(|x: T| same_rank(&one, &x))
}

proof fn of_rank_push<T: Ranked>(items: Seq<T>, item: T, one: T)
    ensures
        of_rank(items.push(item), one) == if same_rank(&one, &item) {
            of_rank(items, one).push(item)
        } else {
            of_rank(items, one)
        },
{
    reveal(Seq::filter);
    assert(items.push(item).drop_last() =~= items);
}

proof fn placed_behind_its_rank<T: Ranked>(list: Seq<T>, item: T, one: T)
    ensures
        of_rank(placed(list, item), one) == of_rank(list.push(item), one),
    decreases list.len(),
{
    if list.len() > 0 && item.ranks_before(&list.last()) {
        let rest = list.drop_last();
        placed_behind_its_rank(rest, item, one);
        of_rank_push(rest, item, one);
        of_rank_push(placed(rest, item), list.last(), one);
        of_rank_push(rest, list.last(), one);
        of_rank_push(list, item, one);
        assert(rest.push(list.last()) =~= list);
        if same_rank(&one, &item) && same_rank(&one, &list.last()) {
            T::ranks_transitively(&list.last(), &one, &item);
        }
    }
}

/// Items of the same rank stand in a sorted list in the order in which they were given.
pub proof fn equal_ranks_keep_their_order<T: Ranked>(items: Seq<T>, one: T)
    ensures
        of_rank(in_rank(items), one) == of_rank(items, one),
    decreases items.len(),
{
    if items.len() > 0 {
        let rest = items.drop_last();
        equal_ranks_keep_their_order(rest, one);
        placed_behind_its_rank(in_rank(rest), items.last(), one);
        of_rank_push(in_rank(rest), items.last(), one);
        of_rank_push(rest, items.last(), one);
        assert(rest.push(items.last()) =~= items);
    }
}

fn insert_ranked<T: Ranked>(list: &mut Vec<T>, item: T)
    ensures
        final(list)@ == placed(old(list)@, item),
{
    let ghost before = list@;
    let mut k: usize = list.len();
    while k > 0 && item.is_before(&list[k - 1])
        invariant
            k <= list.len(),
            before == list@,
            forall|j: int| k <= j < before.len() ==> item.ranks_before(#[trigger] &before[j]),
        decreases k,
    {
        k = k - 1;
    }
    proof {
        placed_at(before, item, k as int);
    }
    list.insert(k, item);
}

/// Sorts a list by its ranking; items of one rank keep their order.
pub fn sort<T: Ranked>(items: Vec<T>) -> (r: Vec<T>)
    ensures
        r@ == in_rank(items@),
{
    let ghost all = items@;
    let mut rest = items;
    let mut out: Vec<T> = Vec::new();
    let n: usize = rest.len();
    let mut i: usize = 0;
    assert(out@ =~= in_rank(all.take(0)));
    while i < n
        invariant
            i <= n,
            n == all.len(),
            rest@ == all.skip(i as int),
            out@ == in_rank(all.take(i as int)),
        decreases n - i,
    {
        let item = rest.remove(0);
        assert(item == all[i as int]);
        assert(rest@ =~= all.skip(i + 1));
        assert(all.take(i + 1).drop_last() =~= all.take(i as int));
        insert_ranked(&mut out, item);
        i = i + 1;
    }
    assert(all.take(n as int) =~= all);
    out
}

} // verus!
