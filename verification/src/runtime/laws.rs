//! What holds of routing keys and of the partition log as a whole.

use vstd::prelude::*;

use crate::runtime::partition::{
    CapacitySplitPlan, EventView, PartitionErrorView, RoutedObservation, ROUTING_AXIS_SEPARATOR,
};
use crate::runtime::resolver::LeafFilter;
use crate::runtime::tree::TreeView;

verus! {

/// UTF-8 encodes a text piece by piece.
pub proof fn utf8_of_joined_text(a: Seq<char>, b: Seq<char>)
    ensures
        vstd::utf8::encode_utf8(a + b) == vstd::utf8::encode_utf8(a) + vstd::utf8::encode_utf8(b),
    decreases a.len(),
{
    if a.len() == 0 {
        assert(a + b =~= b);
        assert(vstd::utf8::encode_utf8(a) =~= Seq::<u8>::empty());
        assert(vstd::utf8::encode_utf8(a) + vstd::utf8::encode_utf8(b) =~= vstd::utf8::encode_utf8(
            b,
        ));
    } else {
        let ab = a + b;
        assert(ab.drop_first() =~= a.drop_first() + b);
        assert(ab[0] == a[0]);
        utf8_of_joined_text(a.drop_first(), b);
        assert(vstd::utf8::encode_utf8(ab) =~= vstd::utf8::encode_utf8(a)
            + vstd::utf8::encode_utf8(b));
    }
}

/// A joined list starts with the join of its first parts and a separator.
proof fn join_starts_with_its_first_parts(parts: Seq<Seq<char>>, sep: Seq<char>, n: int)
    requires
        0 < n < parts.len(),
    ensures
        crate::text::begins(
            crate::text::join(parts, sep),
            crate::text::join(parts.take(n), sep) + sep,
        ),
    decreases parts.len(),
{
    let whole = crate::text::join(parts, sep);
    let head = crate::text::join(parts.take(n), sep) + sep;
    let most = parts.drop_last();
    assert(whole == crate::text::join(most, sep) + sep + parts.last());
    if n == parts.len() - 1 {
        assert(parts.take(n) =~= most);
        assert(whole.take(head.len() as int) =~= head);
    } else {
        join_starts_with_its_first_parts(most, sep, n);
        assert(most.take(n) =~= parts.take(n));
        assert(whole.take(head.len() as int) =~= crate::text::join(most, sep).take(
            head.len() as int,
        ));
    }
}

/// Keys that share their first axes share the bytes of the prefix that these axes make.
pub proof fn prefix_bytes_start_the_key(axes: Seq<Seq<char>>, n: int)
    requires
        axes.len() == 5,
        0 < n <= 5,
    ensures
        crate::runtime::partition::prefix_bytes(axes.take(n)).is_prefix_of(
            crate::runtime::partition::key_bytes(axes),
        ),
{
    let sep = seq![ROUTING_AXIS_SEPARATOR];
    let whole = crate::runtime::partition::encoded_axes(axes);
    if n == 5 {
        assert(axes.take(n) =~= axes);
    } else {
        join_starts_with_its_first_parts(axes, sep, n);
        let head = crate::text::join(axes.take(n), sep) + sep;
        assert(head =~= crate::runtime::partition::encoded_axes(axes.take(n)).push(
            ROUTING_AXIS_SEPARATOR,
        ));
        let rest = whole.skip(head.len() as int);
        assert(whole =~= head + rest);
        utf8_of_joined_text(head, rest);
    }
}

/// A search by the first axes of a key finds the leaf of the key, whatever the tree.
pub proof fn prefix_search_finds_the_key(tree: TreeView, axes: Seq<Seq<char>>, n: int)
    requires
        crate::runtime::partition::valid_axes(axes),
        0 <= n <= 5,
    ensures
        crate::runtime::partition::candidate_leaf_ids(tree, axes.take(n)) is Ok,
        crate::runtime::partition::candidate_leaf_ids(tree, axes.take(n))->Ok_0.contains(
            crate::runtime::tree::route(tree, crate::runtime::partition::key_bytes(axes)),
        ),
{
    let key = crate::runtime::partition::key_bytes(axes);
    valid_axes_have_no_error(axes.take(n), 0);
    crate::runtime::tree::route_is_a_leaf(tree, key);
    if n > 0 {
        prefix_bytes_start_the_key(axes, n);
        crate::runtime::tree::candidates_cover_routes(
            tree,
            crate::runtime::partition::prefix_bytes(axes.take(n)),
            key,
        );
    }
}

proof fn valid_axes_have_no_error(axes: Seq<Seq<char>>, from: int)
    requires
        0 <= from <= axes.len(),
        forall|i: int|
            0 <= i < axes.len() ==> crate::runtime::partition::valid_axis(#[trigger] axes[i]),
    ensures
        crate::runtime::partition::axes_error(axes, from) is None,
    decreases axes.len() - from,
{
    if from < axes.len() {
        valid_axes_have_no_error(axes, from + 1);
    }
}

/// The last part of a text is what follows its last separator.
proof fn last_parts_agree(x: Seq<char>, y: Seq<char>, a: Seq<char>, b: Seq<char>, c: char)
    requires
        !a.contains(c),
        !b.contains(c),
        x + seq![c] + a == y + seq![c] + b,
    ensures
        a == b,
        x == y,
{
    let left = x + seq![c] + a;
    let right = y + seq![c] + b;
    if a.len() < b.len() {
        let k = left.len() - a.len() - 1;
        assert(left[k] == c);
        assert(right[k] == b[k - (right.len() - b.len())]);
        assert(b.contains(c));
    }
    if b.len() < a.len() {
        let k = right.len() - b.len() - 1;
        assert(right[k] == c);
        assert(left[k] == a[k - (left.len() - a.len())]);
        assert(a.contains(c));
    }
    assert(a =~= left.skip(left.len() - a.len()));
    assert(b =~= right.skip(right.len() - b.len()));
    assert(x =~= left.take(left.len() - a.len() - 1));
    assert(y =~= right.take(right.len() - b.len() - 1));
}

proof fn joined_axes_differ(a: Seq<Seq<char>>, b: Seq<Seq<char>>)
    requires
        a.len() == b.len(),
        forall|i: int| 0 <= i < a.len() ==> crate::runtime::partition::valid_axis(#[trigger] a[i]),
        forall|i: int| 0 <= i < b.len() ==> crate::runtime::partition::valid_axis(#[trigger] b[i]),
        crate::runtime::partition::encoded_axes(a) == crate::runtime::partition::encoded_axes(b),
    ensures
        a == b,
    decreases a.len(),
{
    if a.len() == 0 {
        assert(a =~= b);
    } else if a.len() == 1 {
        assert(a =~= seq![a[0]]);
        assert(b =~= seq![b[0]]);
    } else {
        last_parts_agree(
            crate::runtime::partition::encoded_axes(a.drop_last()),
            crate::runtime::partition::encoded_axes(b.drop_last()),
            a.last(),
            b.last(),
            ROUTING_AXIS_SEPARATOR,
        );
        joined_axes_differ(a.drop_last(), b.drop_last());
        assert(a =~= a.drop_last().push(a.last()));
        assert(b =~= b.drop_last().push(b.last()));
    }
}

/// Different routing keys are routed by different bytes.
pub proof fn routing_bytes_name_the_key(a: Seq<Seq<char>>, b: Seq<Seq<char>>)
    requires
        crate::runtime::partition::valid_axes(a),
        crate::runtime::partition::valid_axes(b),
        crate::runtime::partition::key_bytes(a) == crate::runtime::partition::key_bytes(b),
    ensures
        a == b,
{
    vstd::utf8::encode_utf8_decode_utf8(crate::runtime::partition::encoded_axes(a));
    vstd::utf8::encode_utf8_decode_utf8(crate::runtime::partition::encoded_axes(b));
    joined_axes_differ(a, b);
}

/// Announced splits, failovers and recoveries leave the tree of a log as it is.
pub proof fn only_commits_change_the_tree(events: Seq<EventView>, event: EventView)
    requires
        event is SplitPrepare || event is Failover || event is Recover,
    ensures
        crate::runtime::partition::replayed(events.push(event))
            == crate::runtime::partition::replayed(events),
{
    assert(events.push(event).drop_last() =~= events);
}

/// A replayed tree never holds a leaf twice.
pub proof fn replayed_leaves_are_unique(events: Seq<EventView>)
    ensures
        crate::runtime::partition::replayed(events) matches Ok(Some(tree)) ==>
            crate::runtime::tree::unique_leaves(tree),
    decreases events.len(),
{
    if events.len() > 0 {
        replayed_leaves_are_unique(events.drop_last());
        match (crate::runtime::partition::replayed(events.drop_last()), events.last()) {
            (Ok(None), EventView::Initialize { root, .. }) => {
                assert(crate::runtime::tree::leaves(TreeView::Leaf { id: root }) =~= seq![root]);
            },
            (Ok(Some(tree)), EventView::SplitCommit { parent, left, right, bit, reason }) => {
                if crate::runtime::partition::applied_commit(tree, events.last()) is Ok {
                    crate::runtime::tree::split_keeps_leaves_unique(
                        tree,
                        parent,
                        left,
                        right,
                        bit,
                    );
                }
            },
            _ => {},
        }
    }
}

/// A leaf that was split can never be split again: a later commit of the same parent is refused.
pub proof fn retired_parents_stay_retired(tree: TreeView, commit: EventView, later: EventView)
    requires
        commit is SplitCommit,
        later is SplitCommit,
        crate::runtime::partition::applied_commit(tree, commit) is Ok,
        later->SplitCommit_parent == commit->SplitCommit_parent,
    ensures
        crate::runtime::partition::applied_commit(
            crate::runtime::partition::applied_commit(tree, commit)->Ok_0,
            later,
        ) is Err,
{
    crate::runtime::tree::split_retires_the_parent(
        tree,
        commit->SplitCommit_parent,
        commit->SplitCommit_left,
        commit->SplitCommit_right,
        commit->bit,
        commit->SplitCommit_parent,
    );
}

/// After a planned split is committed, the observations of the parent are routed to where the plan
/// sent them, both children hold some of them, and all other keys are routed as before.
pub proof fn planned_split_rehomes_the_parent(
    tree: TreeView,
    plan: CapacitySplitPlan,
    routed: Seq<RoutedObservation>,
)
    requires
        crate::runtime::tree::unique_leaves(tree),
        crate::runtime::partition::applied_commit(
            tree,
            crate::runtime::partition::committed_split(plan),
        ) is Ok,
        crate::runtime::partition::first_discriminating(
            crate::runtime::partition::routed_keys(routed),
            plan.bit_index,
        ),
        crate::runtime::partition::plan_splits(
            plan,
            plan.parent_leaf_id@,
            plan.left_child_leaf_id@,
            plan.right_child_leaf_id@,
            plan.bit_index,
            routed,
        ),
    ensures
        ({
            let after = crate::runtime::partition::applied_commit(
                tree,
                crate::runtime::partition::committed_split(plan),
            )->Ok_0;
            let keys = crate::runtime::partition::routed_keys(routed);
            &&& forall|i: int|
                0 <= i < routed.len() && crate::runtime::tree::route(tree, #[trigger] keys[i])
                    == plan.parent_leaf_id@ ==> crate::runtime::tree::route(after, keys[i])
                    == plan.rehome_targets@[i].target_leaf_id@
            &&& exists|i: int|
                0 <= i < routed.len() && (#[trigger] plan.rehome_targets@[i]).target_leaf_id@
                    == plan.left_child_leaf_id@
            &&& exists|i: int|
                0 <= i < routed.len() && (#[trigger] plan.rehome_targets@[i]).target_leaf_id@
                    == plan.right_child_leaf_id@
            &&& forall|key: Seq<u8>|
                crate::runtime::tree::route(tree, key) != plan.parent_leaf_id@
                    ==> #[trigger] crate::runtime::tree::route(after, key)
                    == crate::runtime::tree::route(tree, key)
        }),
{
    let keys = crate::runtime::partition::routed_keys(routed);
    let after = crate::runtime::partition::applied_commit(
        tree,
        crate::runtime::partition::committed_split(plan),
    )->Ok_0;
    let bit = plan.bit_index;
    assert forall|key: Seq<u8>| #[trigger] crate::runtime::tree::route(after, key) == (
    if crate::runtime::tree::route(tree, key) == plan.parent_leaf_id@ {
        if crate::runtime::tree::bit_of(key, bit) {
            plan.right_child_leaf_id@
        } else {
            plan.left_child_leaf_id@
        }
    } else {
        crate::runtime::tree::route(tree, key)
    }) by {
        crate::runtime::tree::split_moves_only_the_parents_keys(
            tree,
            plan.parent_leaf_id@,
            plan.left_child_leaf_id@,
            plan.right_child_leaf_id@,
            bit,
            key,
        );
    }
    assert forall|i: int| 0 <= i < routed.len() implies #[trigger] keys[i]
        == crate::runtime::partition::key_bytes(routed[i].routing_key@)
        && plan.rehome_targets@[i].target_leaf_id@ == (if crate::runtime::tree::bit_of(
        keys[i],
        bit,
    ) {
        plan.right_child_leaf_id@
    } else {
        plan.left_child_leaf_id@
    }) by {
        assert(plan.rehome_targets@[i].observation_id@ == routed[i].observation_id@);
    }
    assert(crate::runtime::partition::discriminates(keys, bit));
    let j = choose|j: int|
        0 <= j < keys.len() && crate::runtime::tree::bit_of(#[trigger] keys[j], bit)
            != crate::runtime::tree::bit_of(keys[0], bit);
    assert(keys[0] == crate::runtime::partition::key_bytes(routed[0].routing_key@));
    assert(plan.rehome_targets@[0].target_leaf_id@ != plan.rehome_targets@[j].target_leaf_id@
        || plan.left_child_leaf_id@ == plan.right_child_leaf_id@);
}

/// Searches by valid axes all succeed, and together find what each of them finds.
proof fn searches_add_up(tree: TreeView, searches: Seq<Seq<Seq<char>>>, i: int)
    requires
        forall|k: int|
            0 <= k < searches.len() ==> crate::runtime::partition::candidate_leaf_ids(
                tree,
                #[trigger] searches[k],
            ) is Ok,
    ensures
        crate::runtime::resolver::found_leaves(tree, searches) is Ok,
        0 <= i < searches.len() ==> forall|id: Seq<char>| #[trigger]
            crate::runtime::partition::candidate_leaf_ids(tree, searches[i])->Ok_0.contains(id)
                ==> crate::runtime::resolver::found_leaves(tree, searches)->Ok_0.contains(id),
    decreases searches.len(),
{
    if searches.len() > 0 {
        let most = searches.drop_last();
        assert forall|k: int| 0 <= k < most.len() implies crate::runtime::partition::candidate_leaf_ids(
            tree,
            #[trigger] most[k],
        ) is Ok by {
            assert(most[k] == searches[k]);
        }
        searches_add_up(tree, most, i);
        assert(searches.last() == searches[searches.len() - 1]);
        if 0 <= i < searches.len() - 1 {
            assert(most[i] == searches[i]);
        }
    }
}

/// A read by a window of time, and within it by source and container, looks into the leaf of every
/// observation that it asks for.
pub proof fn reads_look_where_matches_are(
    tree: TreeView,
    filter: LeafFilter,
    published: (i64, u32),
    source: Seq<char>,
    container: Seq<char>,
)
    requires
        crate::time::valid_instant(published.0 as int, published.1 as int),
        crate::runtime::partition::valid_axes(
            crate::runtime::partition::routing_axes(published, source, container),
        ),
        filter.published matches Some(window) && !crate::time::earlier(published, window.start@)
            && !crate::time::earlier(window.end@, published)
            && crate::time::valid_instant(window.start@.0 as int, window.start@.1 as int)
            && crate::time::valid_instant(window.end@.0 as int, window.end@.1 as int),
        filter.source matches Some(s) ==> s@ == source,
        filter.container matches Some(c) ==> c@ == container && filter.source is Some,
    ensures
        crate::runtime::resolver::found_leaves(
            tree,
            crate::runtime::resolver::bucket_axes(filter),
        ) matches Ok(found) && found.contains(
            crate::runtime::tree::route(
                tree,
                crate::runtime::partition::key_bytes(
                    crate::runtime::partition::routing_axes(published, source, container),
                ),
            ),
        ),
{
    let window = filter.published->0;
    let searches = crate::runtime::resolver::bucket_axes(filter);
    let tail = crate::runtime::resolver::filter_axes(filter);
    let axes = crate::runtime::partition::routing_axes(published, source, container);
    let n = 2 + tail.len() as int;
    crate::time::every_second_has_a_month(published.0 as int);
    crate::time::every_second_has_a_month(window.start@.0 as int);
    crate::time::every_second_has_a_month(window.end@.0 as int);
    let s = window.start@.0 as int;
    let t = published.0 as int;
    let e = window.end@.0 as int;
    crate::time::month_of_later_instant(
        s,
        crate::time::year_of(s),
        crate::time::month_of(s),
        t,
        crate::time::year_of(t),
        crate::time::month_of(t),
    );
    crate::time::month_of_later_instant(
        t,
        crate::time::year_of(t),
        crate::time::month_of(t),
        e,
        crate::time::year_of(e),
        crate::time::month_of(e),
    );
    let i = crate::time::month_number_of(t) - crate::time::month_number_of(s);
    let buckets = crate::runtime::resolver::month_buckets(s, e);
    assert(0 <= i < buckets.len());
    assert(buckets[i] == (crate::time::month_of(t) as u32, crate::time::year_of(t) as i32));
    assert(searches[i] =~= axes.take(n));
    assert(axes[2] == source && axes[3] == container);
    assert forall|k: int| 0 <= k < searches.len() implies crate::runtime::partition::candidate_leaf_ids(
        tree,
        #[trigger] searches[k],
    ) is Ok by {
        let bucket = buckets[k];
        crate::runtime::partition::padded_is_an_axis(bucket.0 as nat, 2);
        crate::runtime::partition::padded_signed_is_an_axis(bucket.1 as int, 4);
        assert(searches[k] =~= crate::runtime::resolver::month_axes(bucket) + tail);
        valid_axes_have_no_error(searches[k], 0);
    }
    prefix_search_finds_the_key(tree, axes, n);
    searches_add_up(tree, searches, i);
}

} // verus!
