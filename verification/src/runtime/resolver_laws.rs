//! Laws of reads over several leaves.

use vstd::multiset::Multiset;
use vstd::prelude::*;
use vstd::string::*;

use crate::domain::Observation;
use crate::runtime::partition::PartitionErrorView;
use crate::runtime::resolver::{LeafFilter, ResolverError, ResolverErrorView};
use crate::runtime::tree::TreeView;

verus! {

/// Every refusal of a read is told in words of its own.
pub proof fn refused_reads_are_told_in_words(cause: PartitionErrorView)
    ensures
        crate::runtime::resolver::resolver_message(ResolverErrorView::InvalidPublishedWindow)
            == Some("published window start must be <= end"@),
        crate::runtime::resolver::resolver_message(ResolverErrorView::ContainerRequiresSource)
            == Some("container filter requires a source filter"@),
        crate::runtime::resolver::resolver_message(ResolverErrorView::UnsortedLeafStream) == Some(
            "leaf stream is not sorted by (published, recorded_at, id)"@,
        ),
        crate::runtime::partition::partition_message(cause) matches Some(m)
            ==> crate::runtime::resolver::resolver_message(ResolverErrorView::Partition(cause))
            == Some("partition error: "@ + m),
{
}

/// A window looks at the month of its first instant first, at the month of its last instant last,
/// and between them at one month after another.
pub proof fn windows_look_at_every_month(start: int, end: int, i: int)
    requires
        start <= end,
        crate::time::FIRST_SECOND <= start,
        end <= crate::time::LAST_SECOND,
    ensures
        ({
            let months = crate::runtime::resolver::month_buckets(start, end);
            &&& months.len() >= 1
            &&& months[0].0 == crate::time::month_of(start)
            &&& months[0].1 == crate::time::year_of(start)
            &&& months.last().0 == crate::time::month_of(end)
            &&& months.last().1 == crate::time::year_of(end)
            &&& 0 < i < months.len() && months[i - 1].0 < 12 ==> months[i].0 == months[i - 1].0 + 1
                && months[i].1 == months[i - 1].1
            &&& 0 < i < months.len() && months[i - 1].0 == 12 ==> months[i].0 == 1 && months[i].1
                == months[i - 1].1 + 1
            &&& 0 < i < months.len() ==> 1 <= months[i].0 <= 12
        }),
{
    crate::time::every_second_has_a_month(start);
    crate::time::every_second_has_a_month(end);
    crate::time::month_of_later_instant(
        start,
        crate::time::year_of(start),
        crate::time::month_of(start),
        end,
        crate::time::year_of(end),
        crate::time::month_of(end),
    );
    let first = crate::time::month_number_of(start);
    let last = crate::time::month_number_of(end);
    assert(first == 12 * (first / 12) + first % 12);
    assert(last == 12 * (last / 12) + last % 12);
    assert(first <= last);
    let months = crate::runtime::resolver::month_buckets(start, end);
    assert(months.len() == last - first + 1);
    assert(-262_143 <= first / 12 && last / 12 <= 262_142);
    if 0 < i < months.len() {
        let a = first + i - 1;
        let b = first + i;
        assert(a / 12 >= first / 12 && b / 12 <= last / 12);
        assert(a % 12 < 11 ==> b % 12 == a % 12 + 1 && b / 12 == a / 12);
        assert(a % 12 == 11 ==> b % 12 == 0 && b / 12 == a / 12 + 1);
        assert(months[i - 1] == ((a % 12 + 1) as u32, (a / 12) as i32));
        assert(months[i] == ((b % 12 + 1) as u32, (b / 12) as i32));
    }
    assert(months[0] == ((first % 12 + 1) as u32, (first / 12) as i32));
    assert(months[last - first] == ((last % 12 + 1) as u32, (last / 12) as i32));
}

/// A filter fixes, for each month of its window, the month, the year, the source and the container,
/// as far as it names them and in this order; without a window it fixes the source and the
/// container.
pub proof fn filters_fix_leading_axes(filter: LeafFilter, i: int)
    ensures
        ({
            let searches = crate::runtime::resolver::bucket_axes(filter);
            let named = match (filter.source, filter.container) {
                (Some(s), Some(c)) => seq![s@, c@],
                (Some(s), None) => seq![s@],
                (None, Some(c)) => seq![c@],
                (None, None) => Seq::<Seq<char>>::empty(),
            };
            &&& filter.published is None ==> searches == seq![named]
            &&& filter.published matches Some(window) ==> {
                let months = crate::runtime::resolver::month_buckets(
                    window.start@.0 as int,
                    window.end@.0 as int,
                );
                &&& searches.len() == months.len()
                &&& 0 <= i < searches.len() ==> searches[i] == seq![
                    crate::text::padded(months[i].0 as nat, 2),
                    crate::text::padded_signed(months[i].1 as int, 4),
                ] + named
            }
        }),
{
    let named = match (filter.source, filter.container) {
        (Some(s), Some(c)) => seq![s@, c@],
        (Some(s), None) => seq![s@],
        (None, Some(c)) => seq![c@],
        (None, None) => Seq::<Seq<char>>::empty(),
    };
    assert(crate::runtime::resolver::filter_axes(filter) =~= named);
    assert(crate::runtime::resolver::bucket_axes(filter).len() >= 0);
}

/// Searches together find a leaf just where one of them does; the first one that fails decides
/// where one fails.
pub proof fn searches_find_what_each_finds(
    tree: TreeView,
    searches: Seq<Seq<Seq<char>>>,
    leaf: Seq<char>,
)
    ensures
        match crate::runtime::resolver::found_leaves(tree, searches) {
            Ok(found) => (forall|i: int|
                0 <= i < searches.len() ==> crate::runtime::partition::candidate_leaf_ids(
                    tree,
                    #[trigger] searches[i],
                ) is Ok) && (found.contains(leaf) <==> exists|i: int|
                0 <= i < searches.len() && crate::runtime::partition::candidate_leaf_ids(
                    tree,
                    #[trigger] searches[i],
                )->Ok_0.contains(leaf)),
            Err(e) => exists|i: int|
                0 <= i < searches.len() && crate::runtime::partition::candidate_leaf_ids(
                    tree,
                    #[trigger] searches[i],
                ) == Err::<Seq<Seq<char>>, PartitionErrorView>(e) && forall|j: int|
                    0 <= j < i ==> crate::runtime::partition::candidate_leaf_ids(
                        tree,
                        #[trigger] searches[j],
                    ) is Ok,
        },
    decreases searches.len(),
{
    if searches.len() > 0 {
        let rest = searches.drop_last();
        searches_find_what_each_finds(tree, rest, leaf);
        assert(forall|i: int| 0 <= i < rest.len() ==> #[trigger] rest[i] == searches[i]);
        let last = searches[searches.len() - 1];
        assert(last == searches.last());
        match crate::runtime::resolver::found_leaves(tree, rest) {
            Err(e) => {
                let i = choose|i: int|
                    0 <= i < rest.len() && crate::runtime::partition::candidate_leaf_ids(
                        tree,
                        #[trigger] rest[i],
                    ) == Err::<Seq<Seq<char>>, PartitionErrorView>(e) && forall|j: int|
                        0 <= j < i ==> crate::runtime::partition::candidate_leaf_ids(
                            tree,
                            #[trigger] rest[j],
                        ) is Ok;
                assert(rest[i] == searches[i]);
                assert forall|j: int| 0 <= j < i implies crate::runtime::partition::candidate_leaf_ids(
                    tree,
                    #[trigger] searches[j],
                ) is Ok by {
                    assert(rest[j] == searches[j]);
                }
            },
            Ok(found) => {
                assert forall|j: int| 0 <= j < rest.len() implies crate::runtime::partition::candidate_leaf_ids(
                    tree,
                    #[trigger] searches[j],
                ) is Ok by {
                    assert(rest[j] == searches[j]);
                }
                match crate::runtime::partition::candidate_leaf_ids(tree, last) {
                    Err(e) => {},
                    Ok(more) => {
                        if found.contains(leaf) {
                            let i = choose|i: int|
                                0 <= i < rest.len() && crate::runtime::partition::candidate_leaf_ids(
                                    tree,
                                    #[trigger] rest[i],
                                )->Ok_0.contains(leaf);
                            assert(crate::runtime::partition::candidate_leaf_ids(
                                tree,
                                searches[i],
                            )->Ok_0.contains(leaf));
                        }
                        if exists|i: int|
                            0 <= i < searches.len() && crate::runtime::partition::candidate_leaf_ids(
                                tree,
                                #[trigger] searches[i],
                            )->Ok_0.contains(leaf) {
                            let i = choose|i: int|
                                0 <= i < searches.len()
                                    && crate::runtime::partition::candidate_leaf_ids(
                                    tree,
                                    #[trigger] searches[i],
                                )->Ok_0.contains(leaf);
                            if i < rest.len() {
                                assert(crate::runtime::partition::candidate_leaf_ids(
                                    tree,
                                    rest[i],
                                )->Ok_0.contains(leaf));
                            }
                        }
                    },
                }
            },
        }
    }
}

/// A read that names a container names its source too, and its window does not end before it
/// begins; what it then finds are just the leaves that one of its searches finds, each once and in
/// ascending order.
pub proof fn reads_are_resolved_or_refused_for_a_reason(
    tree: TreeView,
    filter: LeafFilter,
    r: Result<Vec<String>, ResolverError>,
    leaf: Seq<char>,
)
    requires
        crate::runtime::resolver::resolved(tree, filter, r),
    ensures
        ({
            let sourceless = filter.container is Some && filter.source is None;
            let backwards = filter.published matches Some(w) && crate::time::earlier(
                w.end@,
                w.start@,
            );
            let searches = crate::runtime::resolver::bucket_axes(filter);
            &&& sourceless ==> r is Err && r->Err_0@ == ResolverErrorView::ContainerRequiresSource
            &&& !sourceless && backwards ==> r is Err && r->Err_0@
                == ResolverErrorView::InvalidPublishedWindow
            &&& !sourceless && !backwards && r is Err ==> r->Err_0@ is Partition
            &&& r matches Ok(list) ==> !sourceless && !backwards && (crate::text::strings(
                list@,
            ).contains(leaf) <==> exists|i: int|
                0 <= i < searches.len() && crate::runtime::partition::candidate_leaf_ids(
                    tree,
                    #[trigger] searches[i],
                )->Ok_0.contains(leaf)) && crate::text::ascending(crate::text::strings(list@))
        }),
{
    searches_find_what_each_finds(tree, crate::runtime::resolver::bucket_axes(filter), leaf);
}

/// Observations stand by publishing time; those published together by recording time; and those
/// recorded together by identity.
pub proof fn observations_stand_by_time_and_identity(a: Observation, b: Observation)
    ensures
        ({
            let first = crate::runtime::resolver::stands_before(a, b);
            &&& crate::time::earlier(a.published@, b.published@) ==> first
            &&& crate::time::earlier(b.published@, a.published@) ==> !first
            &&& a.published@ == b.published@ && crate::time::earlier(
                a.recorded_at@,
                b.recorded_at@,
            ) ==> first
            &&& a.published@ == b.published@ && crate::time::earlier(
                b.recorded_at@,
                a.recorded_at@,
            ) ==> !first
            &&& a.published@ == b.published@ && a.recorded_at@ == b.recorded_at@ ==> (first
                <==> crate::text::precedes(a.id@, b.id@))
        }),
{
}

/// One instant lies before another just where it has fewer seconds, or as many and fewer
/// nanoseconds.
pub proof fn instants_stand_by_seconds_and_nanoseconds(a: (i64, u32), b: (i64, u32))
    requires
        a.1 < 2_000_000_000,
        b.1 < 2_000_000_000,
    ensures
        crate::time::earlier(a, b) <==> a.0 * 2_000_000_000 + a.1 < b.0 * 2_000_000_000 + b.1,
{
}

/// Several streams together hold what each of them holds.
pub proof fn streams_hold_what_each_holds(
    streams: Seq<Vec<Observation>>,
    stream: Vec<Observation>,
    one: Observation,
)
    ensures
        crate::runtime::resolver::all_of(Seq::empty()) == Multiset::<Observation>::empty(),
        crate::runtime::resolver::all_of(streams.push(stream)).count(one)
            == crate::runtime::resolver::all_of(streams).count(one) + stream@.to_multiset().count(
            one,
        ),
{
    assert(streams.push(stream).drop_last() =~= streams);
}

/// A merge takes streams of which each stands in order: in none of them does a later observation
/// stand before an earlier one.
pub proof fn merged_streams_stand_in_order(streams: Seq<Vec<Observation>>)
    ensures
        crate::runtime::resolver::streams_in_order(streams) <==> forall|k: int, i: int, j: int|
            0 <= k < streams.len() && 0 <= i < j < streams[k]@.len()
                ==> !crate::runtime::resolver::stands_before(
                #[trigger] streams[k]@[j],
                #[trigger] streams[k]@[i],
            ),
{
    if crate::runtime::resolver::streams_in_order(streams) {
        assert forall|k: int, i: int, j: int|
            0 <= k < streams.len() && 0 <= i < j < streams[k]@.len()
                implies !crate::runtime::resolver::stands_before(
            #[trigger] streams[k]@[j],
            #[trigger] streams[k]@[i],
        ) by {
            assert(crate::runtime::resolver::in_order(streams[k]@));
        }
    } else {
        let k = choose|k: int|
            0 <= k < streams.len() && !crate::runtime::resolver::in_order(
                (#[trigger] streams[k])@,
            );
        let s = streams[k]@;
        let (i, j) = choose|i: int, j: int|
            0 <= i < j < s.len() && crate::runtime::resolver::stands_before(
                #[trigger] s[j],
                #[trigger] s[i],
            );
        assert(crate::runtime::resolver::stands_before(streams[k]@[j], streams[k]@[i]));
    }
}

/// A list that is made of streams holds what they hold together: its length is the sum of theirs,
/// and one that is made of a single stream is that stream.
pub proof fn single_streams_are_merged_as_they_are(merged: Seq<Observation>, stream: Seq<Observation>)
    ensures
        crate::runtime::resolver::interleaves(merged, seq![stream]) <==> merged == stream,
    decreases merged.len(),
{
    if merged.len() == 0 {
        if crate::runtime::resolver::interleaves(merged, seq![stream]) {
            assert(seq![stream][0].len() == 0);
            assert(merged =~= stream);
        } else if merged == stream {
            assert forall|k: int| 0 <= k < seq![stream].len() implies (
            #[trigger] seq![stream][k]).len() == 0 by {}
        }
    } else {
        if stream.len() > 0 {
            single_streams_are_merged_as_they_are(merged.drop_last(), stream.drop_last());
            assert(seq![stream].update(0, seq![stream][0].drop_last()) =~= seq![stream.drop_last()]);
        }
        if crate::runtime::resolver::interleaves(merged, seq![stream]) {
            let k = choose|k: int|
                {
                    &&& 0 <= k < seq![stream].len()
                    &&& (#[trigger] seq![stream][k]).len() > 0
                    &&& seq![stream][k].last() == merged.last()
                    &&& crate::runtime::resolver::interleaves(
                        merged.drop_last(),
                        seq![stream].update(k, seq![stream][k].drop_last()),
                    )
                };
            assert(k == 0);
            assert(merged =~= merged.drop_last().push(merged.last()));
            assert(stream =~= stream.drop_last().push(stream.last()));
        }
        if merged == stream {
            assert(seq![stream][0].last() == merged.last());
            assert(crate::runtime::resolver::interleaves(
                merged.drop_last(),
                seq![stream].update(0, seq![stream][0].drop_last()),
            ));
        }
    }
}

} // verus!
