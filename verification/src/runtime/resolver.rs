//! Logical reads over physical leaves: which leaves to read, and their streams merged into one.

use vstd::multiset::Multiset;
use vstd::prelude::*;
use vstd::string::*;

use crate::domain::Observation;
use crate::runtime::partition::{PartitionError, PartitionErrorView, PartitionTree};
use crate::runtime::tree::TreeView;
use crate::text::{insert_text, padded_signed_text, padded_text, str_precedes, text2};
use crate::time::Timestamp;

verus! {

/// Why a read cannot be resolved.
#[derive(Debug, PartialEq, Eq)]
pub enum ResolverError {
    InvalidPublishedWindow,
    ContainerRequiresSource,
    Partition(PartitionError),
    UnsortedLeafStream,
}

/// What a resolver error says.
pub enum ResolverErrorView {
    InvalidPublishedWindow,
    ContainerRequiresSource,
    Partition(PartitionErrorView),
    UnsortedLeafStream,
}

impl View for ResolverError {
    type V = ResolverErrorView;

    open spec fn view(&self) -> ResolverErrorView {
        match *self {
            ResolverError::InvalidPublishedWindow => ResolverErrorView::InvalidPublishedWindow,
            ResolverError::ContainerRequiresSource => ResolverErrorView::ContainerRequiresSource,
            ResolverError::Partition(e) => ResolverErrorView::Partition(e@),
            ResolverError::UnsortedLeafStream => ResolverErrorView::UnsortedLeafStream,
        }
    }
}

/// The text of a resolver error; that of a JSON reader is not told here.
pub open spec fn resolver_message(error: ResolverErrorView) -> Option<Seq<char>> {
    match error {
        ResolverErrorView::InvalidPublishedWindow => Some(
            "published window start must be <= end"@,
        ),
        ResolverErrorView::ContainerRequiresSource => Some(
            "container filter requires a source filter"@,
        ),
        ResolverErrorView::Partition(e) => match crate::runtime::partition::partition_message(e) {
            Some(m) => Some("partition error: "@ + m),
            None => None,
        },
        ResolverErrorView::UnsortedLeafStream => Some(
            "leaf stream is not sorted by (published, recorded_at, id)"@,
        ),
    }
}

impl ResolverError {
    /// The text of the error.
    pub fn message(&self) -> (r: String)
        ensures
            resolver_message(self@) matches Some(m) ==> r@ == m,
            self matches ResolverError::Partition(PartitionError::Json(m)) ==> r@
                == "partition error: "@ + ("json error: "@ + m@),
    {
        match self {
            ResolverError::InvalidPublishedWindow =>
                "published window start must be <= end".to_owned(),
            ResolverError::ContainerRequiresSource =>
                "container filter requires a source filter".to_owned(),
            ResolverError::Partition(e) => {
                let cause = e.message();
                text2("partition error: ", cause.as_str())
            },
            ResolverError::UnsortedLeafStream =>
                "leaf stream is not sorted by (published, recorded_at, id)".to_owned(),
        }
    }
}

/// A span of publishing times, both ends belonging to it.
#[derive(Debug, Clone, Copy, PartialEq, Eq)]
pub struct PublishedWindow {
    pub start: Timestamp,
    pub end: Timestamp,
}

/// Which observations a read asks for.
#[derive(Debug, PartialEq, Eq)]
pub struct LeafFilter {
    pub published: Option<PublishedWindow>,
    pub source: Option<String>,
    pub container: Option<String>,
}

impl Default for LeafFilter {
    /// The filter that lets everything pass.
    fn default() -> (r: LeafFilter)
        ensures
            r.published is None && r.source is None && r.container is None,
    {
        LeafFilter { published: None, source: None, container: None }
    }
}

/// The months from the one that `start` falls in to the one that `end` falls in, as month and year.
pub open spec fn month_buckets(start: int, end: int) -> Seq<(u32, i32)> {
    let first = crate::time::month_number_of(start);
    let last = crate::time::month_number_of(end);
    Seq::new(
        (last - first + 1) as nat,
        |i: int| (((first + i) % 12 + 1) as u32, ((first + i) / 12) as i32),
    )
}

fn month_year_buckets(window: &PublishedWindow) -> (r: Result<Vec<(u32, i32)>, ResolverError>)
    ensures
        if crate::time::earlier(window.end@, window.start@) {
            r == Err::<Vec<(u32, i32)>, ResolverError>(ResolverError::InvalidPublishedWindow)
        } else {
            r is Ok && r->Ok_0@ == month_buckets(window.start@.0 as int, window.end@.0 as int)
        },
{
    if window.end.is_before(&window.start) {
        return Err(ResolverError::InvalidPublishedWindow);
    }
    let (start_year, start_month) = window.start.year_month();
    let (end_year, end_month) = window.end.year_month();
    let ghost start = window.start@.0 as int;
    let ghost end = window.end@.0 as int;
    let ghost first = crate::time::month_number_of(start);
    let ghost last = crate::time::month_number_of(end);
    let ghost expected = month_buckets(start, end);
    proof {
        crate::time::month_of_later_instant(
            start,
            start_year as int,
            start_month as int,
            end,
            end_year as int,
            end_month as int,
        );
        crate::time::one_month_holds_a_second(start, start_year as int, start_month as int);
        crate::time::one_month_holds_a_second(end, end_year as int, end_month as int);
        assert(first <= last);
    }
    let mut year: i32 = start_year;
    let mut month: u32 = start_month;
    let mut buckets: Vec<(u32, i32)> = Vec::new();
    loop
        invariant_except_break
            1 <= month <= 12,
            1 <= end_month <= 12,
            -262_143 <= year <= end_year <= 262_142,
            expected == month_buckets(start, end),
            first == crate::time::month_number_of(start),
            last == crate::time::month_number_of(end),
            last == crate::time::month_number(end_year as int, end_month as int),
            first + buckets@.len() == crate::time::month_number(year as int, month as int),
            crate::time::month_number(year as int, month as int) <= last,
            buckets@ == expected.take(buckets@.len() as int),
        ensures
            buckets@ == expected,
        decreases last - crate::time::month_number(year as int, month as int),
    {
        let ghost k = buckets@.len() as int;
        assert((first + k) % 12 + 1 == month && (first + k) / 12 == year);
        buckets.push((month, year));
        assert(expected[k] == (month, year));
        assert(buckets@ =~= expected.take(k + 1));
        if year == end_year && month == end_month {
            assert(expected.take(k + 1) =~= expected);
            break;
        }
        if month == 12 {
            year = year + 1;
            month = 1;
        } else {
            month = month + 1;
        }
    }
    Ok(buckets)
}

/// The leading axes that a filter fixes, one list for each month of its window.
pub open spec fn bucket_axes(filter: LeafFilter) -> Seq<Seq<Seq<char>>> {
    match filter.published {
        Some(window) => month_buckets(window.start@.0 as int, window.end@.0 as int).map_values(
            |bucket: (u32, i32)| month_axes(bucket) + filter_axes(filter),
        ),
        None => seq![filter_axes(filter)],
    }
}

/// The two axes of a month.
pub open spec fn month_axes(bucket: (u32, i32)) -> Seq<Seq<char>> {
    seq![
        crate::text::padded(bucket.0 as nat, 2),
        crate::text::padded_signed(bucket.1 as int, 4),
    ]
}

/// The axes of the source and the container of a filter.
pub open spec fn filter_axes(filter: LeafFilter) -> Seq<Seq<char>> {
    let source = match filter.source {
        Some(s) => seq![s@],
        None => Seq::<Seq<char>>::empty(),
    };
    let container = match filter.container {
        Some(c) => seq![c@],
        None => Seq::<Seq<char>>::empty(),
    };
    source + container
}

/// The leaves that the searches by lists of leading axes find together, or the error of the first
/// search that fails.
pub open spec fn found_leaves(tree: TreeView, searches: Seq<Seq<Seq<char>>>) -> Result<
    Set<Seq<char>>,
    PartitionErrorView,
>
    decreases searches.len(),
{
    if searches.len() == 0 {
        Ok(Set::empty())
    } else {
        match found_leaves(tree, searches.drop_last()) {
            Err(e) => Err(e),
            Ok(found) => match crate::runtime::partition::candidate_leaf_ids(
                tree,
                searches.last(),
            ) {
                Err(e) => Err(e),
                Ok(more) => Ok(found.union(more.to_set())),
            },
        }
    }
}

/// Whether a list is a set of texts in ascending order.
pub open spec fn lists_set(list: Seq<Seq<char>>, set: Set<Seq<char>>) -> bool {
    crate::text::ascending(list) && forall|t: Seq<char>| #[trigger]
        list.contains(t) <==> set.contains(t)
}

/// What a filter is answered: the leaves to read in ascending order, or why it is refused.
pub open spec fn resolved(
    tree: TreeView,
    filter: LeafFilter,
    r: Result<Vec<String>, ResolverError>,
) -> bool {
    if filter.container is Some && filter.source is None {
        r is Err && r->Err_0@ == ResolverErrorView::ContainerRequiresSource
    } else if filter.published is Some && crate::time::earlier(
        filter.published->0.end@,
        filter.published->0.start@,
    ) {
        r is Err && r->Err_0@ == ResolverErrorView::InvalidPublishedWindow
    } else {
        match found_leaves(tree, bucket_axes(filter)) {
            Err(e) => r is Err && r->Err_0@ == ResolverErrorView::Partition(e),
            Ok(found) => r is Ok && lists_set(crate::text::strings(r->Ok_0@), found),
        }
    }
}

proof fn searches_stop_at_an_error(tree: TreeView, searches: Seq<Seq<Seq<char>>>, i: int)
    requires
        0 <= i <= searches.len(),
    ensures
        found_leaves(tree, searches.take(i)) is Err ==> found_leaves(tree, searches)
            == found_leaves(tree, searches.take(i)),
    decreases searches.len() - i,
{
    if i < searches.len() {
        searches_stop_at_an_error(tree, searches, i + 1);
        assert(searches.take(i + 1).drop_last() =~= searches.take(i));
    } else {
        assert(searches.take(i) =~= searches);
    }
}

fn axes_of_bucket(bucket: Option<(u32, i32)>, filter: &LeafFilter) -> (r: Vec<String>)
    ensures
        crate::text::strings(r@) == (match bucket {
            Some(b) => month_axes(b),
            None => Seq::<Seq<char>>::empty(),
        }) + filter_axes(*filter),
{
    let mut axes: Vec<String> = Vec::new();
    match bucket {
        Some((month, year)) => {
            axes.push(padded_text(month as u64, 2));
            axes.push(padded_signed_text(year, 4));
        },
        None => {},
    }
    match &filter.source {
        Some(source) => axes.push(source.clone()),
        None => {},
    }
    match &filter.container {
        Some(container) => axes.push(container.clone()),
        None => {},
    }
    assert(crate::text::strings(axes@) =~= (match bucket {
        Some(b) => month_axes(b),
        None => Seq::<Seq<char>>::empty(),
    }) + filter_axes(*filter));
    axes
}

/// The leaves that can hold observations that a filter lets pass, in ascending order.
pub fn candidate_leaves(tree: &PartitionTree, filter: &LeafFilter) -> (r: Result<
    Vec<String>,
    ResolverError,
>)
    ensures
        resolved(tree@, *filter, r),
{
    if filter.container.is_some() && filter.source.is_none() {
        return Err(ResolverError::ContainerRequiresSource);
    }
    let mut bucket_lists: Vec<Vec<String>> = Vec::new();
    let ghost searches = bucket_axes(*filter);
    match &filter.published {
        Some(window) => {
            let buckets = match month_year_buckets(window) {
                Ok(b) => b,
                Err(e) => return Err(e),
            };
            let mut i: usize = 0;
            while i < buckets.len()
                invariant
                    i <= buckets.len(),
                    searches == buckets@.map_values(
                        |bucket: (u32, i32)| month_axes(bucket) + filter_axes(*filter),
                    ),
                    bucket_lists.len() == i,
                    forall|j: int|
                        0 <= j < i ==> crate::text::strings((#[trigger] bucket_lists@[j])@)
                            == searches[j],
                decreases buckets.len() - i,
            {
                bucket_lists.push(axes_of_bucket(Some(buckets[i]), filter));
                i = i + 1;
            }
        },
        None => {
            bucket_lists.push(axes_of_bucket(None, filter));
            assert(crate::text::strings(bucket_lists@[0]@) =~= searches[0]);
        },
    }
    let mut leaves: Vec<String> = Vec::new();
    let mut i: usize = 0;
    assert(searches.take(0) =~= Seq::<Seq<Seq<char>>>::empty());
    while i < bucket_lists.len()
        invariant
            i <= bucket_lists.len(),
            searches.len() == bucket_lists.len(),
            searches == bucket_axes(*filter),
            !(filter.container is Some && filter.source is None),
            filter.published is Some ==> !crate::time::earlier(
                filter.published->0.end@,
                filter.published->0.start@,
            ),
            forall|j: int|
                0 <= j < bucket_lists.len() ==> crate::text::strings(
                    (#[trigger] bucket_lists@[j])@,
                ) == searches[j],
            found_leaves(tree@, searches.take(i as int)) is Ok,
            lists_set(
                crate::text::strings(leaves@),
                found_leaves(tree@, searches.take(i as int))->Ok_0,
            ),
        decreases bucket_lists.len() - i,
    {
        proof {
            assert(searches.take(i + 1).drop_last() =~= searches.take(i as int));
            assert(searches.take(i + 1).last() == searches[i as int]);
            searches_stop_at_an_error(tree@, searches, i + 1);
        }
        let ghost found = found_leaves(tree@, searches.take(i as int))->Ok_0;
        let more = match tree.candidate_leaf_ids_for_prefix_axes(bucket_lists[i].as_slice()) {
            Ok(m) => m,
            Err(e) => return Err(ResolverError::Partition(e)),
        };
        let ghost names = crate::text::strings(more@);
        let mut k: usize = 0;
        while k < more.len()
            invariant
                k <= more.len(),
                names == crate::text::strings(more@),
                lists_set(
                    crate::text::strings(leaves@),
                    found.union(names.take(k as int).to_set()),
                ),
            decreases more.len() - k,
        {
            insert_text(&mut leaves, more[k].as_str());
            proof {
                let a = names.take(k as int);
                let b = names.take(k + 1);
                assert(b =~= a.push(more@[k as int]@));
                assert forall|t: Seq<char>| #[trigger]
                    b.to_set().contains(t) <==> a.to_set().contains(t) || t == more@[k as int]@ by {
                    if a.contains(t) {
                        let x = choose|x: int| 0 <= x < a.len() && a[x] == t;
                        assert(b[x] == t);
                    }
                    assert(b[k as int] == more@[k as int]@);
                }
            }
            k = k + 1;
        }
        assert(names.take(k as int) =~= names);
        i = i + 1;
    }
    assert(searches.take(i as int) =~= searches);
    Ok(leaves)
}

/// Whether one observation stands before another: by publishing time, then by recording time, then
/// by identity.
pub open spec fn stands_before(a: Observation, b: Observation) -> bool {
    crate::time::earlier(a.published@, b.published@) || (a.published@ == b.published@ && (
    crate::time::earlier(a.recorded_at@, b.recorded_at@) || (a.recorded_at@ == b.recorded_at@
        && crate::text::precedes(a.id@, b.id@))))
}

/// Whether observations stand in order.
pub open spec fn in_order(stream: Seq<Observation>) -> bool {
    forall|i: int, j: int|
        0 <= i < j < stream.len() ==> !stands_before(#[trigger] stream[j], #[trigger] stream[i])
}

fn observation_precedes(left: &Observation, right: &Observation) -> (r: bool)
    ensures
        r == stands_before(*left, *right),
{
    if left.published.is_before(&right.published) {
        return true;
    }
    if !left.published.same(&right.published) {
        return false;
    }
    if left.recorded_at.is_before(&right.recorded_at) {
        return true;
    }
    left.recorded_at.same(&right.recorded_at) && str_precedes(left.id.as_str(), right.id.as_str())
}

proof fn order_is_transitive(a: Observation, b: Observation, c: Observation)
    requires
        !stands_before(b, a),
        !stands_before(c, b),
    ensures
        !stands_before(c, a),
{
    if stands_before(c, a) {
        crate::text::precedes_total(a.id@, b.id@);
        crate::text::precedes_total(b.id@, c.id@);
        if crate::text::precedes(a.id@, b.id@) && crate::text::precedes(b.id@, c.id@) {
            crate::text::precedes_transitive(a.id@, b.id@, c.id@);
        }
        if crate::text::precedes(c.id@, a.id@) {
            if crate::text::precedes(a.id@, c.id@) {
                crate::text::precedes_transitive(a.id@, c.id@, a.id@);
            }
            crate::text::precedes_irreflexive(a.id@);
        }
    }
}

fn ensure_sorted(stream: &Vec<Observation>) -> (r: Result<(), ResolverError>)
    ensures
        match r {
            Ok(_) => in_order(stream@),
            Err(e) => !in_order(stream@) && e@ == ResolverErrorView::UnsortedLeafStream,
        },
{
    let mut i: usize = 1;
    while i < stream.len()
        invariant
            1 <= i,
            i <= stream.len() || i == 1,
            forall|a: int, b: int|
                0 <= a < b < i && b < stream@.len() ==> !stands_before(
                    #[trigger] stream@[b],
                    #[trigger] stream@[a],
                ),
        decreases stream.len() - i,
    {
        if observation_precedes(&stream[i], &stream[i - 1]) {
            return Err(ResolverError::UnsortedLeafStream);
        }
        proof {
            assert forall|a: int, b: int| 0 <= a < b < i + 1 && b < stream@.len() implies
                !stands_before(#[trigger] stream@[b], #[trigger] stream@[a]) by {
                if b == i && a < i - 1 {
                    order_is_transitive(stream@[a], stream@[i - 1], stream@[i as int]);
                }
            }
        }
        i = i + 1;
    }
    Ok(())
}

/// All observations of several streams, with their multiplicity.
pub open spec fn all_of(streams: Seq<Vec<Observation>>) -> Multiset<Observation>
    decreases streams.len(),
{
    if streams.len() == 0 {
        Multiset::empty()
    } else {
        all_of(streams.drop_last()).add(streams.last()@.to_multiset())
    }
}

proof fn all_of_updated(streams: Seq<Vec<Observation>>, k: int, stream: Vec<Observation>)
    requires
        0 <= k < streams.len(),
    ensures
        all_of(streams.update(k, stream)).add(streams[k]@.to_multiset()) == all_of(streams).add(
            stream@.to_multiset(),
        ),
    decreases streams.len(),
{
    let after = streams.update(k, stream);
    if k == streams.len() - 1 {
        assert(after.drop_last() =~= streams.drop_last());
    } else {
        all_of_updated(streams.drop_last(), k, stream);
        assert(after.drop_last() =~= streams.drop_last().update(k, stream));
        assert(after.last() == streams.last());
    }
    let old_part = streams[k]@.to_multiset();
    let new_part = stream@.to_multiset();
    assert forall|v: Observation| #[trigger]
        all_of(after).add(old_part).count(v) == all_of(streams).add(new_part).count(v) by {
        if k < streams.len() - 1 {
            assert(all_of(after.drop_last()).add(old_part).count(v) == all_of(
                streams.drop_last(),
            ).add(new_part).count(v));
        }
    }
    assert(all_of(after).add(old_part) =~= all_of(streams).add(new_part));
}

proof fn all_of_nothing(streams: Seq<Vec<Observation>>)
    requires
        forall|i: int| 0 <= i < streams.len() ==> (#[trigger] streams[i])@.len() == 0,
    ensures
        all_of(streams) == Multiset::<Observation>::empty(),
    decreases streams.len(),
{
    if streams.len() > 0 {
        all_of_nothing(streams.drop_last());
        assert(streams.last()@ =~= Seq::<Observation>::empty());
        streams.last()@.to_multiset_ensures();
        assert(all_of(streams) =~= Multiset::<Observation>::empty());
    }
}

/// Whether a stream stands in order when it is read from its end.
spec fn in_reverse_order(stream: Seq<Observation>) -> bool {
    forall|i: int, j: int|
        0 <= i < j < stream.len() ==> !stands_before(#[trigger] stream[i], #[trigger] stream[j])
}

fn reversed(stream: Vec<Observation>) -> (r: Vec<Observation>)
    requires
        in_order(stream@),
    ensures
        in_reverse_order(r@),
        r@ == stream@.reverse(),
        r@.to_multiset() == stream@.to_multiset(),
{
    let ghost whole = stream@;
    let mut rest = stream;
    let mut out: Vec<Observation> = Vec::new();
    proof {
        out@.to_multiset_ensures();
        assert(rest@.to_multiset().add(out@.to_multiset()) =~= whole.to_multiset());
    }
    while rest.len() > 0
        invariant
            out@.len() + rest@.len() == whole.len(),
            rest@ == whole.take(rest@.len() as int),
            forall|i: int|
                0 <= i < out@.len() ==> #[trigger] out@[i] == whole[whole.len() - 1 - i],
            rest@.to_multiset().add(out@.to_multiset()) == whole.to_multiset(),
        decreases rest.len(),
    {
        let ghost before = rest@;
        let ghost out_before = out@;
        match rest.pop() {
            Some(observation) => {
                proof {
                    before.to_multiset_ensures();
                    rest@.to_multiset_ensures();
                    out@.to_multiset_ensures();
                    assert(before =~= rest@.push(observation));
                }
                out.push(observation);
                assert(rest@ =~= whole.take(rest@.len() as int));
                assert(rest@.to_multiset().add(out@.to_multiset()) =~= before.to_multiset().add(
                    out_before.to_multiset(),
                ));
            },
            None => {},
        }
    }
    proof {
        assert(rest@ =~= Seq::<Observation>::empty());
        rest@.to_multiset_ensures();
        assert(out@.to_multiset() =~= whole.to_multiset());
        assert(out@ =~= whole.reverse());
    }
    out
}

/// Whether all streams stand in order.
pub open spec fn streams_in_order(streams: Seq<Vec<Observation>>) -> bool {
    forall|i: int| 0 <= i < streams.len() ==> in_order((#[trigger] streams[i])@)
}

/// Whether a list is made of streams that were taken apart item by item, each in its own order.
pub open spec fn interleaves(merged: Seq<Observation>, streams: Seq<Seq<Observation>>) -> bool
    decreases merged.len(),
{
    if merged.len() == 0 {
        forall|k: int| 0 <= k < streams.len() ==> (#[trigger] streams[k]).len() == 0
    } else {
        exists|k: int|
            {
                &&& 0 <= k < streams.len()
                &&& (#[trigger] streams[k]).len() > 0
                &&& streams[k].last() == merged.last()
                &&& interleaves(merged.drop_last(), streams.update(k, streams[k].drop_last()))
            }
    }
}

/// What streams hold.
pub open spec fn stream_views(streams: Seq<Vec<Observation>>) -> Seq<Seq<Observation>> {
    streams.map_values(|stream: Vec<Observation>| stream@)
}

proof fn interleaves_one_more(
    merged: Seq<Observation>,
    streams: Seq<Seq<Observation>>,
    k: int,
    observation: Observation,
)
    requires
        interleaves(merged, streams),
        0 <= k < streams.len(),
    ensures
        interleaves(
            merged.push(observation),
            streams.update(k, streams[k].push(observation)),
        ),
{
    let after = streams.update(k, streams[k].push(observation));
    assert(merged.push(observation).drop_last() =~= merged);
    assert(after[k].drop_last() =~= streams[k]);
    assert(after.update(k, after[k].drop_last()) =~= streams);
    assert(after[k].len() > 0);
}

/// Merges the streams of several leaves into one stream in order; a leaf stream that is out of
/// order is refused. Observations of one leaf stay in the order of its stream; of observations of
/// different leaves that are equal in order, either may come first.
pub fn streaming_k_way_merge(leaf_streams: Vec<Vec<Observation>>) -> (r: Result<
    Vec<Observation>,
    ResolverError,
>)
    ensures
        match r {
            Ok(merged) => {
                &&& streams_in_order(leaf_streams@)
                &&& in_order(merged@)
                &&& interleaves(merged@, stream_views(leaf_streams@))
                &&& merged@.to_multiset() == all_of(leaf_streams@)
            },
            Err(e) => !streams_in_order(leaf_streams@) && e@
                == ResolverErrorView::UnsortedLeafStream,
        },
{
    let ghost given = leaf_streams@;
    let mut i: usize = 0;
    while i < leaf_streams.len()
        invariant
            i <= leaf_streams.len(),
            given == leaf_streams@,
            forall|j: int| 0 <= j < i ==> in_order((#[trigger] given[j])@),
        decreases leaf_streams.len() - i,
    {
        match ensure_sorted(&leaf_streams[i]) {
            Ok(_) => {},
            Err(e) => {
                assert(!in_order(given[i as int]@));
                return Err(e);
            },
        }
        i = i + 1;
    }
    let mut waiting = leaf_streams;
    let mut streams: Vec<Vec<Observation>> = Vec::new();
    assert(waiting@ =~= given.skip(0));
    while waiting.len() > 0
        invariant
            streams@.len() + waiting@.len() == given.len(),
            waiting@ == given.skip(streams@.len() as int),
            streams_in_order(given),
            forall|j: int| 0 <= j < streams.len() ==> in_reverse_order((#[trigger] streams@[j])@),
            forall|j: int|
                0 <= j < streams.len() ==> (#[trigger] streams@[j])@ == given[j]@.reverse(),
            all_of(streams@) == all_of(given.take(streams@.len() as int)),
        decreases waiting.len(),
    {
        let ghost n = streams@.len() as int;
        let stream = waiting.remove(0);
        assert(stream == given[n]);
        assert(waiting@ =~= given.skip(n + 1));
        let ghost streams_before = streams@;
        let flipped = reversed(stream);
        streams.push(flipped);
        proof {
            assert(streams@.drop_last() =~= streams_before);
            assert(given.take(n + 1).drop_last() =~= given.take(n));
        }
    }
    assert(given.take(streams@.len() as int) =~= given);
    let mut merged: Vec<Observation> = Vec::new();
    assert(merged@.to_multiset().add(all_of(streams@)) =~= all_of(given)) by {
        merged@.to_multiset_ensures();
    }
    // What was taken from each stream so far.
    let ghost mut taken: Seq<Seq<Observation>> = Seq::new(
        given.len(),
        |j: int| Seq::<Observation>::empty(),
    );
    proof {
        assert forall|j: int| 0 <= j < given.len() implies #[trigger] taken[j]
            + streams@[j]@.reverse() == given[j]@ by {
            assert(taken[j] + streams@[j]@.reverse() =~= given[j]@);
        }
    }
    loop
        invariant
            forall|j: int| 0 <= j < streams.len() ==> in_reverse_order((#[trigger] streams@[j])@),
            in_order(merged@),
            forall|m: int, j: int, x: int|
                0 <= m < merged@.len() && 0 <= j < streams@.len() && 0 <= x < streams@[j]@.len()
                    ==> !stands_before(#[trigger] streams@[j]@[x], #[trigger] merged@[m]),
            merged@.to_multiset().add(all_of(streams@)) == all_of(given),
            streams@.len() == given.len(),
            taken.len() == given.len(),
            forall|j: int|
                0 <= j < given.len() ==> #[trigger] taken[j] + streams@[j]@.reverse() == given[j]@,
            interleaves(merged@, taken),
        ensures
            merged@.to_multiset() == all_of(given),
            interleaves(merged@, stream_views(given)),
        decreases all_of(streams@).len(),
    {
        // The stream whose next observation stands first.
        let mut best: Option<usize> = None;
        let mut k: usize = 0;
        while k < streams.len()
            invariant
                k <= streams.len(),
                best matches Some(b) ==> b < k && streams@[b as int]@.len() > 0,
                best is None ==> forall|j: int| 0 <= j < k ==> (#[trigger] streams@[j])@.len() == 0,
                best matches Some(b) ==> forall|j: int|
                    0 <= j < k && (#[trigger] streams@[j])@.len() > 0 ==> !stands_before(
                        streams@[j]@.last(),
                        streams@[b as int]@.last(),
                    ),
            decreases streams.len() - k,
        {
            let n: usize = streams[k].len();
            if n > 0 {
                match best {
                    None => {
                        proof {
                            crate::text::precedes_irreflexive(streams@[k as int]@.last().id@);
                        }
                        best = Some(k);
                    },
                    Some(b) => {
                        let m: usize = streams[b].len();
                        let first = observation_precedes(&streams[k][n - 1], &streams[b][m - 1]);
                        if first {
                            proof {
                                let new = streams@[k as int]@.last();
                                let old_best = streams@[b as int]@.last();
                                crate::text::precedes_irreflexive(new.id@);
                                assert(!stands_before(old_best, new)) by {
                                    if stands_before(old_best, new) {
                                        if crate::text::precedes(new.id@, old_best.id@)
                                            && crate::text::precedes(old_best.id@, new.id@) {
                                            crate::text::precedes_transitive(
                                                new.id@,
                                                old_best.id@,
                                                new.id@,
                                            );
                                        }
                                    }
                                }
                                assert forall|j: int|
                                    0 <= j < k + 1 && (#[trigger] streams@[j])@.len() > 0 implies
                                    !stands_before(streams@[j]@.last(), new) by {
                                    if j < k {
                                        order_is_transitive(new, old_best, streams@[j]@.last());
                                    }
                                }
                            }
                            best = Some(k);
                        }
                    },
                }
            }
            k = k + 1;
        }
        let b = match best {
            None => {
                proof {
                    all_of_nothing(streams@);
                    assert(merged@.to_multiset() =~= all_of(given));
                    assert forall|j: int| 0 <= j < given.len() implies #[trigger] taken[j]
                        == given[j]@ by {
                        assert(streams@[j]@.len() == 0);
                        assert(taken[j] + streams@[j]@.reverse() =~= taken[j]);
                    }
                    assert(taken =~= stream_views(given));
                }
                break;
            },
            Some(b) => b,
        };
        let ghost before = streams@;
        let ghost merged_before = merged@;
        match streams[b].pop() {
            Some(observation) => {
                proof {
                    let popped = streams@[b as int];
                    assert(streams@ =~= before.update(b as int, popped));
                    assert(before[b as int]@ =~= popped@.push(observation));
                    popped@.to_multiset_ensures();
                    before[b as int]@.to_multiset_ensures();
                    merged@.to_multiset_ensures();
                    all_of_updated(before, b as int, popped);
                    assert(all_of(streams@).insert(observation) =~= all_of(before)) by {
                        assert(before[b as int]@.to_multiset() =~= popped@.to_multiset().insert(
                            observation,
                        ));
                        let p = popped@.to_multiset();
                        assert(all_of(streams@).add(p.insert(observation)) == all_of(before).add(
                            p,
                        ));
                        assert forall|v: Observation|
                            #[trigger] all_of(streams@).insert(observation).count(v) == all_of(
                                before,
                            ).count(v) by {
                            assert(all_of(streams@).add(p.insert(observation)).count(v) == all_of(
                                before,
                            ).add(p).count(v));
                        }
                    }
                    assert forall|j: int, x: int|
                        0 <= j < before.len() && 0 <= x < before[j]@.len() implies !stands_before(
                        #[trigger] before[j]@[x],
                        observation,
                    ) by {
                        let last = before[j]@.last();
                        if x < before[j]@.len() - 1 {
                            order_is_transitive(observation, last, before[j]@[x]);
                        }
                    }
                    assert forall|m: int, j: int, x: int|
                        0 <= m <= merged_before.len() && 0 <= j < streams@.len() && 0 <= x
                            < streams@[j]@.len() implies !stands_before(
                        #[trigger] streams@[j]@[x],
                        #[trigger] merged_before.push(observation)[m],
                    ) by {
                        assert(streams@[j]@[x] == before[j]@[x]);
                        if m < merged_before.len() {
                            assert(!stands_before(before[j]@[x], merged_before[m]));
                        }
                    }
                    assert forall|i: int, j: int|
                        0 <= i < j < merged_before.len() + 1 implies !stands_before(
                        #[trigger] merged_before.push(observation)[j],
                        #[trigger] merged_before.push(observation)[i],
                    ) by {
                        if j == merged_before.len() {
                            let last = before[b as int]@.len() - 1;
                            assert(before[b as int]@[last] == observation);
                            assert(!stands_before(before[b as int]@[last], merged_before[i]));
                        }
                    }
                }
                proof {
                    interleaves_one_more(merged@, taken, b as int, observation);
                    let taken_before = taken;
                    taken = taken.update(b as int, taken[b as int].push(observation));
                    assert forall|j: int| 0 <= j < given.len() implies #[trigger] taken[j]
                        + streams@[j]@.reverse() == given[j]@ by {
                        if j == b {
                            let popped = streams@[j]@;
                            assert(before[j]@.reverse() =~= seq![observation] + popped.reverse());
                            assert(taken[j] + popped.reverse() =~= taken_before[j]
                                + before[j]@.reverse());
                        } else {
                            assert(streams@[j]@ == before[j]@);
                            assert(taken[j] == taken_before[j]);
                        }
                    }
                }
                merged.push(observation);
                assert(merged@.to_multiset().add(all_of(streams@)) =~= all_of(given));
                assert(all_of(before).len() == all_of(streams@).len() + 1);
            },
            None => {},
        }
    }
    Ok(merged)
}

} // verus!
