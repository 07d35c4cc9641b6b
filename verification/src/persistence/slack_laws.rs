//! Laws of the catalog of threads.

use vstd::prelude::*;
use vstd::string::*;

use super::error::PersistenceErrorView;
use super::slack::{DiscoveredSlackThread, EntryView, SlackThreadCatalogEntry, ThreadView};

verus! {

/// A thread that is found for the first time is active, is read from its own first message on and
/// is polled in the round that found it. One that is known keeps its name and how far it was read,
/// becomes active, and stands at the earlier one of the two rounds and at the earlier one of the
/// two observations.
pub proof fn found_threads_are_polled_at_once(
    known: EntryView,
    key: ThreadView,
    generation: u64,
    append_seq: u64,
)
    ensures
        ({
            let fresh = super::slack::noted(None, key, generation, append_seq);
            &&& fresh.key == key
            &&& fresh.reply_cursor == key.thread_ts
            &&& fresh.active
            &&& fresh.next_poll_generation == generation
            &&& fresh.discovered_append_seq == append_seq
        }),
        ({
            let again = super::slack::noted(Some(known), key, generation, append_seq);
            &&& again.key == known.key
            &&& again.reply_cursor == known.reply_cursor
            &&& again.active
            &&& again.next_poll_generation <= generation
            &&& again.next_poll_generation <= known.next_poll_generation
            &&& again.next_poll_generation == generation || again.next_poll_generation
                == known.next_poll_generation
            &&& again.discovered_append_seq <= append_seq
            &&& again.discovered_append_seq <= known.discovered_append_seq
            &&& again.discovered_append_seq == append_seq || again.discovered_append_seq
                == known.discovered_append_seq
        }),
{
}

/// The name of a thread is in order where its source, its channel and its time all hold something;
/// else the first of these that is blank is named.
pub proof fn names_of_threads_are_filled(key: ThreadView)
    ensures
        super::slack::key_fault(key) is None <==> !crate::text::blank(key.source_instance)
            && !crate::text::blank(key.channel_id) && !crate::text::blank(key.thread_ts),
        crate::text::blank(key.source_instance) ==> super::slack::key_fault(key) == Some(
            PersistenceErrorView::SchemaInvariant(
                "Slack thread "@ + "source_instance"@ + " must not be blank"@,
            ),
        ),
        !crate::text::blank(key.source_instance) && crate::text::blank(key.channel_id)
            ==> super::slack::key_fault(key) == Some(
            PersistenceErrorView::SchemaInvariant(
                "Slack thread "@ + "channel_id"@ + " must not be blank"@,
            ),
        ),
        !crate::text::blank(key.source_instance) && !crate::text::blank(key.channel_id)
            && crate::text::blank(key.thread_ts) ==> super::slack::key_fault(key) == Some(
            PersistenceErrorView::SchemaInvariant(
                "Slack thread "@ + "thread_ts"@ + " must not be blank"@,
            ),
        ),
{
}

/// Whether a thread was found in an observation behind the old mark and up to the new one, under a
/// name that is in order.
pub open spec fn found_between(
    thread: DiscoveredSlackThread,
    current: u64,
    high_water: u64,
) -> bool {
    &&& !crate::text::blank(thread.key.source_instance@)
    &&& !crate::text::blank(thread.key.channel_id@)
    &&& !crate::text::blank(thread.key.thread_ts@)
    &&& current < thread.observation_append_seq
    &&& thread.observation_append_seq <= high_water
}

proof fn first_faults(threads: Seq<DiscoveredSlackThread>, current: u64, high_water: u64)
    ensures
        super::slack::first_discovery_fault(threads, current, high_water) is None <==> forall|i: int|
            0 <= i < threads.len() ==> found_between(#[trigger] threads[i], current, high_water),
    decreases threads.len(),
{
    if threads.len() > 0 {
        let rest = threads.drop_last();
        first_faults(rest, current, high_water);
        assert(forall|i: int| 0 <= i < rest.len() ==> #[trigger] rest[i] == threads[i]);
        if super::slack::first_discovery_fault(threads, current, high_water) is None {
            assert forall|i: int| 0 <= i < threads.len() implies found_between(
                #[trigger] threads[i],
                current,
                high_water,
            ) by {
                if i < rest.len() {
                    assert(found_between(rest[i], current, high_water));
                }
            }
        } else if forall|i: int|
            0 <= i < threads.len() ==> found_between(#[trigger] threads[i], current, high_water) {
            assert(found_between(threads[threads.len() - 1], current, high_water));
            assert forall|i: int| 0 <= i < rest.len() implies found_between(
                #[trigger] rest[i],
                current,
                high_water,
            ) by {
                assert(found_between(threads[i], current, high_water));
            }
        }
    }
}

/// A round of discovery is taken just where its mark neither goes back nor passes the tail, and
/// every thread of it was found behind the old mark and up to the new one.
pub proof fn rounds_lie_between_their_marks(
    current: u64,
    high_water: u64,
    tail: u64,
    threads: Seq<DiscoveredSlackThread>,
)
    ensures
        super::slack::round_fault(current, high_water, tail, threads) is None <==> current
            <= high_water && high_water <= tail && forall|i: int|
            0 <= i < threads.len() ==> found_between(#[trigger] threads[i], current, high_water),
        high_water < current ==> super::slack::round_fault(current, high_water, tail, threads)
            == Some(
            PersistenceErrorView::SchemaInvariant(
                "Slack thread discovery high-water cannot regress from "@ + crate::text::decimal(
                    current as nat,
                ) + " to "@ + crate::text::decimal(high_water as nat),
            ),
        ),
        current <= high_water && high_water > tail ==> super::slack::round_fault(
            current,
            high_water,
            tail,
            threads,
        ) == Some(
            PersistenceErrorView::SchemaInvariant(
                "Slack thread discovery high-water "@ + crate::text::decimal(high_water as nat)
                    + " exceeds observation tail "@ + crate::text::decimal(tail as nat),
            ),
        ),
{
    first_faults(threads, current, high_water);
}

proof fn first_fault_is_told(
    threads: Seq<DiscoveredSlackThread>,
    current: u64,
    high_water: u64,
    n: int,
)
    requires
        0 <= n < threads.len(),
        forall|i: int| 0 <= i < n ==> found_between(#[trigger] threads[i], current, high_water),
        !found_between(threads[n], current, high_water),
    ensures
        super::slack::first_discovery_fault(threads, current, high_water)
            == super::slack::discovery_fault(threads[n], current, high_water),
    decreases threads.len(),
{
    let rest = threads.drop_last();
    assert(forall|i: int| 0 <= i < rest.len() ==> #[trigger] rest[i] == threads[i]);
    if n == threads.len() - 1 {
        assert forall|i: int| 0 <= i < rest.len() implies found_between(
            #[trigger] rest[i],
            current,
            high_water,
        ) by {
            assert(found_between(threads[i], current, high_water));
        }
        first_faults(rest, current, high_water);
    } else {
        assert(rest[n] == threads[n]);
        assert forall|i: int| 0 <= i < n implies found_between(
            #[trigger] rest[i],
            current,
            high_water,
        ) by {
            assert(found_between(threads[i], current, high_water));
        }
        first_fault_is_told(rest, current, high_water, n);
    }
}

/// Where every thread before it was found between the marks and one under a name in order was not,
/// the round is refused with the number of that one and with both marks.
pub proof fn the_first_stray_thread_is_told(
    current: u64,
    high_water: u64,
    tail: u64,
    threads: Seq<DiscoveredSlackThread>,
    n: int,
)
    requires
        current <= high_water <= tail,
        0 <= n < threads.len(),
        forall|i: int| 0 <= i < n ==> found_between(#[trigger] threads[i], current, high_water),
        !crate::text::blank(threads[n].key.source_instance@),
        !crate::text::blank(threads[n].key.channel_id@),
        !crate::text::blank(threads[n].key.thread_ts@),
        threads[n].observation_append_seq <= current || high_water
            < threads[n].observation_append_seq,
    ensures
        super::slack::round_fault(current, high_water, tail, threads) == Some(
            PersistenceErrorView::SchemaInvariant(
                "Slack thread discovery sequence "@ + crate::text::decimal(
                    threads[n].observation_append_seq as nat,
                ) + " is outside ("@ + crate::text::decimal(current as nat) + ", "@
                    + crate::text::decimal(high_water as nat) + "]"@,
            ),
        ),
{
    first_fault_is_told(threads, current, high_water, n);
}

proof fn due_ones(entries: Seq<SlackThreadCatalogEntry>, generation: u64, one: SlackThreadCatalogEntry)
    ensures
        super::slack::due(entries, generation).len() <= entries.len(),
        super::slack::due(entries, generation).to_multiset().count(one) == if one.active
            || one.next_poll_generation <= generation {
            entries.to_multiset().count(one)
        } else {
            0
        },
    decreases entries.len(),
{
    entries.to_multiset_ensures();
    let now = super::slack::due(entries, generation);
    now.to_multiset_ensures();
    if entries.len() > 0 {
        let rest = entries.drop_last();
        due_ones(rest, generation, one);
        rest.to_multiset_ensures();
        let before = super::slack::due(rest, generation);
        before.to_multiset_ensures();
        assert(entries =~= rest.push(entries.last()));
    }
}

/// With room for all of them, the threads that are polled are just the active ones and those whose
/// round has come, each as often as the catalog holds it.
pub proof fn due_threads_are_all_polled(
    list: Seq<SlackThreadCatalogEntry>,
    entries: Seq<SlackThreadCatalogEntry>,
    generation: u64,
    limit: usize,
    one: SlackThreadCatalogEntry,
)
    requires
        super::slack::heads_the_queue(list, entries, generation, limit),
        entries.len() <= limit,
    ensures
        list.to_multiset().count(one) == if one.active || one.next_poll_generation <= generation {
            entries.to_multiset().count(one)
        } else {
            0
        },
{
    due_ones(entries, generation, one);
    crate::sorting::sorting_rearranges(super::slack::due(entries, generation));
}

/// What is polled with little room is the beginning of what is polled with more, and the room is
/// used up while threads are due.
pub proof fn room_decides_how_many_are_polled(
    few: Seq<SlackThreadCatalogEntry>,
    many: Seq<SlackThreadCatalogEntry>,
    entries: Seq<SlackThreadCatalogEntry>,
    generation: u64,
    room: usize,
    more: usize,
)
    requires
        room <= more,
        super::slack::heads_the_queue(few, entries, generation, room),
        super::slack::heads_the_queue(many, entries, generation, more),
    ensures
        few.len() == if many.len() <= room {
            many.len()
        } else {
            room as nat
        },
        forall|i: int| 0 <= i < few.len() ==> #[trigger] few[i] == many[i],
{
}

/// In a poll no idle thread stands before an active one; among equally active ones none whose round
/// comes later stands before one whose round comes earlier; and among those of one round the
/// earlier time stands first.
pub proof fn polls_take_the_active_and_the_longest_waiting_first(
    list: Seq<SlackThreadCatalogEntry>,
    entries: Seq<SlackThreadCatalogEntry>,
    generation: u64,
    limit: usize,
    i: int,
    j: int,
)
    requires
        super::slack::heads_the_queue(list, entries, generation, limit),
        0 <= i < j < list.len(),
    ensures
        list[j].active ==> list[i].active,
        list[i].active == list[j].active ==> list[i].next_poll_generation
            <= list[j].next_poll_generation,
        list[i].active == list[j].active && list[i].next_poll_generation
            == list[j].next_poll_generation ==> !crate::text::precedes(
            list[j].key.thread_ts@,
            list[i].key.thread_ts@,
        ),
{
    super::slack::polled_threads_are_due(list, entries, generation, limit);
    assert(!crate::sorting::Ranked::ranks_before(&list[j], &list[i]));
}

/// Threads may be asked for where source and channel hold something, there is room for at least one
/// and the current round is asked for.
pub proof fn polls_are_asked_for_in_the_current_round(
    source_instance: Seq<char>,
    channel_id: Seq<char>,
    generation: u64,
    current: u64,
    limit: usize,
)
    ensures
        super::slack::poll_fault(source_instance, channel_id, generation, current, limit) is None
            <==> !crate::text::blank(source_instance) && !crate::text::blank(channel_id) && limit
            >= 1 && generation == current,
        !crate::text::blank(source_instance) && !crate::text::blank(channel_id) && limit == 0
            ==> super::slack::poll_fault(source_instance, channel_id, generation, current, limit)
            == Some(
            PersistenceErrorView::SchemaInvariant(
                "Slack thread poll limit must be greater than zero"@,
            ),
        ),
        !crate::text::blank(source_instance) && !crate::text::blank(channel_id) && limit >= 1
            && generation != current ==> super::slack::poll_fault(
            source_instance,
            channel_id,
            generation,
            current,
            limit,
        ) == Some(
            PersistenceErrorView::SchemaInvariant(
                "Slack thread queue requested generation "@ + crate::text::decimal(
                    generation as nat,
                ) + ", current generation is "@ + crate::text::decimal(current as nat),
            ),
        ),
{
}

/// A poll of a thread is completed in the current round, with a mark to read on from and with a
/// later round to come back in.
pub proof fn polls_are_completed_in_the_current_round(
    key: ThreadView,
    reply_cursor: Seq<char>,
    generation: u64,
    next: u64,
    current: u64,
)
    requires
        !crate::text::blank(key.source_instance),
        !crate::text::blank(key.channel_id),
        !crate::text::blank(key.thread_ts),
    ensures
        super::slack::completion_fault(key, reply_cursor, generation, next, current) is None
            <==> !crate::text::blank(reply_cursor) && generation < next && generation == current,
        crate::text::blank(reply_cursor) ==> super::slack::completion_fault(
            key,
            reply_cursor,
            generation,
            next,
            current,
        ) == Some(
            PersistenceErrorView::SchemaInvariant(
                "Slack thread "@ + "reply_cursor"@ + " must not be blank"@,
            ),
        ),
        !crate::text::blank(reply_cursor) && next <= generation ==> super::slack::completion_fault(
            key,
            reply_cursor,
            generation,
            next,
            current,
        ) == Some(
            PersistenceErrorView::SchemaInvariant(
                "Slack thread next poll generation "@ + crate::text::decimal(next as nat)
                    + " must be after completed generation "@ + crate::text::decimal(
                    generation as nat,
                ),
            ),
        ),
        !crate::text::blank(reply_cursor) && generation < next && generation != current
            ==> super::slack::completion_fault(key, reply_cursor, generation, next, current)
            == Some(
            PersistenceErrorView::SchemaInvariant(
                "Slack thread poll completed generation "@ + crate::text::decimal(
                    generation as nat,
                ) + ", current generation is "@ + crate::text::decimal(current as nat),
            ),
        ),
{
}

} // verus!
