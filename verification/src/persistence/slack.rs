//! The catalog of threads that are polled for replies.

use vstd::prelude::*;
use vstd::string::*;

use crate::domain::ObservationId;
use crate::sorting::{sort, Ranked};
use crate::text::{decimal_text, is_blank, str_precedes, text3, text4, text6};

use super::error::{violation, PersistenceError, PersistenceErrorView};
use super::identity::{DurableAppendOutcome, DurableView};

verus! {

/// A thread of a channel.
#[derive(Debug)]
pub struct SlackThreadKey {
    pub source_instance: String,
    pub channel_id: String,
    pub thread_ts: String,
}

/// Which thread is meant.
pub struct ThreadView {
    pub source_instance: Seq<char>,
    pub channel_id: Seq<char>,
    pub thread_ts: Seq<char>,
}

impl View for SlackThreadKey {
    type V = ThreadView;

    open spec fn view(&self) -> ThreadView {
        ThreadView {
            source_instance: self.source_instance@,
            channel_id: self.channel_id@,
            thread_ts: self.thread_ts@,
        }
    }
}

impl Clone for SlackThreadKey {
    fn clone(&self) -> (r: SlackThreadKey)
        ensures
            r@ == self@,
    {
        SlackThreadKey {
            source_instance: self.source_instance.clone(),
            channel_id: self.channel_id.clone(),
            thread_ts: self.thread_ts.clone(),
        }
    }
}

/// A thread with what is known of it.
#[derive(Debug)]
pub struct SlackThreadCatalogEntry {
    pub key: SlackThreadKey,
    pub reply_cursor: String,
    pub active: bool,
    pub next_poll_generation: u64,
    pub discovered_append_seq: u64,
}

/// What is known of a thread.
pub struct EntryView {
    pub key: ThreadView,
    pub reply_cursor: Seq<char>,
    pub active: bool,
    pub next_poll_generation: u64,
    pub discovered_append_seq: u64,
}

impl View for SlackThreadCatalogEntry {
    type V = EntryView;

    open spec fn view(&self) -> EntryView {
        EntryView {
            key: self.key@,
            reply_cursor: self.reply_cursor@,
            active: self.active,
            next_poll_generation: self.next_poll_generation,
            discovered_append_seq: self.discovered_append_seq,
        }
    }
}

/// A thread that was found, with the observation that it was found in.
#[derive(Debug)]
pub struct DiscoveredSlackThread {
    pub key: SlackThreadKey,
    pub observation_append_seq: u64,
}

/// What a blank field is refused with.
pub open spec fn blank_field(field: Seq<char>) -> PersistenceErrorView {
    super::error::broken("Slack thread "@ + field + " must not be blank"@)
}

/// A field has to hold something.
pub fn validate_non_blank(field: &str, value: &str) -> (r: Result<(), PersistenceError>)
    ensures
        match r {
            Ok(()) => !crate::text::blank(value@),
            Err(e) => crate::text::blank(value@) && e@ == blank_field(field@),
        },
{
    if is_blank(value) {
        Err(PersistenceError::SchemaInvariant(text3("Slack thread ", field, " must not be blank")))
    } else {
        Ok(())
    }
}

/// What is wrong with the name of a thread.
pub open spec fn key_fault(key: ThreadView) -> Option<PersistenceErrorView> {
    if crate::text::blank(key.source_instance) {
        Some(blank_field("source_instance"@))
    } else if crate::text::blank(key.channel_id) {
        Some(blank_field("channel_id"@))
    } else if crate::text::blank(key.thread_ts) {
        Some(blank_field("thread_ts"@))
    } else {
        None
    }
}

/// Checks the name of a thread.
pub fn validate_slack_thread_key(key: &SlackThreadKey) -> (r: Result<(), PersistenceError>)
    ensures
        match r {
            Ok(()) => key_fault(key@) is None,
            Err(e) => key_fault(key@) == Some(e@),
        },
{
    match validate_non_blank("source_instance", key.source_instance.as_str()) {
        Ok(()) => {},
        Err(e) => {
            return Err(e);
        },
    }
    match validate_non_blank("channel_id", key.channel_id.as_str()) {
        Ok(()) => {},
        Err(e) => {
            return Err(e);
        },
    }
    validate_non_blank("thread_ts", key.thread_ts.as_str())
}

/// The entry of a thread that was found: a new one is polled in the current generation; one that is
/// there becomes active again and keeps the earlier poll and the earlier discovery.
pub open spec fn noted(
    existing: Option<EntryView>,
    key: ThreadView,
    generation: u64,
    append_seq: u64,
) -> EntryView {
    match existing {
        None => EntryView {
            key,
            reply_cursor: key.thread_ts,
            active: true,
            next_poll_generation: generation,
            discovered_append_seq: append_seq,
        },
        Some(e) => EntryView {
            active: true,
            next_poll_generation: if e.next_poll_generation < generation {
                e.next_poll_generation
            } else {
                generation
            },
            discovered_append_seq: if e.discovered_append_seq < append_seq {
                e.discovered_append_seq
            } else {
                append_seq
            },
            ..e
        },
    }
}

/// The entry of a thread that was found, given the one that is there.
pub fn upsert_slack_thread(
    existing: Option<SlackThreadCatalogEntry>,
    key: &SlackThreadKey,
    generation: u64,
    observation_append_seq: u64,
) -> (r: Result<SlackThreadCatalogEntry, PersistenceError>)
    ensures
        crate::text::result_view(r) == (match key_fault(key@) {
            Some(e) => Err(e),
            None => if observation_append_seq == 0 {
                Err(
                    super::error::broken(
                        "Slack thread discovery append sequence must be positive"@,
                    ),
                )
            } else {
                Ok(
                    noted(
                        match existing {
                            Some(e) => Some(e@),
                            None => None,
                        },
                        key@,
                        generation,
                        observation_append_seq,
                    ),
                )
            },
        }),
{
    match validate_slack_thread_key(key) {
        Ok(()) => {},
        Err(e) => {
            return Err(e);
        },
    }
    if observation_append_seq == 0 {
        return Err(violation("Slack thread discovery append sequence must be positive"));
    }
    match existing {
        None => Ok(
            SlackThreadCatalogEntry {
                key: key.clone(),
                reply_cursor: key.thread_ts.clone(),
                active: true,
                next_poll_generation: generation,
                discovered_append_seq: observation_append_seq,
            },
        ),
        Some(e) => Ok(
            SlackThreadCatalogEntry {
                key: e.key,
                reply_cursor: e.reply_cursor,
                active: true,
                next_poll_generation: if e.next_poll_generation < generation {
                    e.next_poll_generation
                } else {
                    generation
                },
                discovered_append_seq: if e.discovered_append_seq < observation_append_seq {
                    e.discovered_append_seq
                } else {
                    observation_append_seq
                },
            },
        ),
    }
}

/// The observation in which an append of a message has found its thread: the one that the message
/// stands for now, but none where the append collided with other content.
pub fn discovered_in(outcome: &DurableAppendOutcome) -> (r: Option<&ObservationId>)
    ensures
        match outcome@ {
            DurableView::Appended(id) => r matches Some(found) && found@ == id,
            DurableView::Duplicate(id) => r matches Some(found) && found@ == id,
            DurableView::CanonicalCollision(_) => r is None,
        },
{
    match outcome {
        DurableAppendOutcome::Appended(id) => Some(id),
        DurableAppendOutcome::Duplicate(id) => Some(id),
        DurableAppendOutcome::CanonicalCollision(_) => None,
    }
}

/// Noting a thread again changes nothing, and neither noting delays its poll or its discovery.
pub proof fn noting_twice_is_noting_once(
    existing: Option<EntryView>,
    key: ThreadView,
    generation: u64,
    append_seq: u64,
)
    ensures
        noted(Some(noted(existing, key, generation, append_seq)), key, generation, append_seq)
            == noted(existing, key, generation, append_seq),
        existing matches Some(e) ==> noted(
            existing,
            key,
            generation,
            append_seq,
        ).next_poll_generation <= e.next_poll_generation && noted(
            existing,
            key,
            generation,
            append_seq,
        ).discovered_append_seq <= e.discovered_append_seq,
{
}

/// What is wrong with one found thread.
pub open spec fn discovery_fault(
    thread: DiscoveredSlackThread,
    current: u64,
    high_water: u64,
) -> Option<PersistenceErrorView> {
    match key_fault(thread.key@) {
        Some(e) => Some(e),
        None => if thread.observation_append_seq <= current || thread.observation_append_seq
            > high_water {
            Some(
                super::error::broken(
                    "Slack thread discovery sequence "@ + crate::text::decimal(
                        thread.observation_append_seq as nat,
                    ) + " is outside ("@ + crate::text::decimal(current as nat) + ", "@
                        + crate::text::decimal(high_water as nat) + "]"@,
                ),
            )
        } else {
            None
        },
    }
}

/// What is wrong with the first faulty one of found threads.
pub open spec fn first_discovery_fault(
    threads: Seq<DiscoveredSlackThread>,
    current: u64,
    high_water: u64,
) -> Option<PersistenceErrorView>
    decreases threads.len(),
{
    if threads.len() == 0 {
        None
    } else {
        match first_discovery_fault(threads.drop_last(), current, high_water) {
            Some(e) => Some(e),
            None => discovery_fault(threads.last(), current, high_water),
        }
    }
}

proof fn discovery_stays_refused(
    threads: Seq<DiscoveredSlackThread>,
    current: u64,
    high_water: u64,
    n: int,
)
    requires
        0 <= n <= threads.len(),
        first_discovery_fault(threads.take(n), current, high_water) is Some,
    ensures
        first_discovery_fault(threads, current, high_water) == first_discovery_fault(
            threads.take(n),
            current,
            high_water,
        ),
    decreases threads.len() - n,
{
    if n == threads.len() {
        assert(threads.take(n) =~= threads);
    } else {
        assert(threads.take(n + 1).drop_last() =~= threads.take(n));
        discovery_stays_refused(threads, current, high_water, n + 1);
    }
}

/// What is wrong with a round of discovery: its high water may neither go back nor lie beyond the
/// tail of the lake, and what it found lies between the old and the new high water.
pub open spec fn round_fault(
    current: u64,
    high_water: u64,
    tail: u64,
    threads: Seq<DiscoveredSlackThread>,
) -> Option<PersistenceErrorView> {
    if high_water < current {
        Some(
            super::error::broken(
                "Slack thread discovery high-water cannot regress from "@ + crate::text::decimal(
                    current as nat,
                ) + " to "@ + crate::text::decimal(high_water as nat),
            ),
        )
    } else if high_water > tail {
        Some(
            super::error::broken(
                "Slack thread discovery high-water "@ + crate::text::decimal(high_water as nat)
                    + " exceeds observation tail "@ + crate::text::decimal(tail as nat),
            ),
        )
    } else {
        first_discovery_fault(threads, current, high_water)
    }
}

fn check_discovered(thread: &DiscoveredSlackThread, current: u64, high_water: u64) -> (r: Result<
    (),
    PersistenceError,
>)
    ensures
        match r {
            Ok(()) => discovery_fault(*thread, current, high_water) is None,
            Err(e) => discovery_fault(*thread, current, high_water) == Some(e@),
        },
{
    match validate_slack_thread_key(&thread.key) {
        Ok(()) => {},
        Err(e) => {
            return Err(e);
        },
    }
    if thread.observation_append_seq <= current || thread.observation_append_seq > high_water {
        let at = decimal_text(thread.observation_append_seq);
        let low = decimal_text(current);
        let high = decimal_text(high_water);
        let head = text4(
            "Slack thread discovery sequence ",
            at.as_str(),
            " is outside (",
            low.as_str(),
        );
        return Err(
            PersistenceError::SchemaInvariant(text4(head.as_str(), ", ", high.as_str(), "]")),
        );
    }
    Ok(())
}

/// Checks a round of discovery, given the high water and the tail before it.
pub fn check_slack_thread_discovery(
    current: u64,
    high_water: u64,
    tail: u64,
    threads: &[DiscoveredSlackThread],
) -> (r: Result<(), PersistenceError>)
    ensures
        match r {
            Ok(()) => round_fault(current, high_water, tail, threads@) is None,
            Err(e) => round_fault(current, high_water, tail, threads@) == Some(e@),
        },
{
    if high_water < current {
        let from = decimal_text(current);
        let to = decimal_text(high_water);
        return Err(
            PersistenceError::SchemaInvariant(
                text4(
                    "Slack thread discovery high-water cannot regress from ",
                    from.as_str(),
                    " to ",
                    to.as_str(),
                ),
            ),
        );
    }
    if high_water > tail {
        let at = decimal_text(high_water);
        let end = decimal_text(tail);
        return Err(
            PersistenceError::SchemaInvariant(
                text4(
                    "Slack thread discovery high-water ",
                    at.as_str(),
                    " exceeds observation tail ",
                    end.as_str(),
                ),
            ),
        );
    }
    let mut i: usize = 0;
    while i < threads.len()
        invariant
            i <= threads@.len(),
            current <= high_water <= tail,
            first_discovery_fault(threads@.take(i as int), current, high_water) is None,
        decreases threads@.len() - i,
    {
        assert(threads@.take(i + 1).drop_last() =~= threads@.take(i as int));
        match check_discovered(&threads[i], current, high_water) {
            Ok(()) => {},
            Err(e) => {
                proof {
                    discovery_stays_refused(threads@, current, high_water, i + 1);
                }
                return Err(e);
            },
        }
        i = i + 1;
    }
    assert(threads@.take(i as int) =~= threads@);
    Ok(())
}

/// The poll generation after the current one.
pub fn advance_slack_thread_poll_generation(current: u64) -> (r: Result<u64, PersistenceError>)
    ensures
        match r {
            Ok(next) => next == current + 1,
            Err(e) => current == u64::MAX && e@ == super::error::broken(
                "Slack thread poll generation overflowed u64"@,
            ),
        },
{
    if current == u64::MAX {
        Err(violation("Slack thread poll generation overflowed u64"))
    } else {
        Ok(current + 1)
    }
}

/// Whether a thread is to be polled in a generation.
pub open spec fn is_due(entry: SlackThreadCatalogEntry, generation: u64) -> bool {
    entry.active || entry.next_poll_generation <= generation
}

/// The threads that are to be polled in a generation.
pub open spec fn due(entries: Seq<SlackThreadCatalogEntry>, generation: u64) -> Seq<
    SlackThreadCatalogEntry,
>
    decreases entries.len(),
{
    if entries.len() == 0 {
        Seq::empty()
    } else {
        let before = due(entries.drop_last(), generation);
        if is_due(entries.last(), generation) {
            before.push(entries.last())
        } else {
            before
        }
    }
}

impl Ranked for SlackThreadCatalogEntry {
    /// Active threads first, then those that wait longest, then by their time.
    open spec fn ranks_before(&self, other: &SlackThreadCatalogEntry) -> bool {
        if self.active != other.active {
            self.active
        } else if self.next_poll_generation != other.next_poll_generation {
            self.next_poll_generation < other.next_poll_generation
        } else {
            crate::text::precedes(self.key.thread_ts@, other.key.thread_ts@)
        }
    }

    proof fn ranks_transitively(
        a: &SlackThreadCatalogEntry,
        b: &SlackThreadCatalogEntry,
        c: &SlackThreadCatalogEntry,
    ) {
        let x = a.key.thread_ts@;
        let y = b.key.thread_ts@;
        let z = c.key.thread_ts@;
        crate::text::precedes_total(x, y);
        crate::text::precedes_total(y, z);
        if crate::text::precedes(z, x) {
            if crate::text::precedes(x, y) {
                crate::text::precedes_transitive(z, x, y);
            }
        }
    }

    proof fn ranks_one_way(a: &SlackThreadCatalogEntry, b: &SlackThreadCatalogEntry) {
        let x = a.key.thread_ts@;
        let y = b.key.thread_ts@;
        if crate::text::precedes(x, y) && crate::text::precedes(y, x) {
            crate::text::precedes_transitive(x, y, x);
            crate::text::precedes_irreflexive(x);
        }
    }

    fn is_before(&self, other: &SlackThreadCatalogEntry) -> bool {
        if self.active != other.active {
            self.active
        } else if self.next_poll_generation != other.next_poll_generation {
            self.next_poll_generation < other.next_poll_generation
        } else {
            str_precedes(self.key.thread_ts.as_str(), other.key.thread_ts.as_str())
        }
    }
}

/// What is wrong with a request for threads to poll.
pub open spec fn poll_fault(
    source_instance: Seq<char>,
    channel_id: Seq<char>,
    generation: u64,
    current: u64,
    limit: usize,
) -> Option<PersistenceErrorView> {
    if crate::text::blank(source_instance) {
        Some(blank_field("source_instance"@))
    } else if crate::text::blank(channel_id) {
        Some(blank_field("channel_id"@))
    } else if limit == 0 {
        Some(super::error::broken("Slack thread poll limit must be greater than zero"@))
    } else if generation != current {
        Some(
            super::error::broken(
                "Slack thread queue requested generation "@ + crate::text::decimal(
                    generation as nat,
                ) + ", current generation is "@ + crate::text::decimal(current as nat),
            ),
        )
    } else {
        None
    }
}

/// Whether a list is the head of the queue of threads: those that are to be polled, in the order of
/// their ranking, no more than the limit.
pub open spec fn heads_the_queue(
    list: Seq<SlackThreadCatalogEntry>,
    entries: Seq<SlackThreadCatalogEntry>,
    generation: u64,
    limit: usize,
) -> bool {
    let queue = crate::sorting::in_rank(due(entries, generation));
    list == if queue.len() <= limit {
        queue
    } else {
        queue.take(limit as int)
    }
}

/// The threads of a channel that are polled next, given all of its threads.
pub fn slack_threads_to_poll(
    source_instance: &str,
    channel_id: &str,
    entries: Vec<SlackThreadCatalogEntry>,
    generation: u64,
    current: u64,
    limit: usize,
) -> (r: Result<Vec<SlackThreadCatalogEntry>, PersistenceError>)
    ensures
        match r {
            Ok(list) => poll_fault(source_instance@, channel_id@, generation, current, limit) is None
                && heads_the_queue(list@, entries@, generation, limit),
            Err(e) => poll_fault(source_instance@, channel_id@, generation, current, limit) == Some(
                e@,
            ),
        },
{
    match validate_non_blank("source_instance", source_instance) {
        Ok(()) => {},
        Err(e) => {
            return Err(e);
        },
    }
    match validate_non_blank("channel_id", channel_id) {
        Ok(()) => {},
        Err(e) => {
            return Err(e);
        },
    }
    if limit == 0 {
        return Err(violation("Slack thread poll limit must be greater than zero"));
    }
    if generation != current {
        let asked = decimal_text(generation);
        let now = decimal_text(current);
        return Err(
            PersistenceError::SchemaInvariant(
                text4(
                    "Slack thread queue requested generation ",
                    asked.as_str(),
                    ", current generation is ",
                    now.as_str(),
                ),
            ),
        );
    }
    let ghost all = entries@;
    let mut rest = entries;
    let mut waiting: Vec<SlackThreadCatalogEntry> = Vec::new();
    assert(rest@ =~= all.skip(0));
    while rest.len() > 0
        invariant
            rest@.len() <= all.len(),
            rest@ == all.skip(all.len() - rest@.len()),
            waiting@ == due(all.take(all.len() - rest@.len()), generation),
        decreases rest@.len(),
    {
        let ghost k = all.len() - rest@.len();
        let entry = rest.remove(0);
        proof {
            assert(entry == all[k]);
            assert(rest@ =~= all.skip(k + 1));
            assert(all.take(k + 1).drop_last() =~= all.take(k));
        }
        if entry.active || entry.next_poll_generation <= generation {
            waiting.push(entry);
        }
    }
    assert(all.take(all.len() as int) =~= all);
    let mut queue = sort(waiting);
    let ghost whole = queue@;
    if queue.len() > limit {
        queue.truncate(limit);
        assert(queue@ =~= whole.take(limit as int));
    }
    Ok(queue)
}

/// What is wrong with a completed poll, given the current generation.
pub open spec fn completion_fault(
    key: ThreadView,
    reply_cursor: Seq<char>,
    generation: u64,
    next: u64,
    current: u64,
) -> Option<PersistenceErrorView> {
    match key_fault(key) {
        Some(e) => Some(e),
        None => if crate::text::blank(reply_cursor) {
            Some(blank_field("reply_cursor"@))
        } else if next <= generation {
            Some(
                super::error::broken(
                    "Slack thread next poll generation "@ + crate::text::decimal(next as nat)
                        + " must be after completed generation "@ + crate::text::decimal(
                        generation as nat,
                    ),
                ),
            )
        } else if generation != current {
            Some(
                super::error::broken(
                    "Slack thread poll completed generation "@ + crate::text::decimal(
                        generation as nat,
                    ) + ", current generation is "@ + crate::text::decimal(current as nat),
                ),
            )
        } else {
            None
        },
    }
}

/// Checks a completed poll, given the current generation.
pub fn check_slack_thread_poll(
    key: &SlackThreadKey,
    reply_cursor: &str,
    generation: u64,
    next_poll_generation: u64,
    current: u64,
) -> (r: Result<(), PersistenceError>)
    ensures
        match r {
            Ok(()) => completion_fault(
                key@,
                reply_cursor@,
                generation,
                next_poll_generation,
                current,
            ) is None,
            Err(e) => completion_fault(
                key@,
                reply_cursor@,
                generation,
                next_poll_generation,
                current,
            ) == Some(e@),
        },
{
    match validate_slack_thread_key(key) {
        Ok(()) => {},
        Err(e) => {
            return Err(e);
        },
    }
    match validate_non_blank("reply_cursor", reply_cursor) {
        Ok(()) => {},
        Err(e) => {
            return Err(e);
        },
    }
    if next_poll_generation <= generation {
        let next = decimal_text(next_poll_generation);
        let done = decimal_text(generation);
        return Err(
            PersistenceError::SchemaInvariant(
                text4(
                    "Slack thread next poll generation ",
                    next.as_str(),
                    " must be after completed generation ",
                    done.as_str(),
                ),
            ),
        );
    }
    if generation != current {
        let done = decimal_text(generation);
        let now = decimal_text(current);
        return Err(
            PersistenceError::SchemaInvariant(
                text4(
                    "Slack thread poll completed generation ",
                    done.as_str(),
                    ", current generation is ",
                    now.as_str(),
                ),
            ),
        );
    }
    Ok(())
}

/// The entry of a thread after a poll, or why there is none: the thread has to be in the catalog.
pub fn polled_entry(
    existing: Option<SlackThreadCatalogEntry>,
    key: &SlackThreadKey,
    reply_cursor: &str,
    active: bool,
    next_poll_generation: u64,
) -> (r: Result<SlackThreadCatalogEntry, PersistenceError>)
    ensures
        crate::text::result_view(r) == (match existing {
            Some(e) => Ok(
                EntryView { reply_cursor: reply_cursor@, active, next_poll_generation, ..e@ },
            ),
            None => Err(
                super::error::broken(
                    "Slack thread catalog entry not found for "@ + key.source_instance@ + ":"@
                        + key.channel_id@ + ":"@ + key.thread_ts@,
                ),
            ),
        }),
{
    match existing {
        Some(e) => Ok(
            SlackThreadCatalogEntry {
                key: e.key,
                reply_cursor: reply_cursor.to_owned(),
                active,
                next_poll_generation,
                discovered_append_seq: e.discovered_append_seq,
            },
        ),
        None => Err(
            PersistenceError::SchemaInvariant(
                text6(
                    "Slack thread catalog entry not found for ",
                    key.source_instance.as_str(),
                    ":",
                    key.channel_id.as_str(),
                    ":",
                    key.thread_ts.as_str(),
                ),
            ),
        ),
    }
}

/// A thread that found no reply is not polled again before the generation that it was put off to,
/// unless a new observation of it comes.
pub proof fn quiet_threads_wait(entry: SlackThreadCatalogEntry, generation: u64)
    requires
        !entry.active,
    ensures
        is_due(entry, generation) <==> generation >= entry.next_poll_generation,
{
}

proof fn due_ones_are_entries(entries: Seq<SlackThreadCatalogEntry>, generation: u64)
    ensures
        forall|i: int|
            0 <= i < due(entries, generation).len() ==> {
                let entry = #[trigger] due(entries, generation)[i];
                entries.contains(entry) && is_due(entry, generation)
            },
    decreases entries.len(),
{
    if entries.len() > 0 {
        let rest = entries.drop_last();
        due_ones_are_entries(rest, generation);
        assert(entries.contains(entries.last()));
        assert forall|i: int| 0 <= i < due(entries, generation).len() implies {
            let entry = #[trigger] due(entries, generation)[i];
            entries.contains(entry) && is_due(entry, generation)
        } by {
            if i < due(rest, generation).len() {
                let entry = due(rest, generation)[i];
                assert(rest.contains(entry) && is_due(entry, generation));
                let at = choose|at: int| 0 <= at < rest.len() && rest[at] == entry;
                assert(entries[at] == entry);
            }
        }
    }
}

/// A poll takes threads of the catalog that are due, in the order of their ranking, and no more
/// than it may.
pub proof fn polled_threads_are_due(
    list: Seq<SlackThreadCatalogEntry>,
    entries: Seq<SlackThreadCatalogEntry>,
    generation: u64,
    limit: usize,
)
    requires
        heads_the_queue(list, entries, generation, limit),
    ensures
        list.len() <= limit,
        crate::sorting::ranked(list),
        forall|i: int|
            0 <= i < list.len() ==> entries.contains(#[trigger] list[i]) && is_due(
                list[i],
                generation,
            ),
{
    let waiting = due(entries, generation);
    let queue = crate::sorting::in_rank(waiting);
    crate::sorting::sorting_rearranges(waiting);
    due_ones_are_entries(entries, generation);
    queue.to_multiset_ensures();
    waiting.to_multiset_ensures();
    assert forall|i: int| 0 <= i < list.len() implies entries.contains(#[trigger] list[i])
        && is_due(list[i], generation) by {
        assert(queue[i] == list[i]);
        assert(queue.contains(list[i]));
        assert(queue.to_multiset().contains(list[i]));
        assert(waiting.contains(list[i]));
        let at = choose|at: int| 0 <= at < waiting.len() && waiting[at] == list[i];
        assert(entries.contains(waiting[at]) && is_due(waiting[at], generation));
    }
}

} // verus!
