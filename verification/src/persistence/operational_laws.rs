//! What the log of operational events keeps to.

use vstd::prelude::*;
use vstd::string::*;

use super::error::StorageErrorView;
use super::identity::{DurableAppendOutcome, DurableView};
use super::operational::{
    Answer, OperationalAppendOutcome, OperationalAppendRequest, OperationalEventFilter, RunView,
    StageView, StoredEventRow,
};
use super::sql::SqlView;

verus! {

/// Requests are refused before anything is read just where one belongs to another data space or does
/// not follow the version that it expects; the first of these decides.
pub proof fn requests_follow_their_stream(
    requests: Seq<OperationalAppendRequest>,
    space: Seq<char>,
    i: int,
)
    ensures
        super::operational::first_fault(requests, space) is None <==> forall|j: int|
            0 <= j < requests.len() ==> (#[trigger] requests[j]).event.data_space_id@ == space
                && requests[j].event.stream_version == requests[j].expected_stream_version + 1,
        0 <= i < requests.len() && super::operational::request_fault(requests[i], space) is Some && (
        forall|j: int|
            0 <= j < i ==> super::operational::request_fault(#[trigger] requests[j], space) is None)
            ==> super::operational::first_fault(requests, space)
            == super::operational::request_fault(requests[i], space),
    decreases requests.len(),
{
    if requests.len() > 0 {
        let init = requests.drop_last();
        let last = requests.len() - 1;
        requests_follow_their_stream(init, space, i);
        assert(requests.last() == requests[last]);
        assert forall|j: int| 0 <= j < last implies init[j] == #[trigger] requests[j] by {}
        if super::operational::first_fault(init, space) is None {
            assert forall|j: int| 0 <= j < last implies super::operational::request_fault(
                #[trigger] requests[j],
                space,
            ) is None by {
                assert(init[j].event.data_space_id@ == space);
            }
        } else {
            let j = choose|j: int|
                0 <= j < init.len() && !((#[trigger] init[j]).event.data_space_id@ == space
                    && init[j].event.stream_version == init[j].expected_stream_version + 1);
            assert(requests[j] == init[j]);
        }
        if 0 <= i < last && (forall|j: int|
            0 <= j < i ==> super::operational::request_fault(
                #[trigger] requests[j],
                space,
            ) is None) {
            assert forall|j: int| 0 <= j < i implies super::operational::request_fault(
                #[trigger] init[j],
                space,
            ) is None by {
                assert(requests[j] == init[j]);
            }
        }
        if i == last && (forall|j: int|
            0 <= j < i ==> super::operational::request_fault(
                #[trigger] requests[j],
                space,
            ) is None) {
            assert forall|j: int| 0 <= j < init.len() implies (
            #[trigger] init[j]).event.data_space_id@ == space && init[j].event.stream_version
                == init[j].expected_stream_version + 1 by {
                assert(super::operational::request_fault(requests[j], space) is None);
            }
        }
    }
}

/// What a request comes to is what was found: an event under its key or its identity makes it a
/// duplicate of that event where the digests agree and refuses the batch otherwise; a stream at
/// another version is a conflict; and an event that was written is answered with its own position.
pub proof fn outcomes_tell_what_was_found(
    run: RunView,
    request: OperationalAppendRequest,
    digest: Seq<char>,
    row: StoredEventRow,
    cursor: u64,
    other: String,
    actual: u64,
)
    ensures
        ({
            let expected = request.expected_stream_version;
            let duplicate = |at: u64, version: u64|
                OperationalAppendOutcome::Duplicate { cursor: at, stream_version: version };
            &&& run.stage is FindByKey ==> {
                let r = super::operational::advanced(
                    run,
                    request,
                    digest,
                    Answer::ByKey(Some(row)),
                );
                &&& r is Ok <==> row.event_sha256@ == digest && row.event_id@
                    == request.event.event_id@
                &&& r matches Ok(next) ==> next.stage is Done && next.outcomes == run.outcomes.push(
                    duplicate(row.cursor, row.stream_version),
                ) && next.appended == run.appended && next.bridge_hits == run.bridge_hits
                &&& r is Err ==> r->Err_0 == StorageErrorView::OperationalIdempotencyCollision(
                    request.event.observation.idempotency_key@,
                )
            }
            &&& run.stage is FindById ==> {
                let r = super::operational::advanced(
                    run,
                    request,
                    digest,
                    Answer::ById(Some((cursor, other))),
                );
                &&& r is Ok <==> other@ == digest
                &&& r matches Ok(next) ==> next.stage is Done && next.outcomes == run.outcomes.push(
                    duplicate(cursor, request.event.stream_version),
                )
                &&& r is Err ==> r->Err_0 == StorageErrorView::OperationalEventIdCollision(
                    request.event.event_id@,
                )
            }
            &&& run.stage is ReadVersion && actual != expected ==> {
                let r = super::operational::advanced(run, request, digest, Answer::Version(actual));
                &&& run.bridged ==> r is Err
                &&& !run.bridged ==> (r matches Ok(next) && next.stage is Done && next.outcomes
                    == run.outcomes.push(
                    OperationalAppendOutcome::VersionConflict { expected, actual },
                ) && next.appended == run.appended)
            }
            &&& run.stage is WriteEvent ==> (super::operational::advanced(
                run,
                request,
                digest,
                Answer::Written(cursor),
            ) matches Ok(next) && next.stage is Done && next.outcomes == run.outcomes.push(
                OperationalAppendOutcome::Appended {
                    cursor,
                    stream_version: request.event.stream_version,
                },
            ))
        }),
{
}

/// What the append of an observation comes to: one that was added goes on and is noted, one that the
/// bridge answered leads to the event that it was recorded by and counts as a hit just where the
/// bridge gave it, and a collision refuses the batch.
pub proof fn appended_observations_are_noted(
    run: RunView,
    request: OperationalAppendRequest,
    digest: Seq<char>,
    outcome: DurableAppendOutcome,
    hit: bool,
    found: Option<(u64, u64)>,
)
    requires
        run.bridge_hits < u64::MAX,
    ensures
        run.stage is AppendBridged ==> match (
            outcome@,
            super::operational::advanced(
                run,
                request,
                digest,
                Answer::Bridged { outcome, bridge_hit: hit },
            ),
        ) {
            (DurableView::Appended(id), Ok(next)) => next.appended == run.appended.push(id)
                && next.stage is FindById && next.bridge_hits == run.bridge_hits && next.outcomes
                == run.outcomes,
            (DurableView::Duplicate(id), Ok(next)) => next.appended == run.appended && next.stage
                == StageView::FindByObservation(id) && next.bridge_hits == run.bridge_hits + (
            if hit {
                1int
            } else {
                0
            }) && next.outcomes == run.outcomes,
            (DurableView::CanonicalCollision(_), Err(_)) => true,
            _ => false,
        },
        run.stage is AppendObservation ==> match (
            outcome@,
            super::operational::advanced(run, request, digest, Answer::Observed(outcome)),
        ) {
            (DurableView::Appended(id), Ok(next)) => next.appended == run.appended.push(id)
                && next.stage is WriteEvent && next.outcomes == run.outcomes,
            (DurableView::Appended(_), Err(_)) => false,
            (_, Err(_)) => true,
            _ => false,
        },
        run.stage is FindByObservation ==> match (
            found,
            super::operational::advanced(run, request, digest, Answer::ByObservation(found)),
        ) {
            (Some((cursor, version)), Ok(next)) => next.stage is Done && next.outcomes
                == run.outcomes.push(
                OperationalAppendOutcome::Duplicate { cursor, stream_version: version },
            ),
            (None, Err(_)) => true,
            _ => false,
        },
{
}

/// A new event goes all the way: nothing is found under its key or its identity, the stream stands where
/// it is expected, the observation is appended, and then the event is written; it adds one outcome and
/// one observation.
pub proof fn new_events_go_all_the_way(
    run: RunView,
    request: OperationalAppendRequest,
    digest: Seq<char>,
    outcome: DurableAppendOutcome,
    cursor: u64,
)
    requires
        run.stage is FindByKey,
        !run.bridged,
        outcome@ is Appended,
    ensures
        ({
            let a = super::operational::advanced(run, request, digest, Answer::ByKey(None));
            let b = super::operational::advanced(a->Ok_0, request, digest, Answer::ById(None));
            let c = super::operational::advanced(
                b->Ok_0,
                request,
                digest,
                Answer::Version(request.expected_stream_version),
            );
            let d = super::operational::advanced(
                c->Ok_0,
                request,
                digest,
                Answer::Observed(outcome),
            );
            let e = super::operational::advanced(
                d->Ok_0,
                request,
                digest,
                Answer::Written(cursor),
            );
            &&& a is Ok && b is Ok && c is Ok && d is Ok && e is Ok
            &&& a->Ok_0.stage is FindById && b->Ok_0.stage is ReadVersion
            &&& c->Ok_0.stage is AppendObservation && d->Ok_0.stage is WriteEvent
            &&& e->Ok_0.stage is Done
            &&& e->Ok_0.outcomes == run.outcomes.push(
                OperationalAppendOutcome::Appended {
                    cursor,
                    stream_version: request.event.stream_version,
                },
            )
            &&& e->Ok_0.appended == run.appended.push(outcome@->Appended_0)
        }),
{
}

/// A new event of the second version appends its observation before it is looked for, and is then
/// written without appending it again.
pub proof fn bridged_events_append_once(
    run: RunView,
    request: OperationalAppendRequest,
    digest: Seq<char>,
    outcome: DurableAppendOutcome,
    cursor: u64,
)
    requires
        run.stage is FindByKey,
        run.bridged,
        outcome@ is Appended,
    ensures
        ({
            let a = super::operational::advanced(run, request, digest, Answer::ByKey(None));
            let b = super::operational::advanced(
                a->Ok_0,
                request,
                digest,
                Answer::Bridged { outcome, bridge_hit: false },
            );
            let c = super::operational::advanced(b->Ok_0, request, digest, Answer::ById(None));
            let d = super::operational::advanced(
                c->Ok_0,
                request,
                digest,
                Answer::Version(request.expected_stream_version),
            );
            let e = super::operational::advanced(
                d->Ok_0,
                request,
                digest,
                Answer::Written(cursor),
            );
            &&& a is Ok && b is Ok && c is Ok && d is Ok && e is Ok
            &&& a->Ok_0.stage is AppendBridged && b->Ok_0.stage is FindById
            &&& c->Ok_0.stage is ReadVersion && d->Ok_0.stage is WriteEvent
            &&& e->Ok_0.stage is Done
            &&& e->Ok_0.appended == run.appended.push(outcome@->Appended_0)
            &&& e->Ok_0.outcomes.len() == run.outcomes.len() + 1
        }),
{
}

/// Nothing, or one clause.
pub open spec fn clause_for(value: Option<Seq<char>>, clause: Seq<char>) -> Seq<char> {
    if value is Some {
        clause
    } else {
        Seq::empty()
    }
}

/// Nothing, or one value.
pub open spec fn value_for(value: Option<Seq<char>>) -> Seq<SqlView> {
    match value {
        Some(t) => seq![SqlView::Text(t)],
        None => Seq::empty(),
    }
}

proof fn clause_added(
    query: super::sql::QueryView,
    clause: Seq<char>,
    value: Option<Seq<char>>,
)
    ensures
        super::sql::with_clause(query, clause, value).sql == query.sql + clause_for(value, clause),
        super::sql::with_clause(query, clause, value).values == query.values + value_for(value),
{
    assert(query.sql + Seq::<char>::empty() =~= query.sql);
    assert(query.values + Seq::<SqlView>::empty() =~= query.values);
    if value is Some {
        assert(query.values.push(SqlView::Text(value->0)) =~= query.values + value_for(value));
    }
}

/// The statement for events asks for those of the data space behind the cursor, and beyond that for
/// each field of the filter that is given, with the value of that field, in the order of cursors and no
/// more than the limit.
pub proof fn filters_ask_for_their_fields(
    filter: OperationalEventFilter,
    space: Seq<char>,
    after: u64,
    limit: usize,
)
    ensures
        ({
            let query = super::operational::filter_query(filter, space, after, limit);
            let correlation = crate::text::opt_string(filter.correlation_id);
            let causation = crate::text::opt_string(filter.causation_id);
            let kind = crate::text::opt_string(filter.event_type);
            let stream = crate::text::opt_string(filter.stream_id);
            let actor = crate::text::opt_string(filter.actor_id);
            let from = match filter.occurred_at_from {
                Some(t) => Some(crate::time::rfc3339_short(t@.0, t@.1)),
                None => None,
            };
            let to = match filter.occurred_at_to {
                Some(t) => Some(crate::time::rfc3339_short(t@.0, t@.1)),
                None => None,
            };
            &&& query.sql
                == "SELECT cursor, event_json FROM operational_events WHERE data_space_id = ? AND cursor > ?"@
                + clause_for(correlation, " AND correlation_id = ?"@) + clause_for(
                causation,
                " AND causation_id = ?"@,
            ) + clause_for(kind, " AND event_type = ?"@) + clause_for(
                stream,
                " AND stream_id = ?"@,
            ) + clause_for(actor, " AND actor_id = ?"@) + clause_for(from, " AND occurred_at >= ?"@)
                + clause_for(to, " AND occurred_at <= ?"@) + " ORDER BY cursor LIMIT ?"@
            &&& query.values == seq![SqlView::Text(space), SqlView::Integer(after as i64)]
                + value_for(correlation) + value_for(causation) + value_for(kind) + value_for(
                stream,
            ) + value_for(actor) + value_for(from) + value_for(to) + seq![
                SqlView::Integer(limit as i64),
            ]
        }),
{
    let correlation = crate::text::opt_string(filter.correlation_id);
    let causation = crate::text::opt_string(filter.causation_id);
    let kind = crate::text::opt_string(filter.event_type);
    let stream = crate::text::opt_string(filter.stream_id);
    let actor = crate::text::opt_string(filter.actor_id);
    let from = super::operational::stored_instant(filter.occurred_at_from);
    let to = super::operational::stored_instant(filter.occurred_at_to);
    let q0 = super::sql::QueryView {
        sql: "SELECT cursor, event_json FROM operational_events WHERE data_space_id = ? AND cursor > ?"@,
        values: seq![SqlView::Text(space), SqlView::Integer(after as i64)],
    };
    let q1 = super::sql::with_clause(q0, " AND correlation_id = ?"@, correlation);
    let q2 = super::sql::with_clause(q1, " AND causation_id = ?"@, causation);
    let q3 = super::sql::with_clause(q2, " AND event_type = ?"@, kind);
    let q4 = super::sql::with_clause(q3, " AND stream_id = ?"@, stream);
    let q5 = super::sql::with_clause(q4, " AND actor_id = ?"@, actor);
    let q6 = super::sql::with_clause(q5, " AND occurred_at >= ?"@, from);
    let q7 = super::sql::with_clause(q6, " AND occurred_at <= ?"@, to);
    clause_added(q0, " AND correlation_id = ?"@, correlation);
    clause_added(q1, " AND causation_id = ?"@, causation);
    clause_added(q2, " AND event_type = ?"@, kind);
    clause_added(q3, " AND stream_id = ?"@, stream);
    clause_added(q4, " AND actor_id = ?"@, actor);
    clause_added(q5, " AND occurred_at >= ?"@, from);
    clause_added(q6, " AND occurred_at <= ?"@, to);
    assert(q7.values.push(SqlView::Integer(limit as i64)) =~= q7.values + seq![
        SqlView::Integer(limit as i64),
    ]);
}

/// A filter is refused just where it asks for no event or for more than can be counted, for a time that
/// ends before it starts, or for a blank name.
pub proof fn filters_are_refused_for_a_reason(
    filter: OperationalEventFilter,
    after: u64,
    limit: usize,
)
    ensures
        super::operational::filter_fault(filter, after, limit) is None <==> {
            &&& 0 < limit <= i64::MAX
            &&& after <= i64::MAX
            &&& filter.occurred_at_from is Some && filter.occurred_at_to is Some
                ==> !crate::time::earlier(filter.occurred_at_to->0@, filter.occurred_at_from->0@)
            &&& filter.correlation_id is Some ==> !crate::text::blank(filter.correlation_id->0@)
            &&& filter.event_type is Some ==> !crate::text::blank(filter.event_type->0@)
            &&& filter.stream_id is Some ==> !crate::text::blank(filter.stream_id->0@)
            &&& filter.actor_id is Some ==> !crate::text::blank(filter.actor_id->0@)
        },
{
}

/// A batch that is refused on the way is told why: a collision of its observation, an observation
/// without its event, a winner without one, a stream of the second version that stands elsewhere, or
/// hits that cannot be counted any more.
pub proof fn refused_batches_are_told(
    run: RunView,
    request: OperationalAppendRequest,
    digest: Seq<char>,
    outcome: DurableAppendOutcome,
    hit: bool,
    actual: u64,
    id: Seq<char>,
)
    ensures
        run.stage is AppendBridged && outcome@ == DurableView::CanonicalCollision(id)
            ==> super::operational::advanced(
            run,
            request,
            digest,
            Answer::Bridged { outcome, bridge_hit: hit },
        ) == Err::<RunView, StorageErrorView>(
            StorageErrorView::Invariant("history v2 canonical collision with observation "@ + id),
        ),
        run.stage is AppendBridged && outcome@ == DurableView::Duplicate(id) && hit
            && run.bridge_hits == u64::MAX ==> super::operational::advanced(
            run,
            request,
            digest,
            Answer::Bridged { outcome, bridge_hit: hit },
        ) == Err::<RunView, StorageErrorView>(
            StorageErrorView::Invariant("bridge hit count overflow"@),
        ),
        run.stage == StageView::FindByObservation(id) ==> super::operational::advanced(
            run,
            request,
            digest,
            Answer::ByObservation(None),
        ) == Err::<RunView, StorageErrorView>(
            StorageErrorView::Invariant(
                "bridge winner observation "@ + id + " has no operational event"@,
            ),
        ),
        run.stage is AppendObservation && outcome@ == DurableView::Duplicate(id)
            ==> super::operational::advanced(run, request, digest, Answer::Observed(outcome))
            == Err::<RunView, StorageErrorView>(
            StorageErrorView::Invariant(
                "observation "@ + id + " exists without its operational event"@,
            ),
        ),
        run.stage is AppendObservation && outcome@ == DurableView::CanonicalCollision(id)
            ==> super::operational::advanced(run, request, digest, Answer::Observed(outcome))
            == Err::<RunView, StorageErrorView>(
            StorageErrorView::Invariant("operational observation identity collision with "@ + id),
        ),
        run.stage is ReadVersion && run.bridged && actual != request.expected_stream_version
            ==> super::operational::advanced(run, request, digest, Answer::Version(actual))
            == Err::<RunView, StorageErrorView>(
            StorageErrorView::Invariant(
                "v2 history event stream "@ + request.event.stream_id@ + " conflicts: expected "@
                    + crate::text::decimal(request.expected_stream_version as nat) + ", actual "@
                    + crate::text::decimal(actual as nat),
            ),
        ),
{
}

} // verus!
