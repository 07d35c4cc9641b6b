//! The log of operational events: what is written, what repeats an event that is there, and what
//! conflicts with one.

use vstd::prelude::*;
use vstd::string::*;

use crate::domain::{Observation, ObservationId};
use crate::text::{decimal_text, is_blank, str_eq, text2, text3, text4, text6};
use crate::time::Timestamp;

use super::error::{violation, PersistenceError, StorageError, StorageErrorView};
use super::identity::{DurableAppendOutcome, DurableView};
use super::sql::{Query, QueryView, SqlValue, SqlView};

verus! {

/// An event of a stream, with the observation that it is recorded by.
#[derive(Debug)]
pub struct OperationalEvent {
    pub event_id: String,
    pub data_space_id: String,
    pub stream_id: String,
    pub stream_version: u64,
    pub event_type: String,
    pub actor_id: Option<String>,
    pub causation_id: Option<String>,
    pub correlation_id: Option<String>,
    pub occurred_at: Timestamp,
    pub observation: Observation,
}

/// A request to append an event to a stream that is expected to stand at a version.
#[derive(Debug)]
pub struct OperationalAppendRequest {
    pub event: OperationalEvent,
    pub expected_stream_version: u64,
}

/// What became of a request.
#[derive(Debug, Clone, Copy, PartialEq, Eq, Structural)]
pub enum OperationalAppendOutcome {
    Appended { cursor: u64, stream_version: u64 },
    Duplicate { cursor: u64, stream_version: u64 },
    VersionConflict { expected: u64, actual: u64 },
}

/// What is wrong with a request before anything is read: it belongs to another data space, or its
/// version does not follow the expected one.
pub open spec fn request_fault(
    request: OperationalAppendRequest,
    data_space_id: Seq<char>,
) -> Option<StorageErrorView> {
    if request.event.data_space_id@ != data_space_id {
        Some(
            StorageErrorView::Invariant(
                "event data space "@ + request.event.data_space_id@
                    + " does not match sqlite Lake "@ + data_space_id,
            ),
        )
    } else if request.event.stream_version != request.expected_stream_version + 1 {
        Some(
            StorageErrorView::Invariant(
                "event "@ + request.event.event_id@ + " stream_version "@ + crate::text::decimal(
                    request.event.stream_version as nat,
                ) + " does not follow expected "@ + crate::text::decimal(
                    request.expected_stream_version as nat,
                ),
            ),
        )
    } else {
        None
    }
}

/// What is wrong with the first faulty request.
pub open spec fn first_fault(
    requests: Seq<OperationalAppendRequest>,
    data_space_id: Seq<char>,
) -> Option<StorageErrorView>
    decreases requests.len(),
{
    if requests.len() == 0 {
        None
    } else {
        match first_fault(requests.drop_last(), data_space_id) {
            Some(e) => Some(e),
            None => request_fault(requests.last(), data_space_id),
        }
    }
}

proof fn fault_stays(requests: Seq<OperationalAppendRequest>, data_space_id: Seq<char>, n: int)
    requires
        0 <= n <= requests.len(),
        first_fault(requests.take(n), data_space_id) is Some,
    ensures
        first_fault(requests, data_space_id) == first_fault(requests.take(n), data_space_id),
    decreases requests.len() - n,
{
    if n == requests.len() {
        assert(requests.take(n) =~= requests);
    } else {
        assert(requests.take(n + 1).drop_last() =~= requests.take(n));
        fault_stays(requests, data_space_id, n + 1);
    }
}

fn check_request(request: &OperationalAppendRequest, data_space_id: &str) -> (r: Result<
    (),
    StorageError,
>)
    requires
        request.expected_stream_version < u64::MAX,
    ensures
        match r {
            Ok(()) => request_fault(*request, data_space_id@) is None,
            Err(e) => request_fault(*request, data_space_id@) == Some(e@),
        },
{
    if !str_eq(request.event.data_space_id.as_str(), data_space_id) {
        return Err(
            StorageError::Invariant(
                text4(
                    "event data space ",
                    request.event.data_space_id.as_str(),
                    " does not match sqlite Lake ",
                    data_space_id,
                ),
            ),
        );
    }
    if request.event.stream_version != request.expected_stream_version + 1 {
        let version = decimal_text(request.event.stream_version);
        let expected = decimal_text(request.expected_stream_version);
        return Err(
            StorageError::Invariant(
                text6(
                    "event ",
                    request.event.event_id.as_str(),
                    " stream_version ",
                    version.as_str(),
                    " does not follow expected ",
                    expected.as_str(),
                ),
            ),
        );
    }
    Ok(())
}

/// Checks requests before anything is read; the first faulty one decides.
pub fn check_requests(requests: &[OperationalAppendRequest], data_space_id: &str) -> (r: Result<
    (),
    StorageError,
>)
    requires
        forall|i: int|
            0 <= i < requests@.len() ==> (#[trigger] requests@[i]).expected_stream_version
                < u64::MAX,
    ensures
        match r {
            Ok(()) => first_fault(requests@, data_space_id@) is None,
            Err(e) => first_fault(requests@, data_space_id@) == Some(e@),
        },
{
    let mut i: usize = 0;
    while i < requests.len()
        invariant
            i <= requests@.len(),
            forall|j: int|
                0 <= j < requests@.len() ==> (#[trigger] requests@[j]).expected_stream_version
                    < u64::MAX,
            first_fault(requests@.take(i as int), data_space_id@) is None,
        decreases requests@.len() - i,
    {
        assert(requests@.take(i + 1).drop_last() =~= requests@.take(i as int));
        match check_request(&requests[i], data_space_id) {
            Ok(()) => {},
            Err(e) => {
                proof {
                    fault_stays(requests@, data_space_id@, i + 1);
                }
                return Err(e);
            },
        }
        i = i + 1;
    }
    assert(requests@.take(i as int) =~= requests@);
    Ok(())
}

/// What has to be read or written next for a request.
#[derive(Debug, PartialEq, Eq)]
pub enum Stage {
    /// Read the event with the idempotency key of the request.
    FindByKey,
    /// Append the observation, the bridge first.
    AppendBridged,
    /// Read the event of the observation that the bridge answered with.
    FindByObservation(ObservationId),
    /// Read the event with the identity of the request.
    FindById,
    /// Read the version that the stream stands at.
    ReadVersion,
    /// Append the observation.
    AppendObservation,
    /// Write the event.
    WriteEvent,
    /// The request is answered.
    Done,
}

/// What comes next.
pub enum StageView {
    FindByKey,
    AppendBridged,
    FindByObservation(Seq<char>),
    FindById,
    ReadVersion,
    AppendObservation,
    WriteEvent,
    Done,
}

impl View for Stage {
    type V = StageView;

    open spec fn view(&self) -> StageView {
        match *self {
            Stage::FindByKey => StageView::FindByKey,
            Stage::AppendBridged => StageView::AppendBridged,
            Stage::FindByObservation(id) => StageView::FindByObservation(id@),
            Stage::FindById => StageView::FindById,
            Stage::ReadVersion => StageView::ReadVersion,
            Stage::AppendObservation => StageView::AppendObservation,
            Stage::WriteEvent => StageView::WriteEvent,
            Stage::Done => StageView::Done,
        }
    }
}

/// An event that is stored under an idempotency key.
#[derive(Debug)]
pub struct StoredEventRow {
    pub cursor: u64,
    pub stream_version: u64,
    pub event_sha256: String,
    pub event_id: String,
}

/// What was read or written.
#[derive(Debug)]
pub enum Answer {
    ByKey(Option<StoredEventRow>),
    /// The outcome of an append, and whether the bridge gave it.
    Bridged { outcome: DurableAppendOutcome, bridge_hit: bool },
    /// The cursor and the stream version of the event of an observation.
    ByObservation(Option<(u64, u64)>),
    /// The cursor and the digest of the event with an identity.
    ById(Option<(u64, String)>),
    Version(u64),
    Observed(DurableAppendOutcome),
    Written(u64),
}

/// Whether an answer is one to what was to be done.
pub open spec fn answers(stage: StageView, answer: Answer) -> bool {
    match stage {
        StageView::FindByKey => answer is ByKey,
        StageView::AppendBridged => answer is Bridged,
        StageView::FindByObservation(_) => answer is ByObservation,
        StageView::FindById => answer is ById,
        StageView::ReadVersion => answer is Version,
        StageView::AppendObservation => answer is Observed,
        StageView::WriteEvent => answer is Written,
        StageView::Done => false,
    }
}

/// A batch of requests on its way: what comes next for the current one, and what the ones before it
/// came to.
#[derive(Debug)]
pub struct AppendRun {
    /// Whether the batch came through the second version of the interface.
    pub bridged: bool,
    pub stage: Stage,
    pub bridge_hits: u64,
    pub appended: Vec<ObservationId>,
    pub outcomes: Vec<OperationalAppendOutcome>,
}

/// Where a batch stands.
pub struct RunView {
    pub bridged: bool,
    pub stage: StageView,
    pub bridge_hits: u64,
    pub appended: Seq<Seq<char>>,
    pub outcomes: Seq<OperationalAppendOutcome>,
}

/// Observations by their identity.
pub open spec fn id_views(ids: Seq<ObservationId>) -> Seq<Seq<char>> {
    ids.map_values(|id: ObservationId| id@)
}

impl View for AppendRun {
    type V = RunView;

    open spec fn view(&self) -> RunView {
        RunView {
            bridged: self.bridged,
            stage: self.stage@,
            bridge_hits: self.bridge_hits,
            appended: id_views(self.appended@),
            outcomes: self.outcomes@,
        }
    }
}

/// A batch whose current request is answered.
pub open spec fn settled(run: RunView, outcome: OperationalAppendOutcome) -> RunView {
    RunView { stage: StageView::Done, outcomes: run.outcomes.push(outcome), ..run }
}

/// A batch whose current request goes on.
pub open spec fn at_stage(run: RunView, stage: StageView) -> RunView {
    RunView { stage, ..run }
}

/// Where a batch stands after an answer, or why the whole batch is refused.
pub open spec fn advanced(
    run: RunView,
    request: OperationalAppendRequest,
    event_sha256: Seq<char>,
    answer: Answer,
) -> Result<RunView, StorageErrorView> {
    let event = request.event;
    match (run.stage, answer) {
        (StageView::FindByKey, Answer::ByKey(found)) => match found {
            Some(row) => if row.event_sha256@ != event_sha256 || row.event_id@ != event.event_id@ {
                Err(
                    StorageErrorView::OperationalIdempotencyCollision(
                        event.observation.idempotency_key@,
                    ),
                )
            } else {
                Ok(
                    settled(
                        run,
                        OperationalAppendOutcome::Duplicate {
                            cursor: row.cursor,
                            stream_version: row.stream_version,
                        },
                    ),
                )
            },
            None => Ok(
                at_stage(
                    run,
                    if run.bridged {
                        StageView::AppendBridged
                    } else {
                        StageView::FindById
                    },
                ),
            ),
        },
        (StageView::AppendBridged, Answer::Bridged { outcome, bridge_hit }) => match outcome@ {
            DurableView::Duplicate(id) => if bridge_hit && run.bridge_hits == u64::MAX {
                Err(StorageErrorView::Invariant("bridge hit count overflow"@))
            } else {
                Ok(
                    RunView {
                        stage: StageView::FindByObservation(id),
                        bridge_hits: if bridge_hit {
                            (run.bridge_hits + 1) as u64
                        } else {
                            run.bridge_hits
                        },
                        ..run
                    },
                )
            },
            DurableView::CanonicalCollision(id) => Err(
                StorageErrorView::Invariant(
                    "history v2 canonical collision with observation "@ + id,
                ),
            ),
            DurableView::Appended(id) => Ok(
                RunView { stage: StageView::FindById, appended: run.appended.push(id), ..run },
            ),
        },
        (StageView::FindByObservation(id), Answer::ByObservation(found)) => match found {
            Some((cursor, stream_version)) => Ok(
                settled(run, OperationalAppendOutcome::Duplicate { cursor, stream_version }),
            ),
            None => Err(
                StorageErrorView::Invariant(
                    "bridge winner observation "@ + id + " has no operational event"@,
                ),
            ),
        },
        (StageView::FindById, Answer::ById(found)) => match found {
            Some((cursor, sha)) => if sha@ != event_sha256 {
                Err(StorageErrorView::OperationalEventIdCollision(event.event_id@))
            } else {
                Ok(
                    settled(
                        run,
                        OperationalAppendOutcome::Duplicate {
                            cursor,
                            stream_version: event.stream_version,
                        },
                    ),
                )
            },
            None => Ok(at_stage(run, StageView::ReadVersion)),
        },
        (StageView::ReadVersion, Answer::Version(actual)) => if actual
            == request.expected_stream_version {
            Ok(
                at_stage(
                    run,
                    if run.bridged {
                        StageView::WriteEvent
                    } else {
                        StageView::AppendObservation
                    },
                ),
            )
        } else if run.bridged {
            Err(
                StorageErrorView::Invariant(
                    "v2 history event stream "@ + event.stream_id@ + " conflicts: expected "@
                        + crate::text::decimal(request.expected_stream_version as nat)
                        + ", actual "@ + crate::text::decimal(actual as nat),
                ),
            )
        } else {
            Ok(
                settled(
                    run,
                    OperationalAppendOutcome::VersionConflict {
                        expected: request.expected_stream_version,
                        actual,
                    },
                ),
            )
        },
        (StageView::AppendObservation, Answer::Observed(outcome)) => match outcome@ {
            DurableView::Appended(id) => Ok(
                RunView { stage: StageView::WriteEvent, appended: run.appended.push(id), ..run },
            ),
            DurableView::Duplicate(id) => Err(
                StorageErrorView::Invariant(
                    "observation "@ + id + " exists without its operational event"@,
                ),
            ),
            DurableView::CanonicalCollision(id) => Err(
                StorageErrorView::Invariant(
                    "operational observation identity collision with "@ + id,
                ),
            ),
        },
        (StageView::WriteEvent, Answer::Written(cursor)) => Ok(
            settled(
                run,
                OperationalAppendOutcome::Appended {
                    cursor,
                    stream_version: event.stream_version,
                },
            ),
        ),
        _ => Ok(run),
    }
}

/// A batch before its first request.
pub fn start_append(bridged: bool) -> (r: AppendRun)
    ensures
        r@ == (RunView {
            bridged,
            stage: StageView::Done,
            bridge_hits: 0,
            appended: Seq::empty(),
            outcomes: Seq::empty(),
        }),
{
    let r = AppendRun {
        bridged,
        stage: Stage::Done,
        bridge_hits: 0,
        appended: Vec::new(),
        outcomes: Vec::new(),
    };
    assert(id_views(r.appended@) =~= Seq::empty());
    r
}

impl AppendRun {
    /// Turns to the next request.
    pub fn next_request(&mut self)
        ensures
            final(self)@ == at_stage(old(self)@, StageView::FindByKey),
    {
        self.stage = Stage::FindByKey;
    }

    fn settle(&mut self, outcome: OperationalAppendOutcome)
        ensures
            final(self)@ == settled(old(self)@, outcome),
    {
        self.outcomes.push(outcome);
        self.stage = Stage::Done;
    }

    fn note_appended(&mut self, id: ObservationId)
        ensures
            final(self)@ == (RunView { appended: old(self)@.appended.push(id@), ..old(self)@ }),
    {
        let ghost before = self.appended@;
        self.appended.push(id);
        assert(id_views(self.appended@) =~= id_views(before).push(id@));
    }

    /// Takes an answer for the current request and turns to what comes next; an error refuses the
    /// whole batch.
    pub fn advance(
        &mut self,
        request: &OperationalAppendRequest,
        event_sha256: &str,
        answer: Answer,
    ) -> (r: Result<(), StorageError>)
        requires
            answers(old(self)@.stage, answer),
        ensures
            match r {
                Ok(()) => advanced(old(self)@, *request, event_sha256@, answer) == Ok::<
                    RunView,
                    StorageErrorView,
                >(final(self)@),
                Err(e) => advanced(old(self)@, *request, event_sha256@, answer) == Err::<
                    RunView,
                    StorageErrorView,
                >(e@),
            },
    {
        match answer {
            Answer::ByKey(found) => match found {
                Some(row) => {
                    if !str_eq(row.event_sha256.as_str(), event_sha256) || !str_eq(
                        row.event_id.as_str(),
                        request.event.event_id.as_str(),
                    ) {
                        return Err(
                            StorageError::OperationalIdempotencyCollision(
                                request.event.observation.idempotency_key.as_str().to_owned(),
                            ),
                        );
                    }
                    self.settle(
                        OperationalAppendOutcome::Duplicate {
                            cursor: row.cursor,
                            stream_version: row.stream_version,
                        },
                    );
                },
                None => {
                    self.stage = if self.bridged {
                        Stage::AppendBridged
                    } else {
                        Stage::FindById
                    };
                },
            },
            Answer::Bridged { outcome, bridge_hit } => match outcome {
                DurableAppendOutcome::Duplicate(id) => {
                    if bridge_hit {
                        if self.bridge_hits == u64::MAX {
                            return Err(
                                StorageError::Invariant("bridge hit count overflow".to_owned()),
                            );
                        }
                        self.bridge_hits = self.bridge_hits + 1;
                    }
                    self.stage = Stage::FindByObservation(id);
                },
                DurableAppendOutcome::CanonicalCollision(id) => {
                    return Err(
                        StorageError::Invariant(
                            text2(
                                "history v2 canonical collision with observation ",
                                id.as_str(),
                            ),
                        ),
                    );
                },
                DurableAppendOutcome::Appended(id) => {
                    self.note_appended(id);
                    self.stage = Stage::FindById;
                },
            },
            Answer::ByObservation(found) => match found {
                Some((cursor, stream_version)) => {
                    self.settle(OperationalAppendOutcome::Duplicate { cursor, stream_version });
                },
                None => {
                    let id = match &self.stage {
                        Stage::FindByObservation(id) => id.as_str(),
                        _ => "",
                    };
                    return Err(
                        StorageError::Invariant(
                            text3(
                                "bridge winner observation ",
                                id,
                                " has no operational event",
                            ),
                        ),
                    );
                },
            },
            Answer::ById(found) => match found {
                Some((cursor, sha)) => {
                    if !str_eq(sha.as_str(), event_sha256) {
                        return Err(
                            StorageError::OperationalEventIdCollision(
                                request.event.event_id.clone(),
                            ),
                        );
                    }
                    self.settle(
                        OperationalAppendOutcome::Duplicate {
                            cursor,
                            stream_version: request.event.stream_version,
                        },
                    );
                },
                None => {
                    self.stage = Stage::ReadVersion;
                },
            },
            Answer::Version(actual) => {
                if actual == request.expected_stream_version {
                    self.stage = if self.bridged {
                        Stage::WriteEvent
                    } else {
                        Stage::AppendObservation
                    };
                } else if self.bridged {
                    let expected = decimal_text(request.expected_stream_version);
                    let found = decimal_text(actual);
                    return Err(
                        StorageError::Invariant(
                            text6(
                                "v2 history event stream ",
                                request.event.stream_id.as_str(),
                                " conflicts: expected ",
                                expected.as_str(),
                                ", actual ",
                                found.as_str(),
                            ),
                        ),
                    );
                } else {
                    self.settle(
                        OperationalAppendOutcome::VersionConflict {
                            expected: request.expected_stream_version,
                            actual,
                        },
                    );
                }
            },
            Answer::Observed(outcome) => match outcome {
                DurableAppendOutcome::Appended(id) => {
                    self.note_appended(id);
                    self.stage = Stage::WriteEvent;
                },
                DurableAppendOutcome::Duplicate(id) => {
                    return Err(
                        StorageError::Invariant(
                            text3(
                                "observation ",
                                id.as_str(),
                                " exists without its operational event",
                            ),
                        ),
                    );
                },
                DurableAppendOutcome::CanonicalCollision(id) => {
                    return Err(
                        StorageError::Invariant(
                            text2(
                                "operational observation identity collision with ",
                                id.as_str(),
                            ),
                        ),
                    );
                },
            },
            Answer::Written(cursor) => {
                self.settle(
                    OperationalAppendOutcome::Appended {
                        cursor,
                        stream_version: request.event.stream_version,
                    },
                );
            },
        }
        Ok(())
    }
}

/// How far a request is from being answered.
pub open spec fn remaining(stage: StageView) -> nat {
    match stage {
        StageView::FindByKey => 6,
        StageView::AppendBridged => 5,
        StageView::FindByObservation(_) => 4,
        StageView::FindById => 4,
        StageView::ReadVersion => 3,
        StageView::AppendObservation => 2,
        StageView::WriteEvent => 1,
        StageView::Done => 0,
    }
}

/// Each answer brings a request nearer to its end, and a request that ends adds exactly one outcome:
/// so every request is answered after at most six answers, with one outcome.
pub proof fn requests_come_to_an_end(
    run: RunView,
    request: OperationalAppendRequest,
    event_sha256: Seq<char>,
    answer: Answer,
)
    requires
        answers(run.stage, answer),
    ensures
        advanced(run, request, event_sha256, answer) matches Ok(next) ==> {
            &&& remaining(next.stage) < remaining(run.stage)
            &&& next.outcomes.len() == run.outcomes.len() + if next.stage is Done {
                1nat
            } else {
                0
            }
        },
{
}

/// An event is written only after the stream was found at the expected version and no event with
/// the same key or identity was there; nothing else leads to writing it.
pub proof fn events_are_written_at_the_expected_version(
    run: RunView,
    request: OperationalAppendRequest,
    event_sha256: Seq<char>,
    answer: Answer,
)
    requires
        answers(run.stage, answer),
        advanced(run, request, event_sha256, answer) matches Ok(next) && (next.stage
            is WriteEvent || next.stage is AppendObservation),
    ensures
        run.stage is AppendObservation || (run.stage is ReadVersion && answer
            == Answer::Version(request.expected_stream_version)),
{
}

/// The same event sent again is answered as a duplicate of the one that was written, and another
/// event under its key refuses the batch.
pub proof fn repeated_events_are_duplicates(
    run: RunView,
    request: OperationalAppendRequest,
    event_sha256: Seq<char>,
    stored: StoredEventRow,
)
    requires
        run.stage is FindByKey,
    ensures
        stored.event_sha256@ == event_sha256 && stored.event_id@ == request.event.event_id@
            ==> advanced(run, request, event_sha256, Answer::ByKey(Some(stored))) == Ok::<
            RunView,
            StorageErrorView,
        >(
            settled(
                run,
                OperationalAppendOutcome::Duplicate {
                    cursor: stored.cursor,
                    stream_version: stored.stream_version,
                },
            ),
        ),
        stored.event_sha256@ != event_sha256 ==> advanced(
            run,
            request,
            event_sha256,
            Answer::ByKey(Some(stored)),
        ) matches Err(StorageErrorView::OperationalIdempotencyCollision(_)),
{
}

/// Checks what admits a batch to the second version of the interface.
pub fn check_v2_admission(source_instance_id: &str, generation: Option<u64>) -> (r: Result<
    (),
    StorageError,
>)
    ensures
        (match r {
            Ok(()) => Ok(()),
            Err(e) => Err(e@),
        }) == (if crate::text::blank(source_instance_id@) {
            Err(StorageErrorView::Invariant("v2 source_instance_id must not be blank"@))
        } else if generation == Some(0u64) {
            Err(StorageErrorView::Invariant("v2 admission generation must be positive"@))
        } else {
            Ok(())
        }),
{
    if is_blank(source_instance_id) {
        return Err(StorageError::Invariant("v2 source_instance_id must not be blank".to_owned()));
    }
    match generation {
        Some(g) => {
            if g == 0 {
                return Err(
                    StorageError::Invariant("v2 admission generation must be positive".to_owned()),
                );
            }
        },
        None => {},
    }
    Ok(())
}

/// Whether a lake has to be pinned to a data space: it is not pinned yet. One that is pinned to
/// another is refused.
pub fn pin_data_space(data_space_id: &str, pinned: Option<&str>) -> (r: Result<bool, PersistenceError>)
    ensures
        (match r {
            Ok(b) => Ok(b),
            Err(e) => Err(e@),
        }) == (if crate::text::blank(data_space_id@) {
            Err(super::error::broken("data_space_id must not be blank"@))
        } else {
            match crate::json::opt_str(pinned) {
                Some(existing) => if existing != data_space_id@ {
                    Err(
                        super::error::broken(
                            "sqlite Lake is pinned to data space "@ + existing + ", not "@
                                + data_space_id@,
                        ),
                    )
                } else {
                    Ok(false)
                },
                None => Ok(true),
            }
        }),
{
    if is_blank(data_space_id) {
        return Err(violation("data_space_id must not be blank"));
    }
    match pinned {
        Some(existing) => {
            if !str_eq(existing, data_space_id) {
                return Err(
                    PersistenceError::SchemaInvariant(
                        text4(
                            "sqlite Lake is pinned to data space ",
                            existing,
                            ", not ",
                            data_space_id,
                        ),
                    ),
                );
            }
            Ok(false)
        },
        None => Ok(true),
    }
}

/// Which events are asked for.
#[derive(Debug)]
pub struct OperationalEventFilter {
    pub correlation_id: Option<String>,
    pub causation_id: Option<String>,
    pub event_type: Option<String>,
    pub stream_id: Option<String>,
    pub actor_id: Option<String>,
    pub occurred_at_from: Option<Timestamp>,
    pub occurred_at_to: Option<Timestamp>,
}

/// What is wrong with a text that is asked for.
pub open spec fn blank_filter(field: Seq<char>, value: Option<String>) -> Option<StorageErrorView> {
    match value {
        Some(t) => if crate::text::blank(t@) {
            Some(
                StorageErrorView::Invariant(
                    "operational event "@ + field + " filter must not be blank"@,
                ),
            )
        } else {
            None
        },
        None => None,
    }
}

fn check_filter(field: &str, value: &Option<String>) -> (r: Result<(), StorageError>)
    ensures
        match r {
            Ok(()) => blank_filter(field@, *value) is None,
            Err(e) => blank_filter(field@, *value) == Some(e@),
        },
{
    match value {
        Some(t) => {
            if is_blank(t.as_str()) {
                return Err(
                    StorageError::Invariant(
                        text3("operational event ", field, " filter must not be blank"),
                    ),
                );
            }
            Ok(())
        },
        None => Ok(()),
    }
}

/// What is wrong with a filter.
pub open spec fn filter_fault(
    filter: OperationalEventFilter,
    after_cursor: u64,
    limit: usize,
) -> Option<StorageErrorView> {
    if limit == 0 {
        Some(StorageErrorView::Invariant("operational event page limit must be positive"@))
    } else if filter.occurred_at_from is Some && filter.occurred_at_to is Some
        && crate::time::earlier(filter.occurred_at_to->0@, filter.occurred_at_from->0@) {
        Some(StorageErrorView::Invariant("operational event occurred_at range is inverted"@))
    } else if after_cursor > i64::MAX {
        Some(StorageErrorView::Invariant("after_cursor does not fit SQLite INTEGER"@))
    } else {
        match (
            blank_filter("correlation_id"@, filter.correlation_id),
            blank_filter("event_type"@, filter.event_type),
            blank_filter("stream_id"@, filter.stream_id),
            blank_filter("actor_id"@, filter.actor_id),
        ) {
            (Some(e), _, _, _) => Some(e),
            (_, Some(e), _, _) => Some(e),
            (_, _, Some(e), _) => Some(e),
            (_, _, _, Some(e)) => Some(e),
            _ => if limit > i64::MAX {
                Some(StorageErrorView::Invariant("limit does not fit SQLite INTEGER"@))
            } else {
                None
            },
        }
    }
}

/// An optional instant as it is stored.
pub open spec fn stored_instant(at: Option<Timestamp>) -> Option<Seq<char>> {
    match at {
        Some(t) => Some(crate::time::rfc3339_short(t@.0, t@.1)),
        None => None,
    }
}

/// The statement that reads the events of a data space after a cursor that a filter asks for, in
/// the order of their cursors.
pub open spec fn filter_query(
    filter: OperationalEventFilter,
    data_space_id: Seq<char>,
    after_cursor: u64,
    limit: usize,
) -> QueryView {
    let q0 = QueryView {
        sql: "SELECT cursor, event_json FROM operational_events WHERE data_space_id = ? AND cursor > ?"@,
        values: seq![SqlView::Text(data_space_id), SqlView::Integer(after_cursor as i64)],
    };
    let q1 = super::sql::with_clause(
        q0,
        " AND correlation_id = ?"@,
        crate::text::opt_string(filter.correlation_id),
    );
    let q2 = super::sql::with_clause(
        q1,
        " AND causation_id = ?"@,
        crate::text::opt_string(filter.causation_id),
    );
    let q3 = super::sql::with_clause(
        q2,
        " AND event_type = ?"@,
        crate::text::opt_string(filter.event_type),
    );
    let q4 = super::sql::with_clause(
        q3,
        " AND stream_id = ?"@,
        crate::text::opt_string(filter.stream_id),
    );
    let q5 = super::sql::with_clause(
        q4,
        " AND actor_id = ?"@,
        crate::text::opt_string(filter.actor_id),
    );
    let q6 = super::sql::with_clause(
        q5,
        " AND occurred_at >= ?"@,
        stored_instant(filter.occurred_at_from),
    );
    let q7 = super::sql::with_clause(
        q6,
        " AND occurred_at <= ?"@,
        stored_instant(filter.occurred_at_to),
    );
    super::sql::extended(q7, " ORDER BY cursor LIMIT ?"@, SqlView::Integer(limit as i64))
}

fn opt<'a>(value: &'a Option<String>) -> (r: Option<&'a str>)
    ensures
        crate::json::opt_str(r) == crate::text::opt_string(*value),
{
    match value {
        Some(t) => Some(t.as_str()),
        None => None,
    }
}

fn add_instant(query: &mut Query, clause: &str, at: &Option<Timestamp>)
    ensures
        final(query)@ == super::sql::with_clause(old(query)@, clause@, stored_instant(*at)),
{
    match at {
        Some(t) => {
            query.extend(clause, SqlValue::Text(t.rfc3339()));
        },
        None => {},
    }
}

/// The statement that reads the events that a filter asks for.
pub fn operational_events_by_filter(
    filter: &OperationalEventFilter,
    data_space_id: &str,
    after_cursor: u64,
    limit: usize,
) -> (r: Result<Query, StorageError>)
    ensures
        match r {
            Ok(query) => filter_fault(*filter, after_cursor, limit) is None && query@
                == filter_query(*filter, data_space_id@, after_cursor, limit),
            Err(e) => filter_fault(*filter, after_cursor, limit) == Some(e@),
        },
{
    if limit == 0 {
        return Err(
            StorageError::Invariant("operational event page limit must be positive".to_owned()),
        );
    }
    match (&filter.occurred_at_from, &filter.occurred_at_to) {
        (Some(from), Some(to)) => {
            if to.is_before(from) {
                return Err(
                    StorageError::Invariant(
                        "operational event occurred_at range is inverted".to_owned(),
                    ),
                );
            }
        },
        _ => {},
    }
    if after_cursor > 0x7fff_ffff_ffff_ffff {
        return Err(
            StorageError::Invariant("after_cursor does not fit SQLite INTEGER".to_owned()),
        );
    }
    match check_filter("correlation_id", &filter.correlation_id) {
        Ok(()) => {},
        Err(e) => {
            return Err(e);
        },
    }
    match check_filter("event_type", &filter.event_type) {
        Ok(()) => {},
        Err(e) => {
            return Err(e);
        },
    }
    match check_filter("stream_id", &filter.stream_id) {
        Ok(()) => {},
        Err(e) => {
            return Err(e);
        },
    }
    match check_filter("actor_id", &filter.actor_id) {
        Ok(()) => {},
        Err(e) => {
            return Err(e);
        },
    }
    if limit as u64 > 0x7fff_ffff_ffff_ffff {
        return Err(StorageError::Invariant("limit does not fit SQLite INTEGER".to_owned()));
    }
    let mut query = Query {
        sql: "SELECT cursor, event_json FROM operational_events WHERE data_space_id = ? AND cursor > ?".to_owned(),
        values: vec![
            SqlValue::Text(data_space_id.to_owned()),
            SqlValue::Integer(after_cursor as i64),
        ],
    };
    assert(super::sql::sql_views(query.values@) =~= seq![
        SqlView::Text(data_space_id@),
        SqlView::Integer(after_cursor as i64),
    ]);
    query.add_clause(" AND correlation_id = ?", opt(&filter.correlation_id));
    query.add_clause(" AND causation_id = ?", opt(&filter.causation_id));
    query.add_clause(" AND event_type = ?", opt(&filter.event_type));
    query.add_clause(" AND stream_id = ?", opt(&filter.stream_id));
    query.add_clause(" AND actor_id = ?", opt(&filter.actor_id));
    add_instant(&mut query, " AND occurred_at >= ?", &filter.occurred_at_from);
    add_instant(&mut query, " AND occurred_at <= ?", &filter.occurred_at_to);
    query.extend(" ORDER BY cursor LIMIT ?", SqlValue::Integer(limit as i64));
    Ok(query)
}

/// Checks a page of events.
pub fn check_event_page(limit: usize) -> (r: Result<(), StorageError>)
    ensures
        match r {
            Ok(()) => limit > 0,
            Err(e) => limit == 0 && e@ == StorageErrorView::Invariant(
                "operational event page limit must be positive"@,
            ),
        },
{
    if limit == 0 {
        Err(StorageError::Invariant("operational event page limit must be positive".to_owned()))
    } else {
        Ok(())
    }
}

/// Checks a page of a stream.
pub fn check_stream_page(stream_id: &str, limit: usize) -> (r: Result<(), StorageError>)
    ensures
        match r {
            Ok(()) => !crate::text::blank(stream_id@) && limit > 0,
            Err(e) => (crate::text::blank(stream_id@) || limit == 0) && e@
                == StorageErrorView::Invariant("stream_id and a positive limit are required"@),
        },
{
    if is_blank(stream_id) || limit == 0 {
        Err(StorageError::Invariant("stream_id and a positive limit are required".to_owned()))
    } else {
        Ok(())
    }
}

/// Checks the name of a stream.
pub fn check_stream(stream_id: &str) -> (r: Result<(), StorageError>)
    ensures
        match r {
            Ok(()) => !crate::text::blank(stream_id@),
            Err(e) => crate::text::blank(stream_id@) && e@ == StorageErrorView::Invariant(
                "stream_id must not be blank"@,
            ),
        },
{
    if is_blank(stream_id) {
        Err(StorageError::Invariant("stream_id must not be blank".to_owned()))
    } else {
        Ok(())
    }
}

} // verus!
