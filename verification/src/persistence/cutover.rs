//! The cutover of a source from the first version of the ingest interface to the second.
//!
//! A log of transitions says where each unit stands. A unit is drained, its identities are bridged,
//! and only then is the second version admitted; after the first observation of that version there
//! is no way back.

use vstd::prelude::*;
use vstd::string::*;

use crate::domain::ObservationId;
use crate::json::parse_json;
use crate::text::{decimal_text, is_blank, join_strings, str_eq, text2, text3, text4, text5, text6};

use super::error::{
    quote, violation, PersistenceError, PersistenceErrorView, StorageError, StorageErrorView,
};
use super::identity::{
    bridge_identity_key, resolve_bridge, BridgeCandidate, IdentityBridgeResolution,
};

verus! {

/// Where a unit stands.
#[derive(Debug, Clone, Copy, PartialEq, Eq, Structural)]
pub enum CutoverPhase {
    V1Active,
    Draining,
    V2Active,
    V2Committed,
}

/// The name of a phase.
pub open spec fn phase_name(phase: CutoverPhase) -> Seq<char> {
    match phase {
        CutoverPhase::V1Active => "v1_active"@,
        CutoverPhase::Draining => "draining"@,
        CutoverPhase::V2Active => "v2_active"@,
        CutoverPhase::V2Committed => "v2_committed"@,
    }
}

impl CutoverPhase {
    /// The name of the phase.
    pub fn as_str(&self) -> (r: &'static str)
        ensures
            r@ == phase_name(*self),
    {
        match self {
            CutoverPhase::V1Active => "v1_active",
            CutoverPhase::Draining => "draining",
            CutoverPhase::V2Active => "v2_active",
            CutoverPhase::V2Committed => "v2_committed",
        }
    }
}

/// A version of the ingest interface.
#[derive(Debug, Clone, Copy, PartialEq, Eq, Structural)]
pub enum CutoverApiVersion {
    V1,
    V2,
}

/// The name of a version.
pub open spec fn version_name(version: CutoverApiVersion) -> Seq<char> {
    match version {
        CutoverApiVersion::V1 => "v1"@,
        CutoverApiVersion::V2 => "v2"@,
    }
}

impl CutoverApiVersion {
    /// The name of the version.
    pub fn as_str(&self) -> (r: &'static str)
        ensures
            r@ == version_name(*self),
    {
        match self {
            CutoverApiVersion::V1 => "v1",
            CutoverApiVersion::V2 => "v2",
        }
    }
}

/// The phase of a name.
pub open spec fn phase_of(name: Seq<char>) -> Result<CutoverPhase, PersistenceErrorView> {
    if name == "v1_active"@ {
        Ok(CutoverPhase::V1Active)
    } else if name == "draining"@ {
        Ok(CutoverPhase::Draining)
    } else if name == "v2_active"@ {
        Ok(CutoverPhase::V2Active)
    } else if name == "v2_committed"@ {
        Ok(CutoverPhase::V2Committed)
    } else {
        Err(super::error::broken("unknown cutover phase "@ + super::error::quoted(name)))
    }
}

/// The phase of a name.
pub fn parse_phase(value: &str) -> (r: Result<CutoverPhase, PersistenceError>)
    ensures
        (match r {
            Ok(phase) => Ok(phase),
            Err(e) => Err(e@),
        }) == phase_of(value@),
{
    if str_eq(value, "v1_active") {
        Ok(CutoverPhase::V1Active)
    } else if str_eq(value, "draining") {
        Ok(CutoverPhase::Draining)
    } else if str_eq(value, "v2_active") {
        Ok(CutoverPhase::V2Active)
    } else if str_eq(value, "v2_committed") {
        Ok(CutoverPhase::V2Committed)
    } else {
        let name = quote(value);
        Err(PersistenceError::SchemaInvariant(text2("unknown cutover phase ", name.as_str())))
    }
}

/// A phase is read back from its name.
pub proof fn phases_are_read_back(phase: CutoverPhase)
    ensures
        phase_of(phase_name(phase)) == Ok::<CutoverPhase, PersistenceErrorView>(phase),
{
    reveal_strlit("v1_active");
    reveal_strlit("draining");
    reveal_strlit("v2_active");
    reveal_strlit("v2_committed");
    assert("v1_active"@[1] == '1' && "v2_active"@[1] == '2');
    assert("v1_active"@.len() == 9 && "v2_active"@.len() == 9 && "draining"@.len() == 8
        && "v2_committed"@.len() == 12);
}

/// A blank name is no unit.
pub fn validate_cutover_unit(source_instance_id: &str) -> (r: Result<(), PersistenceError>)
    ensures
        (match r {
            Ok(()) => Ok(()),
            Err(e) => Err(e@),
        }) == (if crate::text::blank(source_instance_id@) {
            Err(super::error::broken("source_instance_id must not be blank"@))
        } else {
            Ok(())
        }),
{
    if is_blank(source_instance_id) {
        Err(violation("source_instance_id must not be blank"))
    } else {
        Ok(())
    }
}

/// An entry of the log of transitions.
#[derive(Debug)]
pub struct TransitionRow {
    pub from_phase: String,
    pub to_phase: String,
    pub generation: u64,
    pub fence_append_seq: Option<u64>,
    pub first_v2_append_seq: Option<u64>,
}

/// What an entry of the log says.
pub struct TransitionView {
    pub from_phase: Seq<char>,
    pub to_phase: Seq<char>,
    pub generation: u64,
    pub fence: Option<u64>,
    pub first: Option<u64>,
}

impl View for TransitionRow {
    type V = TransitionView;

    open spec fn view(&self) -> TransitionView {
        TransitionView {
            from_phase: self.from_phase@,
            to_phase: self.to_phase@,
            generation: self.generation,
            fence: self.fence_append_seq,
            first: self.first_v2_append_seq,
        }
    }
}

/// What the entries of a log say.
pub open spec fn transition_views(rows: Seq<TransitionRow>) -> Seq<TransitionView> {
    rows.map_values(|row: TransitionRow| row@)
}

/// Where a log of transitions leads.
pub struct Progress {
    pub phase: CutoverPhase,
    pub generation: u64,
    pub fence: Option<u64>,
    pub first: Option<u64>,
}

/// The number after a number, or the same where there is none.
pub open spec fn next_generation(generation: u64) -> u64 {
    if generation == u64::MAX {
        generation
    } else {
        (generation + 1) as u64
    }
}

/// Whether a unit may go from one phase to another with a generation.
pub open spec fn may_follow(
    at: Progress,
    to: CutoverPhase,
    generation: u64,
    first: Option<u64>,
) -> bool {
    match (at.phase, to) {
        (CutoverPhase::V1Active, CutoverPhase::Draining) => generation == at.generation,
        (CutoverPhase::Draining, CutoverPhase::V2Active) => generation == next_generation(
            at.generation,
        ),
        (CutoverPhase::Draining, CutoverPhase::V1Active) => generation == next_generation(
            at.generation,
        ),
        (CutoverPhase::V2Active, CutoverPhase::V1Active) => generation == next_generation(
            at.generation,
        ),
        (CutoverPhase::V2Active, CutoverPhase::V2Committed) => generation == at.generation
            && first is Some,
        _ => false,
    }
}

/// Where an entry leads, or why it cannot stand there.
pub open spec fn step(unit: Seq<char>, at: Option<Progress>, row: TransitionView) -> Result<
    Progress,
    PersistenceErrorView,
> {
    match phase_of(row.to_phase) {
        Err(e) => Err(e),
        Ok(to) => match at {
            None => if row.from_phase == "uninitialized"@ && to == CutoverPhase::V1Active
                && row.generation == 1 {
                Ok(
                    Progress {
                        phase: to,
                        generation: row.generation,
                        fence: row.fence,
                        first: row.first,
                    },
                )
            } else {
                Err(super::error::broken("invalid initial cutover transition for "@ + unit))
            },
            Some(p) => if row.from_phase != phase_name(p.phase) {
                Err(
                    super::error::broken(
                        "cutover transition for "@ + unit + " starts from "@ + row.from_phase
                            + ", expected "@ + phase_name(p.phase),
                    ),
                )
            } else if !may_follow(p, to, row.generation, row.first) {
                Err(
                    super::error::broken(
                        "invalid cutover transition "@ + phase_name(p.phase) + " -> "@ + phase_name(
                            to,
                        ) + " for "@ + unit,
                    ),
                )
            } else {
                Ok(
                    Progress {
                        phase: to,
                        generation: row.generation,
                        fence: if row.fence is Some {
                            row.fence
                        } else {
                            p.fence
                        },
                        first: if row.first is Some {
                            row.first
                        } else {
                            p.first
                        },
                    },
                )
            },
        },
    }
}

/// Where a log leads, or what is wrong in it.
pub open spec fn folded(unit: Seq<char>, rows: Seq<TransitionView>) -> Result<
    Option<Progress>,
    PersistenceErrorView,
>
    decreases rows.len(),
{
    if rows.len() == 0 {
        Ok(None)
    } else {
        match folded(unit, rows.drop_last()) {
            Err(e) => Err(e),
            Ok(at) => match step(unit, at, rows.last()) {
                Err(e) => Err(e),
                Ok(p) => Ok(Some(p)),
            },
        }
    }
}

proof fn fold_stays_wrong(unit: Seq<char>, rows: Seq<TransitionView>, n: int)
    requires
        0 <= n <= rows.len(),
        folded(unit, rows.take(n)) is Err,
    ensures
        folded(unit, rows) == folded(unit, rows.take(n)),
    decreases rows.len() - n,
{
    if n == rows.len() {
        assert(rows.take(n) =~= rows);
    } else {
        assert(rows.take(n + 1).drop_last() =~= rows.take(n));
        fold_stays_wrong(unit, rows, n + 1);
    }
}

/// The state of a unit.
#[derive(Debug)]
pub struct CutoverState {
    pub source_instance_id: String,
    pub phase: CutoverPhase,
    pub generation: u64,
    pub fence_append_seq: Option<u64>,
    pub first_v2_append_seq: Option<u64>,
    pub v2_ingested: u64,
}

/// Where the state of a unit says that it stands.
pub open spec fn progress_of(state: CutoverState) -> Progress {
    Progress {
        phase: state.phase,
        generation: state.generation,
        fence: state.fence_append_seq,
        first: state.first_v2_append_seq,
    }
}

/// The state of a unit, given the entries of its log, oldest first, and how many observations of
/// the second version were counted.
pub fn cutover_state(
    source_instance_id: &str,
    rows: &[TransitionRow],
    v2_ingested: Option<u64>,
) -> (r: Result<Option<CutoverState>, PersistenceError>)
    ensures
        match r {
            Ok(None) => folded(source_instance_id@, transition_views(rows@)) == Ok::<
                Option<Progress>,
                PersistenceErrorView,
            >(None) && rows@.len() == 0,
            Ok(Some(state)) => {
                &&& folded(source_instance_id@, transition_views(rows@)) == Ok::<
                    Option<Progress>,
                    PersistenceErrorView,
                >(Some(progress_of(state)))
                &&& state.source_instance_id@ == source_instance_id@
                &&& state.v2_ingested == (match v2_ingested {
                    Some(n) => n,
                    None => 0,
                })
            },
            Err(e) => folded(source_instance_id@, transition_views(rows@)) == Err::<
                Option<Progress>,
                PersistenceErrorView,
            >(e@),
        },
{
    let ghost all = transition_views(rows@);
    let ghost unit = source_instance_id@;
    if rows.len() == 0 {
        return Ok(None);
    }
    let mut phase: Option<CutoverPhase> = None;
    let mut generation: u64 = 0;
    let mut fence: Option<u64> = None;
    let mut first: Option<u64> = None;
    let mut i: usize = 0;
    while i < rows.len()
        invariant
            i <= rows@.len(),
            all == transition_views(rows@),
            unit == source_instance_id@,
            folded(unit, all.take(i as int)) == Ok::<Option<Progress>, PersistenceErrorView>(
                match phase {
                    Some(p) => Some(Progress { phase: p, generation, fence, first }),
                    None => None,
                },
            ),
            phase is None ==> i == 0 && fence is None && first is None,
        decreases rows@.len() - i,
    {
        let row = &rows[i];
        proof {
            assert(all.take(i + 1).drop_last() =~= all.take(i as int));
            assert(all.take(i + 1).last() == row@);
        }
        let to = match parse_phase(row.to_phase.as_str()) {
            Ok(p) => p,
            Err(e) => {
                proof {
                    fold_stays_wrong(unit, all, i + 1);
                }
                return Err(e);
            },
        };
        match phase {
            None => {
                if !(str_eq(row.from_phase.as_str(), "uninitialized") && to
                    == CutoverPhase::V1Active && row.generation == 1) {
                    proof {
                        fold_stays_wrong(unit, all, i + 1);
                    }
                    return Err(
                        PersistenceError::SchemaInvariant(
                            text2("invalid initial cutover transition for ", source_instance_id),
                        ),
                    );
                }
            },
            Some(previous) => {
                if !str_eq(row.from_phase.as_str(), previous.as_str()) {
                    proof {
                        fold_stays_wrong(unit, all, i + 1);
                    }
                    return Err(
                        PersistenceError::SchemaInvariant(
                            text6(
                                "cutover transition for ",
                                source_instance_id,
                                " starts from ",
                                row.from_phase.as_str(),
                                ", expected ",
                                previous.as_str(),
                            ),
                        ),
                    );
                }
                let next: u64 = if generation == u64::MAX {
                    generation
                } else {
                    generation + 1
                };
                let valid = match (previous, to) {
                    (CutoverPhase::V1Active, CutoverPhase::Draining) => row.generation
                        == generation,
                    (CutoverPhase::Draining, CutoverPhase::V2Active) => row.generation == next,
                    (CutoverPhase::Draining, CutoverPhase::V1Active) => row.generation == next,
                    (CutoverPhase::V2Active, CutoverPhase::V1Active) => row.generation == next,
                    (CutoverPhase::V2Active, CutoverPhase::V2Committed) => row.generation
                        == generation && row.first_v2_append_seq.is_some(),
                    _ => false,
                };
                if !valid {
                    proof {
                        fold_stays_wrong(unit, all, i + 1);
                    }
                    return Err(
                        PersistenceError::SchemaInvariant(
                            text6(
                                "invalid cutover transition ",
                                previous.as_str(),
                                " -> ",
                                to.as_str(),
                                " for ",
                                source_instance_id,
                            ),
                        ),
                    );
                }
            },
        }
        phase = Some(to);
        generation = row.generation;
        if row.fence_append_seq.is_some() {
            fence = row.fence_append_seq;
        }
        if row.first_v2_append_seq.is_some() {
            first = row.first_v2_append_seq;
        }
        i = i + 1;
    }
    assert(all.take(i as int) =~= all);
    match phase {
        Some(last) => Ok(
            Some(
                CutoverState {
                    source_instance_id: source_instance_id.to_owned(),
                    phase: last,
                    generation,
                    fence_append_seq: fence,
                    first_v2_append_seq: first,
                    v2_ingested: match v2_ingested {
                        Some(n) => n,
                        None => 0,
                    },
                },
            ),
        ),
        None => Ok(None),
    }
}

/// The state of a unit that has to be registered.
pub fn required_state(source_instance_id: &str, state: Option<CutoverState>) -> (r: Result<
    CutoverState,
    PersistenceError,
>)
    ensures
        match state {
            Some(s) => r == Ok::<CutoverState, PersistenceError>(s),
            None => r is Err && r->Err_0@ == super::error::broken(
                "cutover unit "@ + source_instance_id@ + " is not registered"@,
            ),
        },
{
    match state {
        Some(s) => Ok(s),
        None => Err(
            PersistenceError::SchemaInvariant(
                text3("cutover unit ", source_instance_id, " is not registered"),
            ),
        ),
    }
}

/// What happens to the credentials of a unit.
#[derive(Debug, Clone, Copy, PartialEq, Eq, Structural)]
pub enum CredentialChange {
    /// They stay as they are.
    Keep,
    /// None stays active.
    Revoke,
    /// A new one of the version becomes the only active one.
    Issue(CutoverApiVersion),
}

/// A transition that is to be recorded, with what happens to the credentials of the unit.
#[derive(Debug)]
pub struct PlannedTransition {
    pub row: TransitionRow,
    pub credential: CredentialChange,
}

/// What a planned transition says.
pub struct PlanView {
    pub row: TransitionView,
    pub credential: CredentialChange,
}

impl View for PlannedTransition {
    type V = PlanView;

    open spec fn view(&self) -> PlanView {
        PlanView { row: self.row@, credential: self.credential }
    }
}

/// A transition from where a unit stands.
pub open spec fn transition_from(
    state: CutoverState,
    to: CutoverPhase,
    generation: u64,
    fence: Option<u64>,
    first: Option<u64>,
) -> TransitionView {
    TransitionView {
        from_phase: phase_name(state.phase),
        to_phase: phase_name(to),
        generation,
        fence,
        first,
    }
}

/// The error for a transition that nobody answers for or that has no reason.
pub open spec fn unsigned_error() -> StorageErrorView {
    StorageErrorView::Invariant("cutover transition authority and reason must not be blank"@)
}

fn signed(authority: &str, reason: &str) -> (r: Result<(), StorageError>)
    ensures
        match r {
            Ok(()) => !crate::text::blank(authority@) && !crate::text::blank(reason@),
            Err(e) => (crate::text::blank(authority@) || crate::text::blank(reason@)) && e@
                == unsigned_error(),
        },
{
    if is_blank(authority) || is_blank(reason) {
        Err(
            StorageError::Invariant(
                "cutover transition authority and reason must not be blank".to_owned(),
            ),
        )
    } else {
        Ok(())
    }
}

/// What registering a unit records: nothing where it is registered.
pub open spec fn register_decision(
    state: Option<CutoverState>,
    authority: Seq<char>,
    reason: Seq<char>,
) -> Result<Option<PlanView>, StorageErrorView> {
    if state is Some {
        Ok(None)
    } else if crate::text::blank(authority) || crate::text::blank(reason) {
        Err(unsigned_error())
    } else {
        Ok(
            Some(
                PlanView {
                    row: TransitionView {
                        from_phase: "uninitialized"@,
                        to_phase: phase_name(CutoverPhase::V1Active),
                        generation: 1,
                        fence: None,
                        first: None,
                    },
                    credential: CredentialChange::Issue(CutoverApiVersion::V1),
                },
            ),
        )
    }
}

/// A planned transition or a refusal.
pub open spec fn plan_result(r: Result<PlannedTransition, StorageError>) -> Result<
    PlanView,
    StorageErrorView,
> {
    match r {
        Ok(p) => Ok(p@),
        Err(e) => Err(e@),
    }
}

/// What registering a unit records: nothing where it is registered.
pub fn cutover_register(state: Option<&CutoverState>, authority: &str, reason: &str) -> (r: Result<
    Option<PlannedTransition>,
    StorageError,
>)
    ensures
        (match r {
            Ok(Some(p)) => Ok(Some(p@)),
            Ok(None) => Ok(None),
            Err(e) => Err(e@),
        }) == register_decision(
            match state {
                Some(s) => Some(*s),
                None => None,
            },
            authority@,
            reason@,
        ),
{
    if state.is_some() {
        return Ok(None);
    }
    match signed(authority, reason) {
        Ok(()) => {},
        Err(e) => {
            return Err(e);
        },
    }
    Ok(
        Some(
            PlannedTransition {
                row: TransitionRow {
                    from_phase: "uninitialized".to_owned(),
                    to_phase: CutoverPhase::V1Active.as_str().to_owned(),
                    generation: 1,
                    fence_append_seq: None,
                    first_v2_append_seq: None,
                },
                credential: CredentialChange::Issue(CutoverApiVersion::V1),
            },
        ),
    )
}

/// What draining a unit records: only an active first version can be drained, up to the tail of the
/// lake.
pub open spec fn drain_decision(
    state: CutoverState,
    tail: u64,
    authority: Seq<char>,
    reason: Seq<char>,
) -> Result<PlanView, StorageErrorView> {
    if state.phase != CutoverPhase::V1Active {
        Err(
            StorageErrorView::CutoverConflict(
                "unit is in "@ + phase_name(state.phase) + ", only v1_active may enter draining"@,
            ),
        )
    } else if crate::text::blank(authority) || crate::text::blank(reason) {
        Err(unsigned_error())
    } else {
        Ok(
            PlanView {
                row: transition_from(
                    state,
                    CutoverPhase::Draining,
                    state.generation,
                    Some(tail),
                    state.first_v2_append_seq,
                ),
                credential: CredentialChange::Revoke,
            },
        )
    }
}

/// What draining a unit records, given the tail of the lake.
pub fn cutover_begin_drain(state: &CutoverState, tail: u64, authority: &str, reason: &str) -> (r:
    Result<PlannedTransition, StorageError>)
    ensures
        plan_result(r) == drain_decision(*state, tail, authority@, reason@),
{
    if state.phase != CutoverPhase::V1Active {
        return Err(
            StorageError::CutoverConflict(
                text3("unit is in ", state.phase.as_str(), ", only v1_active may enter draining"),
            ),
        );
    }
    match signed(authority, reason) {
        Ok(()) => {},
        Err(e) => {
            return Err(e);
        },
    }
    Ok(
        PlannedTransition {
            row: TransitionRow {
                from_phase: state.phase.as_str().to_owned(),
                to_phase: CutoverPhase::Draining.as_str().to_owned(),
                generation: state.generation,
                fence_append_seq: Some(tail),
                first_v2_append_seq: state.first_v2_append_seq,
            },
            credential: CredentialChange::Revoke,
        },
    )
}

/// The error where no further generation can be counted.
pub open spec fn generation_overflow() -> StorageErrorView {
    StorageErrorView::CutoverConflict("cutover credential generation overflow"@)
}

/// A transition to a phase of the next generation, with the credential of a version.
pub open spec fn raised(
    state: CutoverState,
    to: CutoverPhase,
    credential: CutoverApiVersion,
    authority: Seq<char>,
    reason: Seq<char>,
) -> Result<PlanView, StorageErrorView> {
    if state.generation == u64::MAX {
        Err(generation_overflow())
    } else if crate::text::blank(authority) || crate::text::blank(reason) {
        Err(unsigned_error())
    } else {
        Ok(
            PlanView {
                row: transition_from(
                    state,
                    to,
                    (state.generation + 1) as u64,
                    state.fence_append_seq,
                    state.first_v2_append_seq,
                ),
                credential: CredentialChange::Issue(credential),
            },
        )
    }
}

fn raise(
    state: &CutoverState,
    to: CutoverPhase,
    credential: CutoverApiVersion,
    authority: &str,
    reason: &str,
) -> (r: Result<PlannedTransition, StorageError>)
    ensures
        plan_result(r) == raised(*state, to, credential, authority@, reason@),
{
    if state.generation == u64::MAX {
        return Err(
            StorageError::CutoverConflict("cutover credential generation overflow".to_owned()),
        );
    }
    match signed(authority, reason) {
        Ok(()) => {},
        Err(e) => {
            return Err(e);
        },
    }
    Ok(
        PlannedTransition {
            row: TransitionRow {
                from_phase: state.phase.as_str().to_owned(),
                to_phase: to.as_str().to_owned(),
                generation: state.generation + 1,
                fence_append_seq: state.fence_append_seq,
                first_v2_append_seq: state.first_v2_append_seq,
            },
            credential: CredentialChange::Issue(credential),
        },
    )
}

/// What rolling a unit back records: it is refused once an observation of the second version was
/// taken in, and makes sense only while draining or before that.
pub open spec fn rollback_decision(
    state: CutoverState,
    authority: Seq<char>,
    reason: Seq<char>,
) -> Result<PlanView, StorageErrorView> {
    if state.phase == CutoverPhase::V2Committed || state.v2_ingested > 0 {
        Err(
            StorageErrorView::CutoverRollbackRefused(
                "rollback refused after first v2 ingested observation; forward-fix is required"@,
            ),
        )
    } else if state.phase != CutoverPhase::Draining && state.phase != CutoverPhase::V2Active {
        Err(
            StorageErrorView::CutoverConflict(
                "rollback is not valid from "@ + phase_name(state.phase),
            ),
        )
    } else {
        raised(state, CutoverPhase::V1Active, CutoverApiVersion::V1, authority, reason)
    }
}

/// What rolling a unit back records.
pub fn cutover_rollback(state: &CutoverState, authority: &str, reason: &str) -> (r: Result<
    PlannedTransition,
    StorageError,
>)
    ensures
        plan_result(r) == rollback_decision(*state, authority@, reason@),
{
    if state.phase == CutoverPhase::V2Committed || state.v2_ingested > 0 {
        return Err(
            StorageError::CutoverRollbackRefused(
                "rollback refused after first v2 ingested observation; forward-fix is required".to_owned(),
            ),
        );
    }
    if state.phase != CutoverPhase::Draining && state.phase != CutoverPhase::V2Active {
        return Err(
            StorageError::CutoverConflict(
                text2("rollback is not valid from ", state.phase.as_str()),
            ),
        );
    }
    raise(state, CutoverPhase::V1Active, CutoverApiVersion::V1, authority, reason)
}

/// The name under which a credential is issued.
pub fn credential_ref(
    source_instance_id: &str,
    api_version: CutoverApiVersion,
    generation: u64,
) -> (r: String)
    ensures
        r@ == "unit:"@ + source_instance_id@ + ":"@ + version_name(api_version) + ":"@
            + crate::text::decimal(generation as nat),
{
    let number = decimal_text(generation);
    text6("unit:", source_instance_id, ":", api_version.as_str(), ":", number.as_str())
}

/// An optional number as it is shown in messages.
pub open spec fn shown_number(n: Option<u64>) -> Seq<char> {
    match n {
        Some(k) => "Some("@ + crate::text::decimal(k as nat) + ")"@,
        None => "None"@,
    }
}

fn number_shown(n: Option<u64>) -> (r: String)
    ensures
        r@ == shown_number(n),
{
    match n {
        Some(k) => {
            let number = decimal_text(k);
            text3("Some(", number.as_str(), ")")
        },
        None => "None".to_owned(),
    }
}

/// Whether a phase admits a version.
pub open spec fn admits(phase: CutoverPhase, version: CutoverApiVersion) -> bool {
    match version {
        CutoverApiVersion::V1 => phase == CutoverPhase::V1Active,
        CutoverApiVersion::V2 => phase == CutoverPhase::V2Active || phase
            == CutoverPhase::V2Committed,
    }
}

/// Why a request of a version is not admitted; a unit that is not registered admits every request.
pub open spec fn denial(
    state: Option<CutoverState>,
    unit: Seq<char>,
    version: CutoverApiVersion,
    generation: Option<u64>,
    credential_active: bool,
) -> Option<Seq<char>> {
    match state {
        None => None,
        Some(s) => if !admits(s.phase, version) {
            Some(
                "unit "@ + unit + " is "@ + phase_name(s.phase) + ", not admitting "@
                    + version_name(version),
            )
        } else if generation != Some(s.generation) {
            Some(
                version_name(version) + " credential generation is stale or missing for unit "@
                    + unit + ": expected "@ + crate::text::decimal(s.generation as nat) + ", got "@
                    + shown_number(generation),
            )
        } else if !credential_active {
            Some(
                version_name(version) + " credential generation "@ + crate::text::decimal(
                    s.generation as nat,
                ) + " is not active for unit "@ + unit,
            )
        } else {
            None
        },
    }
}

/// Why a request of a version is not admitted, given whether the credential of the unit's generation
/// is active.
pub fn admission_denial(
    state: Option<&CutoverState>,
    source_instance_id: &str,
    api_version: CutoverApiVersion,
    generation: Option<u64>,
    credential_active: bool,
) -> (r: Option<String>)
    ensures
        crate::text::opt_string(r) == denial(
            match state {
                Some(s) => Some(*s),
                None => None,
            },
            source_instance_id@,
            api_version,
            generation,
            credential_active,
        ),
{
    let s = match state {
        Some(s) => s,
        None => {
            return None;
        },
    };
    let admitted = match api_version {
        CutoverApiVersion::V1 => s.phase == CutoverPhase::V1Active,
        CutoverApiVersion::V2 => s.phase == CutoverPhase::V2Active || s.phase
            == CutoverPhase::V2Committed,
    };
    if !admitted {
        return Some(
            text6(
                "unit ",
                source_instance_id,
                " is ",
                s.phase.as_str(),
                ", not admitting ",
                api_version.as_str(),
            ),
        );
    }
    let expected = decimal_text(s.generation);
    let current = match generation {
        Some(g) => g == s.generation,
        None => false,
    };
    if !current {
        let got = number_shown(generation);
        let head = text4(
            api_version.as_str(),
            " credential generation is stale or missing for unit ",
            source_instance_id,
            ": expected ",
        );
        return Some(text4(head.as_str(), expected.as_str(), ", got ", got.as_str()));
    }
    if !credential_active {
        return Some(
            text5(
                api_version.as_str(),
                " credential generation ",
                expected.as_str(),
                " is not active for unit ",
                source_instance_id,
            ),
        );
    }
    None
}

/// Whether a denied request counts as a stale one of the first version.
pub fn counts_as_stale(api_version: CutoverApiVersion, registered: bool) -> (r: bool)
    ensures
        r == (api_version == CutoverApiVersion::V1 && registered),
{
    api_version == CutoverApiVersion::V1 && registered
}

/// The statement that adds to a counter of a unit.
pub fn metric_update_sql(column: &str) -> (r: Result<String, PersistenceError>)
    ensures
        match r {
            Ok(sql) => {
                &&& column@ == "bridge_duplicate_hits"@ || column@ == "stale_v1_rejections"@
                    || column@ == "v2_ingested"@
                &&& sql@ == "UPDATE cutover_unit_metrics SET "@ + column@ + " = "@ + column@
                    + " + ?1, updated_at = ?2 WHERE source_instance_id = ?3"@
            },
            Err(e) => {
                &&& column@ != "bridge_duplicate_hits"@ && column@ != "stale_v1_rejections"@
                    && column@ != "v2_ingested"@
                &&& e@ == super::error::broken("unknown cutover metric column "@ + column@)
            },
        },
{
    if str_eq(column, "bridge_duplicate_hits") || str_eq(column, "stale_v1_rejections") || str_eq(
        column,
        "v2_ingested",
    ) {
        Ok(
            text5(
                "UPDATE cutover_unit_metrics SET ",
                column,
                " = ",
                column,
                " + ?1, updated_at = ?2 WHERE source_instance_id = ?3",
            ),
        )
    } else {
        Err(PersistenceError::SchemaInvariant(text2("unknown cutover metric column ", column)))
    }
}

/// What is counted and recorded after an append of the second version.
#[derive(Debug)]
pub struct V2AppendEffects {
    pub bridge_duplicate_hits: u64,
    pub v2_ingested: u64,
    pub commit: Option<PlannedTransition>,
}

/// The least of some numbers.
pub open spec fn least(numbers: Seq<u64>) -> Option<u64>
    decreases numbers.len(),
{
    if numbers.len() == 0 {
        None
    } else {
        match least(numbers.drop_last()) {
            None => Some(numbers.last()),
            Some(m) => if numbers.last() < m {
                Some(numbers.last())
            } else {
                Some(m)
            },
        }
    }
}

fn least_of(numbers: &Vec<u64>) -> (r: Option<u64>)
    ensures
        r == least(numbers@),
{
    let mut best: Option<u64> = None;
    let mut i: usize = 0;
    while i < numbers.len()
        invariant
            i <= numbers@.len(),
            best == least(numbers@.take(i as int)),
        decreases numbers@.len() - i,
    {
        assert(numbers@.take(i + 1).drop_last() =~= numbers@.take(i as int));
        best = match best {
            None => Some(numbers[i]),
            Some(m) => {
                if numbers[i] < m {
                    Some(numbers[i])
                } else {
                    Some(m)
                }
            },
        };
        i = i + 1;
    }
    assert(numbers@.take(i as int) =~= numbers@);
    best
}

/// The transition that an append of the second version commits to: the first one makes an active
/// second version final.
pub open spec fn commit_decision(state: CutoverState, appended: Seq<u64>) -> Option<PlanView> {
    if appended.len() > 0 && state.phase == CutoverPhase::V2Active {
        Some(
            PlanView {
                row: transition_from(
                    state,
                    CutoverPhase::V2Committed,
                    state.generation,
                    state.fence_append_seq,
                    least(appended),
                ),
                credential: CredentialChange::Keep,
            },
        )
    } else {
        None
    }
}

/// What is counted and recorded after an append of the second version to a registered unit, given
/// how often the bridge answered and where new observations were appended.
pub fn record_v2_append_metrics(
    state: &CutoverState,
    bridge_hits: u64,
    appended: &Vec<u64>,
    authority: &str,
    reason: &str,
) -> (r: Result<V2AppendEffects, StorageError>)
    ensures
        match r {
            Ok(effects) => {
                &&& commit_decision(*state, appended@) is Some ==> !crate::text::blank(authority@)
                    && !crate::text::blank(reason@)
                &&& effects.bridge_duplicate_hits == bridge_hits
                &&& effects.v2_ingested == appended@.len()
                &&& (match effects.commit {
                    Some(p) => Some(p@),
                    None => None,
                }) == commit_decision(*state, appended@)
            },
            Err(e) => {
                &&& commit_decision(*state, appended@) is Some
                &&& crate::text::blank(authority@) || crate::text::blank(reason@)
                &&& e@ == unsigned_error()
            },
        },
{
    let commit = if appended.len() > 0 && state.phase == CutoverPhase::V2Active {
        match signed(authority, reason) {
            Ok(()) => {},
            Err(e) => {
                return Err(e);
            },
        }
        Some(
            PlannedTransition {
                row: TransitionRow {
                    from_phase: state.phase.as_str().to_owned(),
                    to_phase: CutoverPhase::V2Committed.as_str().to_owned(),
                    generation: state.generation,
                    fence_append_seq: state.fence_append_seq,
                    first_v2_append_seq: least_of(appended),
                },
                credential: CredentialChange::Keep,
            },
        )
    } else {
        None
    };
    Ok(
        V2AppendEffects {
            bridge_duplicate_hits: bridge_hits,
            v2_ingested: appended.len() as u64,
            commit,
        },
    )
}

/// A stored observation whose identity could not be told.
#[derive(Debug)]
pub struct BridgeGap {
    pub append_seq: u64,
    pub source_instance_id: Option<String>,
}

/// Whether a gap concerns a unit: it is the unit's, or nobody knows whose it is.
pub open spec fn concerns(gap: BridgeGap, unit: Seq<char>) -> bool {
    match gap.source_instance_id {
        Some(s) => s@ == unit,
        None => true,
    }
}

/// How many gaps concern a unit up to a position.
pub open spec fn gaps_up_to(gaps: Seq<BridgeGap>, unit: Seq<char>, fence: u64) -> nat
    decreases gaps.len(),
{
    if gaps.len() == 0 {
        0
    } else {
        gaps_up_to(gaps.drop_last(), unit, fence) + if gaps.last().append_seq <= fence && concerns(
            gaps.last(),
            unit,
        ) {
            1nat
        } else {
            0
        }
    }
}

fn count_gaps(gaps: &[BridgeGap], unit: &str, fence: u64) -> (r: u64)
    ensures
        r == gaps_up_to(gaps@, unit@, fence),
{
    let mut n: usize = 0;
    let mut i: usize = 0;
    while i < gaps.len()
        invariant
            i <= gaps@.len(),
            n <= i,
            n == gaps_up_to(gaps@.take(i as int), unit@, fence),
        decreases gaps@.len() - i,
    {
        assert(gaps@.take(i + 1).drop_last() =~= gaps@.take(i as int));
        let ours = match &gaps[i].source_instance_id {
            Some(s) => str_eq(s.as_str(), unit),
            None => true,
        };
        if ours && gaps[i].append_seq <= fence {
            n = n + 1;
        }
        i = i + 1;
    }
    assert(gaps@.take(i as int) =~= gaps@);
    n as u64
}

/// A candidate of a unit by the identity that it stands for and its content.
#[derive(Debug)]
pub struct UnitCandidate {
    pub v2_identity_key: String,
    pub canonical_json: String,
}

/// Whether a candidate is the first of several with its identity.
pub open spec fn opens_group(candidates: Seq<UnitCandidate>, i: int) -> bool {
    &&& forall|j: int|
        0 <= j < i ==> (#[trigger] candidates[j]).v2_identity_key@ != candidates[i].v2_identity_key@
    &&& exists|j: int|
        i < j < candidates.len() && (#[trigger] candidates[j]).v2_identity_key@
            == candidates[i].v2_identity_key@
}

/// Whether a candidate is the first with its identity and another with it has other content.
pub open spec fn opens_collision(candidates: Seq<UnitCandidate>, i: int) -> bool {
    &&& forall|j: int|
        0 <= j < i ==> (#[trigger] candidates[j]).v2_identity_key@ != candidates[i].v2_identity_key@
    &&& exists|j: int|
        i < j < candidates.len() && (#[trigger] candidates[j]).v2_identity_key@
            == candidates[i].v2_identity_key@ && candidates[j].canonical_json@
            != candidates[i].canonical_json@
}

/// How many identities have several candidates, among the first `n` candidates.
pub open spec fn groups(candidates: Seq<UnitCandidate>, n: nat) -> nat
    decreases n,
{
    if n == 0 {
        0
    } else {
        groups(candidates, (n - 1) as nat) + if opens_group(candidates, n - 1) {
            1nat
        } else {
            0
        }
    }
}

/// How many identities have candidates of different content, among the first `n` candidates.
pub open spec fn collisions(candidates: Seq<UnitCandidate>, n: nat) -> nat
    decreases n,
{
    if n == 0 {
        0
    } else {
        collisions(candidates, (n - 1) as nat) + if opens_collision(candidates, n - 1) {
            1nat
        } else {
            0
        }
    }
}

fn count_groups(candidates: &[UnitCandidate]) -> (r: (u64, u64))
    ensures
        r.0 == groups(candidates@, candidates@.len()),
        r.1 == collisions(candidates@, candidates@.len()),
{
    let mut several: usize = 0;
    let mut differing: usize = 0;
    let mut i: usize = 0;
    while i < candidates.len()
        invariant
            i <= candidates@.len(),
            several <= i,
            differing <= i,
            several == groups(candidates@, i as nat),
            differing == collisions(candidates@, i as nat),
        decreases candidates@.len() - i,
    {
        let mut first = true;
        let mut j: usize = 0;
        while j < i
            invariant
                j <= i < candidates@.len(),
                first == forall|k: int|
                    0 <= k < j ==> (#[trigger] candidates@[k]).v2_identity_key@
                        != candidates@[i as int].v2_identity_key@,
            decreases i - j,
        {
            if str_eq(
                candidates[j].v2_identity_key.as_str(),
                candidates[i].v2_identity_key.as_str(),
            ) {
                first = false;
            }
            j = j + 1;
        }
        let mut again = false;
        let mut other = false;
        let mut k: usize = i + 1;
        while k < candidates.len()
            invariant
                i < k <= candidates@.len(),
                again == exists|m: int|
                    i < m < k && (#[trigger] candidates@[m]).v2_identity_key@
                        == candidates@[i as int].v2_identity_key@,
                other == exists|m: int|
                    i < m < k && (#[trigger] candidates@[m]).v2_identity_key@
                        == candidates@[i as int].v2_identity_key@ && candidates@[m].canonical_json@
                        != candidates@[i as int].canonical_json@,
            decreases candidates@.len() - k,
        {
            if str_eq(
                candidates[k].v2_identity_key.as_str(),
                candidates[i].v2_identity_key.as_str(),
            ) {
                again = true;
                if !str_eq(
                    candidates[k].canonical_json.as_str(),
                    candidates[i].canonical_json.as_str(),
                ) {
                    other = true;
                }
            }
            k = k + 1;
        }
        assert((first && again) == opens_group(candidates@, i as int));
        assert((first && other) == opens_collision(candidates@, i as int));
        if first && again {
            several = several + 1;
        }
        if first && other {
            differing = differing + 1;
        }
        i = i + 1;
    }
    (several as u64, differing as u64)
}

/// An example of a retry that has to lead to a stored observation.
#[derive(Debug)]
pub struct CutoverFixture {
    pub object_id: String,
    pub canonical_json: String,
    pub expected_identity_key: String,
    pub expected_observation_id: Option<ObservationId>,
}

/// What stands in the way of an activation.
#[derive(Debug)]
pub struct CutoverBlocker {
    pub append_seq: Option<u64>,
    pub reason: String,
}

/// What stands in the way of an activation.
pub struct BlockerView {
    pub append_seq: Option<u64>,
    pub reason: Seq<char>,
}

impl View for CutoverBlocker {
    type V = BlockerView;

    open spec fn view(&self) -> BlockerView {
        BlockerView { append_seq: self.append_seq, reason: self.reason@ }
    }
}

/// What some blockers say.
pub open spec fn blocker_views(blockers: Seq<CutoverBlocker>) -> Seq<BlockerView> {
    blockers.map_values(|b: CutoverBlocker| b@)
}

/// Whether a unit can be activated, and why not.
#[derive(Debug)]
pub struct CutoverReadinessReport {
    pub state: CutoverState,
    pub bridge_watermark: u64,
    pub bridge_lag: u64,
    pub watermark_covered: bool,
    pub unresolved_gap_count: u64,
    pub exact_compare_error_count: u64,
    pub fixture_identity_stable: bool,
    pub dry_run_passed: bool,
    pub candidate_count: u64,
    pub multiplicity_count: u64,
    pub collision_count: u64,
    pub blockers: Vec<CutoverBlocker>,
    pub ready: bool,
}

/// Whether the identity of a fixture is the one that its content gives.
pub open spec fn fixture_stable(unit: Seq<char>, fixture: CutoverFixture, is_json: bool) -> bool {
    is_json && fixture.expected_identity_key@ == super::identity::bridge_key(
        unit,
        fixture.object_id@,
        fixture.canonical_json@,
    )
}

/// Whether a retry of a fixture leads to the observation that it should.
pub open spec fn fixture_retries(
    fixture: CutoverFixture,
    candidates: Seq<BridgeCandidate>,
) -> bool {
    &&& candidates.len() > 0
    &&& super::identity::first_collision(candidates, fixture.canonical_json@) is None
    &&& match fixture.expected_observation_id {
        Some(expected) => expected@ == candidates[0].observation_id@,
        None => true,
    }
}

/// The position up to which the bridge has to have come.
pub open spec fn fence_of(state: CutoverState) -> u64 {
    match state.fence_append_seq {
        Some(f) => f,
        None => 0,
    }
}

/// What a difference leaves, or nothing where there is none.
pub open spec fn less(a: u64, b: u64) -> u64 {
    if a >= b {
        (a - b) as u64
    } else {
        0
    }
}

/// Blockers with one more, where it applies.
pub open spec fn with_blocker(
    blockers: Seq<BlockerView>,
    applies: bool,
    append_seq: Option<u64>,
    reason: Seq<char>,
) -> Seq<BlockerView> {
    if applies {
        blockers.push(BlockerView { append_seq, reason })
    } else {
        blockers
    }
}

/// What stands in the way of an activation.
pub open spec fn blockers_of(
    state: CutoverState,
    watermark: u64,
    gaps: nat,
    collisions: nat,
    fixture: Option<bool>,
) -> Seq<BlockerView> {
    let fence = fence_of(state);
    let b1 = with_blocker(
        Seq::empty(),
        !(state.fence_append_seq is Some && watermark >= fence),
        state.fence_append_seq,
        "bridge watermark "@ + crate::text::decimal(watermark as nat)
            + " is below fence append_seq "@ + crate::text::decimal(fence as nat),
    );
    let b2 = with_blocker(
        b1,
        gaps > 0,
        Some(fence),
        crate::text::decimal(gaps) + " unresolved identity derivation gap(s)"@,
    );
    let b3 = with_blocker(
        b2,
        collisions > 0,
        None,
        crate::text::decimal(collisions) + " canonical exact-compare collision group(s)"@,
    );
    let b4 = with_blocker(
        b3,
        fixture != Some(true),
        None,
        if fixture is Some {
            "retry fixture identity or existing-id dry-run failed"@
        } else {
            "retry fixture is required"@
        },
    );
    with_blocker(
        b4,
        state.phase != CutoverPhase::Draining,
        state.fence_append_seq,
        "unit is in "@ + phase_name(state.phase) + ", expected draining"@,
    )
}

/// Whether a report says whether a unit is ready: nothing may stand in the way.
pub open spec fn reports(
    r: CutoverReadinessReport,
    state: CutoverState,
    watermark: u64,
    gaps: Seq<BridgeGap>,
    candidates: Seq<UnitCandidate>,
    fixture: Option<CutoverFixture>,
    fixture_is_json: bool,
    fixture_candidates: Seq<BridgeCandidate>,
) -> bool {
    let unit = state.source_instance_id@;
    let gap_count = gaps_up_to(gaps, unit, fence_of(state));
    let collision_count = collisions(candidates, candidates.len());
    let stable = fixture matches Some(f) && fixture_stable(unit, f, fixture_is_json);
    let passes = fixture matches Some(f) && stable && fixture_retries(f, fixture_candidates);
    &&& r.state == state
    &&& r.bridge_watermark == watermark
    &&& r.bridge_lag == less(fence_of(state), watermark)
    &&& r.watermark_covered == (state.fence_append_seq is Some && watermark >= fence_of(state))
    &&& r.unresolved_gap_count == gap_count
    &&& r.exact_compare_error_count == collision_count
    &&& r.fixture_identity_stable == stable
    &&& r.dry_run_passed == passes
    &&& r.candidate_count == candidates.len()
    &&& r.multiplicity_count == groups(candidates, candidates.len())
    &&& r.collision_count == collision_count
    &&& blocker_views(r.blockers@) == blockers_of(
        state,
        watermark,
        gap_count,
        collision_count,
        if fixture is Some {
            Some(passes)
        } else {
            None
        },
    )
    &&& r.ready == (r.blockers@.len() == 0)
}

fn add_blocker(
    blockers: &mut Vec<CutoverBlocker>,
    applies: bool,
    append_seq: Option<u64>,
    reason: String,
)
    ensures
        blocker_views(final(blockers)@) == with_blocker(
            blocker_views(old(blockers)@),
            applies,
            append_seq,
            reason@,
        ),
{
    if applies {
        blockers.push(CutoverBlocker { append_seq, reason });
    }
    assert(blocker_views(blockers@) =~= with_blocker(
        blocker_views(old(blockers)@),
        applies,
        append_seq,
        reason@,
    ));
}

fn winner_expected(fixture: &CutoverFixture, resolution: &IdentityBridgeResolution) -> (r: bool)
    ensures
        r == (match (fixture.expected_observation_id, resolution.winner) {
            (None, Some(_)) => true,
            (Some(expected), Some(winner)) => expected@ == winner@,
            (_, None) => false,
        }),
{
    match (&fixture.expected_observation_id, &resolution.winner) {
        (None, Some(_)) => true,
        (Some(expected), Some(winner)) => str_eq(expected.as_str(), winner.as_str()),
        (_, None) => false,
    }
}

/// Whether a unit is ready, for a fixture of which it is known whether its content is JSON. The gaps
/// are those of the whole lake, the candidates those of the unit, and the candidates of the fixture
/// those of its identity, oldest first.
pub fn readiness_for(
    state: CutoverState,
    watermark: u64,
    gaps: &[BridgeGap],
    candidates: &[UnitCandidate],
    fixture: Option<&CutoverFixture>,
    fixture_is_json: bool,
    fixture_candidates: &[BridgeCandidate],
) -> (r: CutoverReadinessReport)
    ensures
        reports(
            r,
            state,
            watermark,
            gaps@,
            candidates@,
            match fixture {
                Some(f) => Some(*f),
                None => None,
            },
            fixture_is_json,
            fixture_candidates@,
        ),
{
    let fence: u64 = match state.fence_append_seq {
        Some(f) => f,
        None => 0,
    };
    let covered = state.fence_append_seq.is_some() && watermark >= fence;
    let lag: u64 = if fence >= watermark {
        fence - watermark
    } else {
        0
    };
    let gap_count = count_gaps(gaps, state.source_instance_id.as_str(), fence);
    let (multiplicity_count, collision_count) = count_groups(candidates);
    let (stable, passes) = match fixture {
        Some(f) => {
            let key = bridge_identity_key(
                state.source_instance_id.as_str(),
                f.object_id.as_str(),
                f.canonical_json.as_str(),
            );
            let stable = fixture_is_json && str_eq(f.expected_identity_key.as_str(), key.as_str());
            let resolution = resolve_bridge(
                f.expected_identity_key.as_str(),
                f.canonical_json.as_str(),
                fixture_candidates,
            );
            let passes = stable && !resolution.canonical_collision && winner_expected(
                f,
                &resolution,
            );
            (stable, passes)
        },
        None => (false, false),
    };
    let mut blockers: Vec<CutoverBlocker> = Vec::new();
    assert(blocker_views(blockers@) =~= Seq::empty());
    let shown_watermark = decimal_text(watermark);
    let shown_fence = decimal_text(fence);
    let shown_gaps = decimal_text(gap_count);
    let shown_collisions = decimal_text(collision_count);
    add_blocker(
        &mut blockers,
        !covered,
        state.fence_append_seq,
        text4(
            "bridge watermark ",
            shown_watermark.as_str(),
            " is below fence append_seq ",
            shown_fence.as_str(),
        ),
    );
    add_blocker(
        &mut blockers,
        gap_count > 0,
        Some(fence),
        text2(shown_gaps.as_str(), " unresolved identity derivation gap(s)"),
    );
    add_blocker(
        &mut blockers,
        collision_count > 0,
        None,
        text2(shown_collisions.as_str(), " canonical exact-compare collision group(s)"),
    );
    let fixture_reason = if fixture.is_some() {
        "retry fixture identity or existing-id dry-run failed".to_owned()
    } else {
        "retry fixture is required".to_owned()
    };
    add_blocker(&mut blockers, !passes, None, fixture_reason);
    add_blocker(
        &mut blockers,
        state.phase != CutoverPhase::Draining,
        state.fence_append_seq,
        text3("unit is in ", state.phase.as_str(), ", expected draining"),
    );
    let ready = blockers.len() == 0;
    CutoverReadinessReport {
        state,
        bridge_watermark: watermark,
        bridge_lag: lag,
        watermark_covered: covered,
        unresolved_gap_count: gap_count,
        exact_compare_error_count: collision_count,
        fixture_identity_stable: stable,
        dry_run_passed: passes,
        candidate_count: candidates.len() as u64,
        multiplicity_count,
        collision_count,
        blockers,
        ready,
    }
}

/// Whether a unit is ready.
pub fn cutover_readiness(
    state: CutoverState,
    watermark: u64,
    gaps: &[BridgeGap],
    candidates: &[UnitCandidate],
    fixture: Option<&CutoverFixture>,
    fixture_candidates: &[BridgeCandidate],
) -> (r: CutoverReadinessReport)
    ensures
        reports(
            r,
            state,
            watermark,
            gaps@,
            candidates@,
            match fixture {
                Some(f) => Some(*f),
                None => None,
            },
            fixture matches Some(f) && crate::json::json_parse(f.canonical_json@) is Some,
            fixture_candidates@,
        ),
{
    let is_json = match fixture {
        Some(f) => parse_json(f.canonical_json.as_str()).is_ok(),
        None => false,
    };
    readiness_for(state, watermark, gaps, candidates, fixture, is_json, fixture_candidates)
}

/// The reasons of blockers.
pub open spec fn reasons(blockers: Seq<CutoverBlocker>) -> Seq<Seq<char>> {
    blockers.map_values(|b: CutoverBlocker| b.reason@)
}

/// What activating a unit records: nothing may stand in the way.
pub open spec fn activate_decision(
    report: CutoverReadinessReport,
    authority: Seq<char>,
    reason: Seq<char>,
) -> Result<PlanView, StorageErrorView> {
    if !report.ready {
        Err(
            StorageErrorView::CutoverConflict(
                "cutover activation blocked: "@ + crate::text::join(
                    reasons(report.blockers@),
                    "; "@,
                ),
            ),
        )
    } else {
        raised(report.state, CutoverPhase::V2Active, CutoverApiVersion::V2, authority, reason)
    }
}

/// What activating a unit records.
pub fn cutover_activate(report: &CutoverReadinessReport, authority: &str, reason: &str) -> (r: Result<
    PlannedTransition,
    StorageError,
>)
    ensures
        plan_result(r) == activate_decision(*report, authority@, reason@),
{
    if !report.ready {
        let mut texts: Vec<String> = Vec::new();
        let mut i: usize = 0;
        while i < report.blockers.len()
            invariant
                i <= report.blockers@.len(),
                texts@.len() == i,
                forall|j: int| 0 <= j < i ==> (#[trigger] texts@[j])@ == report.blockers@[j].reason@,
            decreases report.blockers@.len() - i,
        {
            texts.push(report.blockers[i].reason.clone());
            i = i + 1;
        }
        assert(crate::text::strings(texts@) =~= reasons(report.blockers@));
        let joined = join_strings(texts.as_slice(), "; ");
        return Err(
            StorageError::CutoverConflict(text2("cutover activation blocked: ", joined.as_str())),
        );
    }
    raise(&report.state, CutoverPhase::V2Active, CutoverApiVersion::V2, authority, reason)
}

/// How the cutover of a unit is doing.
#[derive(Debug)]
pub struct CutoverHealth {
    pub state: CutoverState,
    pub bridge_watermark: u64,
    pub bridge_lag: u64,
    pub candidate_count: u64,
    pub gap_count: u64,
    pub multiplicity_count: u64,
    pub collision_count: u64,
    pub bridge_duplicate_hit_count: u64,
    pub stale_v1_rejection_count: u64,
}

/// How the cutover of a unit is doing; the lag is counted up to the fence, where there is one.
pub fn cutover_health(
    state: CutoverState,
    watermark: u64,
    gaps: &[BridgeGap],
    candidates: &[UnitCandidate],
    metrics: Option<(u64, u64)>,
) -> (r: CutoverHealth)
    ensures
        r.state == state,
        r.bridge_watermark == watermark,
        r.bridge_lag == (match state.fence_append_seq {
            Some(f) => less(f, watermark),
            None => 0,
        }),
        r.candidate_count == candidates@.len(),
        r.gap_count == gaps_up_to(gaps@, state.source_instance_id@, u64::MAX),
        r.multiplicity_count == groups(candidates@, candidates@.len()),
        r.collision_count == collisions(candidates@, candidates@.len()),
        (r.bridge_duplicate_hit_count, r.stale_v1_rejection_count) == (match metrics {
            Some(m) => m,
            None => (0, 0),
        }),
{
    let lag: u64 = match state.fence_append_seq {
        Some(f) => {
            if f >= watermark {
                f - watermark
            } else {
                0
            }
        },
        None => 0,
    };
    let gap_count = count_gaps(gaps, state.source_instance_id.as_str(), u64::MAX);
    let (multiplicity_count, collision_count) = count_groups(candidates);
    let (hits, rejections) = match metrics {
        Some(m) => m,
        None => (0, 0),
    };
    CutoverHealth {
        state,
        bridge_watermark: watermark,
        bridge_lag: lag,
        candidate_count: candidates.len() as u64,
        gap_count,
        multiplicity_count,
        collision_count,
        bridge_duplicate_hit_count: hits,
        stale_v1_rejection_count: rejections,
    }
}

/// Whether an entry is one that a plan records for a unit in the given state.
pub open spec fn is_planned(state: CutoverState, row: TransitionView) -> bool {
    ||| exists|tail: u64, a: Seq<char>, b: Seq<char>|
        #[trigger] drain_decision(state, tail, a, b) matches Ok(p) && p.row == row
    ||| exists|a: Seq<char>, b: Seq<char>|
        #[trigger] rollback_decision(state, a, b) matches Ok(p) && p.row == row
    ||| exists|report: CutoverReadinessReport, a: Seq<char>, b: Seq<char>|
        {
            &&& report.state == state
            &&& state.phase == CutoverPhase::Draining
            &&& #[trigger] activate_decision(report, a, b) matches Ok(p)
            &&& p.row == row
        }
    ||| exists|appended: Seq<u64>|
        #[trigger] commit_decision(state, appended) matches Some(p) && p.row == row
}

proof fn least_exists(numbers: Seq<u64>)
    requires
        numbers.len() > 0,
    ensures
        least(numbers) is Some,
{
}

/// Whatever is planned for a unit can be recorded: the log with it is valid and leads to the phase
/// and the generation that the plan names.
pub proof fn plans_extend_the_log(
    unit: Seq<char>,
    rows: Seq<TransitionView>,
    state: CutoverState,
    row: TransitionView,
)
    requires
        folded(unit, rows) == Ok::<Option<Progress>, PersistenceErrorView>(
            Some(progress_of(state)),
        ),
        is_planned(state, row),
    ensures
        folded(unit, rows.push(row)) matches Ok(Some(p)) && phase_name(p.phase) == row.to_phase
            && p.generation == row.generation,
{
    assert(rows.push(row).drop_last() =~= rows);
    phases_are_read_back(CutoverPhase::V1Active);
    phases_are_read_back(CutoverPhase::Draining);
    phases_are_read_back(CutoverPhase::V2Active);
    phases_are_read_back(CutoverPhase::V2Committed);
    if exists|appended: Seq<u64>|
        #[trigger] commit_decision(state, appended) matches Some(p) && p.row == row {
        let appended = choose|appended: Seq<u64>|
            #[trigger] commit_decision(state, appended) matches Some(p) && p.row == row;
        least_exists(appended);
    }
}

/// A unit that is reported ready is being drained, the bridge has come up to its fence, every
/// identity up to there could be told, and no two observations of one identity differ.
pub proof fn ready_units_are_bridged(
    r: CutoverReadinessReport,
    state: CutoverState,
    watermark: u64,
    gaps: Seq<BridgeGap>,
    candidates: Seq<UnitCandidate>,
    fixture: Option<CutoverFixture>,
    fixture_is_json: bool,
    fixture_candidates: Seq<BridgeCandidate>,
)
    requires
        reports(
            r,
            state,
            watermark,
            gaps,
            candidates,
            fixture,
            fixture_is_json,
            fixture_candidates,
        ),
        r.ready,
    ensures
        state.phase == CutoverPhase::Draining,
        state.fence_append_seq matches Some(fence) && watermark >= fence,
        gaps_up_to(gaps, state.source_instance_id@, fence_of(state)) == 0,
        collisions(candidates, candidates.len()) == 0,
        fixture matches Some(f) && fixture_retries(f, fixture_candidates),
{
    assert(r.blockers@.len() == blocker_views(r.blockers@).len());
}

/// A unit that is registered starts with the first version and its first generation.
pub proof fn registration_starts_the_log(
    unit: Seq<char>,
    authority: Seq<char>,
    reason: Seq<char>,
)
    ensures
        register_decision(None, authority, reason) matches Ok(Some(p)) ==> folded(
            unit,
            seq![p.row],
        ) == Ok::<Option<Progress>, PersistenceErrorView>(
            Some(
                Progress {
                    phase: CutoverPhase::V1Active,
                    generation: 1,
                    fence: None,
                    first: None,
                },
            ),
        ),
{
    phases_are_read_back(CutoverPhase::V1Active);
    match register_decision(None, authority, reason) {
        Ok(Some(p)) => {
            assert(seq![p.row].drop_last() =~= Seq::empty());
            assert(folded(unit, Seq::empty()) == Ok::<Option<Progress>, PersistenceErrorView>(None));
        },
        _ => {},
    }
}

/// After the first observation of the second version nothing can follow: no entry can be added to
/// the log, and a rollback is refused.
pub proof fn committed_units_stay_committed(
    unit: Seq<char>,
    rows: Seq<TransitionView>,
    row: TransitionView,
    state: CutoverState,
    authority: Seq<char>,
    reason: Seq<char>,
)
    requires
        folded(unit, rows) == Ok::<Option<Progress>, PersistenceErrorView>(
            Some(progress_of(state)),
        ),
        state.phase == CutoverPhase::V2Committed,
    ensures
        folded(unit, rows.push(row)) is Err,
        rollback_decision(state, authority, reason) matches Err(
            StorageErrorView::CutoverRollbackRefused(_),
        ),
{
    assert(rows.push(row).drop_last() =~= rows);
}

/// At no time are both versions admitted to a unit that is registered.
pub proof fn one_version_is_admitted(
    state: CutoverState,
    unit: Seq<char>,
    first: Option<u64>,
    second: Option<u64>,
    first_active: bool,
    second_active: bool,
)
    ensures
        denial(Some(state), unit, CutoverApiVersion::V1, first, first_active) is Some || denial(
            Some(state),
            unit,
            CutoverApiVersion::V2,
            second,
            second_active,
        ) is Some,
{
}

} // verus!
