//! What every adapter of a source owes the lake.

use vstd::prelude::*;

use crate::domain::{IdempotencyKey, ObserverRef, SourceSystemRef};
use crate::json::Json;
use crate::text::{is_blank, str_eq};

verus! {

/// The member of a draft's metadata that holds its canonical content.
pub const CANONICAL_JSON_META_KEY: &'static str = "canonical_json";

/// An observation before it is appended, as far as adapters are held to something.
#[derive(Debug)]
pub struct ObservationDraft {
    pub observer: ObserverRef,
    pub source_system: Option<SourceSystemRef>,
    pub idempotency_key: IdempotencyKey,
    pub meta: Json,
}

/// A sign of life of an adapter.
#[derive(Debug)]
pub struct Heartbeat {
    pub observer: ObserverRef,
    pub source_system: Option<SourceSystemRef>,
}

/// What an adapter showed when it was tried: its references, its sign of life, the drafts of some
/// raw data, and the cursor after a fetch that succeeded.
#[derive(Debug)]
pub struct AdapterTrial {
    pub observer: ObserverRef,
    pub source_system: SourceSystemRef,
    pub heartbeat: Heartbeat,
    pub drafts: Vec<ObservationDraft>,
    pub next_cursor: Option<String>,
}

/// Whether an optional reference names a system.
pub open spec fn names(reference: Option<SourceSystemRef>, system: SourceSystemRef) -> bool {
    reference matches Some(r) && r@ == system@
}

/// Whether a draft names its adapter and carries a key.
pub open spec fn draft_conforms(draft: ObservationDraft, trial: AdapterTrial) -> bool {
    &&& draft.observer@ == trial.observer@
    &&& names(draft.source_system, trial.source_system)
    &&& !crate::text::blank(draft.idempotency_key@)
}

/// Whether an adapter keeps the contract of adapters: its sign of life and its drafts name it, its
/// drafts carry keys, and a cursor that it hands out is not blank.
pub open spec fn conforms(trial: AdapterTrial) -> bool {
    &&& trial.heartbeat.observer@ == trial.observer@
    &&& names(trial.heartbeat.source_system, trial.source_system)
    &&& forall|i: int|
        0 <= i < trial.drafts@.len() ==> draft_conforms(#[trigger] trial.drafts@[i], trial)
    &&& trial.next_cursor matches Some(cursor) ==> !crate::text::blank(cursor@)
}

fn names_system(reference: &Option<SourceSystemRef>, system: &SourceSystemRef) -> (r: bool)
    ensures
        r == names(*reference, *system),
{
    match reference {
        Some(given) => str_eq(given.as_str(), system.as_str()),
        None => false,
    }
}

/// Whether an adapter keeps the contract of adapters.
pub fn source_adapter_contract(trial: &AdapterTrial) -> (r: bool)
    ensures
        r == conforms(*trial),
{
    if !str_eq(trial.heartbeat.observer.as_str(), trial.observer.as_str()) {
        return false;
    }
    if !names_system(&trial.heartbeat.source_system, &trial.source_system) {
        return false;
    }
    let mut i: usize = 0;
    while i < trial.drafts.len()
        invariant
            i <= trial.drafts.len(),
            forall|j: int| 0 <= j < i ==> draft_conforms(#[trigger] trial.drafts@[j], *trial),
        decreases trial.drafts.len() - i,
    {
        let draft = &trial.drafts[i];
        if !str_eq(draft.observer.as_str(), trial.observer.as_str()) || !names_system(
            &draft.source_system,
            &trial.source_system,
        ) || is_blank(draft.idempotency_key.as_str()) {
            assert(!draft_conforms(trial.drafts@[i as int], *trial));
            return false;
        }
        i = i + 1;
    }
    match &trial.next_cursor {
        Some(cursor) => !is_blank(cursor.as_str()),
        None => true,
    }
}

/// The canonical content that a draft carries, whatever kind of value it is.
pub open spec fn canonical_member(draft: ObservationDraft) -> Option<crate::json::JsonView> {
    crate::json::member(draft.meta@, CANONICAL_JSON_META_KEY@)
}

/// Whether two drafts carry the same canonical content.
pub open spec fn same_canonical(before: ObservationDraft, after: ObservationDraft) -> bool {
    match (canonical_member(before), canonical_member(after)) {
        (Some(a), Some(b)) => crate::json::alike(a, b),
        (None, None) => true,
        _ => false,
    }
}

fn same_canonical_member(before: &ObservationDraft, after: &ObservationDraft) -> (r: bool)
    ensures
        r == same_canonical(*before, *after),
{
    match (
        before.meta.get(CANONICAL_JSON_META_KEY),
        after.meta.get(CANONICAL_JSON_META_KEY),
    ) {
        (Some(a), Some(b)) => a.equals(b),
        (None, None) => true,
        _ => false,
    }
}

/// Whether a change of side state left the identity of a draft alone: its key and its canonical
/// content are what they were.
pub fn canonical_identity_stable_under_side_state_change(
    before: &ObservationDraft,
    after: &ObservationDraft,
) -> (r: bool)
    ensures
        r == (before.idempotency_key@ == after.idempotency_key@ && same_canonical(*before, *after)),
{
    str_eq(before.idempotency_key.as_str(), after.idempotency_key.as_str())
        && same_canonical_member(before, after)
}

/// Whether a change of content changed the identity of a draft: its key and its canonical content
/// are both different.
pub fn canonical_identity_changes_on_content_change(
    before: &ObservationDraft,
    after: &ObservationDraft,
) -> (r: bool)
    ensures
        r == (before.idempotency_key@ != after.idempotency_key@ && !same_canonical(
            *before,
            *after,
        )),
{
    !str_eq(before.idempotency_key.as_str(), after.idempotency_key.as_str())
        && !same_canonical_member(before, after)
}

} // verus!
