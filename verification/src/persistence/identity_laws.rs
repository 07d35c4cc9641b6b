//! What appends, the bridge and their batches keep to.

use vstd::prelude::*;
use vstd::string::*;

use crate::domain::Observation;
use crate::json::JsonView;
use crate::runtime::tree::TreeView;

use super::error::PersistenceErrorView;
use super::identity::{
    AppendStepView, BridgeCandidate, BridgeEntryView, DurableAppendOutcome, DurableView,
    ExistingView, IdentityBridgeResolution, StoredObservation,
};

verus! {

/// A known identity is answered as a duplicate just where digest and content are the same, and as a
/// collision where one of them differs; the answer names the observation that is stored. Where the
/// digests agree and the stored content is missing, nothing can be answered.
pub proof fn known_identities_are_compared_by_content(existing: ExistingView, canonical: Seq<char>)
    ensures
        ({
            let r = super::identity::known_outcome(existing, canonical);
            let digest = crate::digest::hex_text(
                crate::digest::sha256(vstd::utf8::encode_utf8(canonical)),
            );
            &&& r == Ok::<DurableView, PersistenceErrorView>(DurableView::Duplicate(existing.id))
                <==> existing.canonical_json_sha256 == digest && existing.canonical_json == Some(
                canonical,
            )
            &&& r == Ok::<DurableView, PersistenceErrorView>(
                DurableView::CanonicalCollision(existing.id),
            ) <==> existing.canonical_json_sha256 != digest || (existing.canonical_json is Some
                && existing.canonical_json != Some(canonical))
            &&& r is Err <==> existing.canonical_json_sha256 == digest && existing.canonical_json
                is None
        }),
{
}

/// A new identity is written under its own key, with the digest of its content, on the leaf that its
/// routing key leads to. An observation without a canonical content, or that cannot be routed, is
/// refused whatever is stored.
pub proof fn new_identities_are_written(
    tree: TreeView,
    observation: Observation,
    existing: Option<ExistingView>,
)
    ensures
        ({
            let content = crate::json::as_text(
                crate::json::member(observation.meta@, "canonical_json"@),
            );
            let r = super::identity::append_decision(tree, observation, existing);
            &&& super::identity::routing_of(observation) is Err || content is None ==> r is Err
            &&& super::identity::routing_of(observation) is Ok && content is Some && existing
                is None ==> {
                let axes = super::identity::routing_of(observation)->Ok_0;
                &&& r matches Ok(AppendStepView::Insert(row))
                &&& row.identity_key == observation.idempotency_key@
                &&& row.routing_key == crate::runtime::partition::encoded_axes(axes)
                &&& row.leaf_id == crate::runtime::tree::route(
                    tree,
                    crate::runtime::partition::key_bytes(axes),
                )
                &&& row.canonical_json_sha256 == crate::digest::hex_text(
                    crate::digest::sha256(vstd::utf8::encode_utf8(content->0)),
                )
            }
            &&& r matches Ok(AppendStepView::Insert(_)) ==> existing is None
            &&& existing is Some && r is Ok ==> (r->Ok_0 matches AppendStepView::Known(outcome)
                && (outcome == DurableView::Duplicate(existing->0.id) || outcome
                == DurableView::CanonicalCollision(existing->0.id)))
        }),
{
}

/// A text of the metadata that says something.
pub open spec fn stated(value: JsonView, name: Seq<char>) -> bool {
    crate::json::member(value, name) matches Some(JsonView::Str(t)) && !crate::text::blank(t)
}

/// A text of the metadata.
pub open spec fn text_at(value: JsonView, name: Seq<char>) -> Seq<char> {
    crate::json::member(value, name)->0->Str_0
}

/// The identity of an observation is told by its metadata: the canonical content, the unit and the
/// object, each under its own name. Imported histories may name the unit otherwise, and their object
/// by session and message; other observations may not.
pub proof fn identities_are_told_by_the_metadata(
    observation: Observation,
    content: Option<JsonView>,
)
    ensures
        ({
            let meta = observation.meta@;
            let legacy = observation.schema@ == "schema:history-message"@;
            let has_unit = stated(meta, "source_instance"@) || (legacy && stated(
                meta,
                "source_instance_id"@,
            ));
            let has_object = stated(meta, "object_id"@) || (legacy && content is Some && stated(
                content->0,
                "source_session_id"@,
            ) && stated(content->0, "source_message_id"@));
            let r = super::identity::identity_inputs(observation, content);
            &&& r is Ok <==> meta is Object && stated(meta, "canonical_json"@) && content is Some
                && has_unit && has_object
            &&& r matches Ok((unit, object, canonical)) ==> {
                &&& canonical == text_at(meta, "canonical_json"@)
                &&& unit == if stated(meta, "source_instance"@) {
                    text_at(meta, "source_instance"@)
                } else {
                    text_at(meta, "source_instance_id"@)
                }
                &&& object == if stated(meta, "object_id"@) {
                    text_at(meta, "object_id"@)
                } else {
                    text_at(content->0, "source_session_id"@) + ":"@ + text_at(
                        content->0,
                        "source_message_id"@,
                    )
                }
            }
        }),
{
}

/// The key of an object's content names its unit, then the object, then the digest of the content; for
/// one object of one unit it differs just where the digests do.
pub proof fn keys_name_unit_object_and_content(
    unit: Seq<char>,
    object: Seq<char>,
    first: Seq<char>,
    second: Seq<char>,
)
    ensures
        super::identity::bridge_key(unit, object, first) == unit + ":"@ + object + ":"@
            + crate::digest::hex_text(crate::digest::sha256(vstd::utf8::encode_utf8(first))),
        super::identity::bridge_key(unit, object, first) == super::identity::bridge_key(
            unit,
            object,
            second,
        ) <==> crate::digest::text_digest(first) == crate::digest::text_digest(second),
{
    let head = unit + ":"@ + object + ":"@;
    let a = super::identity::bridge_key(unit, object, first);
    let b = super::identity::bridge_key(unit, object, second);
    assert(a == head + crate::digest::text_digest(first));
    assert(b == head + crate::digest::text_digest(second));
    if a == b {
        assert(a.skip(head.len() as int) =~= crate::digest::text_digest(first));
        assert(b.skip(head.len() as int) =~= crate::digest::text_digest(second));
    }
}

/// The bridge notes an observation as a candidate of the key of its content, unless it carries that
/// key already; an observation whose key cannot be told is noted as a gap, with the unit that it
/// states.
pub proof fn notes_follow_the_key(observation: Observation, content: Option<JsonView>)
    ensures
        ({
            let note = super::identity::bridge_note(observation, content);
            match super::identity::identity_inputs(observation, content) {
                Ok((unit, object, canonical)) => {
                    let key = super::identity::bridge_key(unit, object, canonical);
                    &&& note is Current <==> observation.idempotency_key@ == key
                    &&& note is Candidate <==> observation.idempotency_key@ != key
                    &&& note matches BridgeEntryView::Candidate {
                        v2_identity_key,
                        source,
                        canonical_json,
                    } ==> v2_identity_key == key && source == unit && canonical_json == canonical
                },
                Err(why) => {
                    &&& note is Gap
                    &&& note matches BridgeEntryView::Gap { stated, reason } ==> reason == why
                        && stated == crate::json::as_text(
                        crate::json::member(observation.meta@, "source_instance"@),
                    )
                },
            }
        }),
{
}

/// An identity stands for the oldest of its candidates; the first candidate with other content, where
/// there is one, is the collision.
pub proof fn oldest_candidates_win(
    r: IdentityBridgeResolution,
    key: Seq<char>,
    canonical_json: Seq<char>,
    candidates: Seq<BridgeCandidate>,
    i: int,
)
    requires
        super::identity::resolves(r, key, canonical_json, candidates),
    ensures
        r.v2_identity_key@ == key,
        r.multiplicity == candidates.len(),
        candidates.len() == 0 ==> r.winner is None && r.winner_append_seq is None
            && !r.canonical_collision && r.collision_append_seq is None,
        candidates.len() > 0 ==> r.winner is Some && r.winner->0@ == candidates[0].observation_id@
            && r.winner_append_seq == Some(candidates[0].append_seq),
        0 <= i < candidates.len() && candidates[i].canonical_json@ != canonical_json && (forall|
            j: int,
        |
            0 <= j < i ==> (#[trigger] candidates[j]).canonical_json@ == canonical_json)
            ==> r.canonical_collision && r.collision_append_seq == Some(candidates[i].append_seq),
        (forall|j: int|
            0 <= j < candidates.len() ==> (#[trigger] candidates[j]).canonical_json@
                == canonical_json) ==> !r.canonical_collision && r.collision_append_seq is None,
{
    super::identity::collisions_exist(candidates, canonical_json);
    collision_is_first(candidates, canonical_json);
    match super::identity::first_collision(candidates, canonical_json) {
        Some(k) => {
            if 0 <= i < candidates.len() && candidates[i].canonical_json@ != canonical_json && (
            forall|j: int| 0 <= j < i ==> (#[trigger] candidates[j]).canonical_json@
                == canonical_json) {
                if k < i {
                    assert(candidates[k].canonical_json@ == canonical_json);
                }
                if i < k {
                    assert(candidates[i].canonical_json@ == canonical_json);
                }
            }
        },
        None => {},
    }
}

proof fn collision_is_first(candidates: Seq<BridgeCandidate>, canonical_json: Seq<char>)
    ensures
        super::identity::first_collision(candidates, canonical_json) matches Some(k) ==> {
            &&& 0 <= k < candidates.len()
            &&& candidates[k].canonical_json@ != canonical_json
            &&& forall|j: int|
                0 <= j < k ==> (#[trigger] candidates[j]).canonical_json@ == canonical_json
        },
    decreases candidates.len(),
{
    if candidates.len() > 0 {
        let init = candidates.drop_last();
        collision_is_first(init, canonical_json);
        super::identity::collisions_exist(init, canonical_json);
        match super::identity::first_collision(init, canonical_json) {
            Some(k) => {
                assert forall|j: int| 0 <= j < k implies (#[trigger] candidates[j]).canonical_json@
                    == canonical_json by {
                    assert(init[j] == candidates[j]);
                }
            },
            None => {
                assert forall|j: int| 0 <= j < candidates.len() - 1 implies (
                #[trigger] candidates[j]).canonical_json@ == canonical_json by {
                    assert(init[j] == candidates[j]);
                }
            },
        }
    }
}

/// An observation of the second version is taken just where its identity can be told, it belongs to
/// the unit, and it carries the key of its content.
pub proof fn second_versions_carry_their_key(
    observation: Observation,
    unit: Seq<char>,
    content: Option<JsonView>,
)
    ensures
        ({
            let r = super::identity::v2_key(observation, unit, content);
            let inputs = super::identity::identity_inputs(observation, content);
            &&& r is Ok <==> (inputs matches Ok((own, object, canonical)) && own == unit
                && observation.idempotency_key@ == super::identity::bridge_key(
                own,
                object,
                canonical,
            ))
            &&& r matches Ok((key, canonical)) ==> key == observation.idempotency_key@ && (inputs
                matches Ok((_, _, own)) && own == canonical)
        }),
{
}

/// Of stored observations those lie beyond a watermark that were appended after it.
pub proof fn later_observations_lie_beyond(
    ledger: Seq<StoredObservation>,
    watermark: u64,
    row: StoredObservation,
)
    ensures
        super::identity::beyond(ledger, watermark).contains(row) <==> ledger.contains(row)
            && row.append_seq > watermark,
    decreases ledger.len(),
{
    if ledger.len() > 0 {
        let init = ledger.drop_last();
        later_observations_lie_beyond(init, watermark, row);
        let last = ledger.last();
        let before = super::identity::beyond(init, watermark);
        let after = super::identity::beyond(ledger, watermark);
        assert(ledger.contains(row) <==> init.contains(row) || row == last) by {
            assert(ledger =~= init.push(last));
            if init.contains(row) {
                let i = choose|i: int| 0 <= i < init.len() && init[i] == row;
                assert(ledger[i] == row);
            }
            if row == last {
                assert(ledger[ledger.len() - 1] == row);
            }
        }
        if last.append_seq > watermark {
            assert(after == before.push(last));
            if before.contains(row) {
                let i = choose|i: int| 0 <= i < before.len() && before[i] == row;
                assert(after[i] == row);
            }
            if row == last {
                assert(after[after.len() - 1] == row);
            }
            if after.contains(row) && row != last {
                let i = choose|i: int| 0 <= i < after.len() && after[i] == row;
                assert(before[i] == row);
            }
        }
    }
}

/// A round notes of each observation that it read what its content gives, under the position where it
/// was appended; what was noted there before stays, and an observation that carries its key is not
/// noted.
pub proof fn rounds_note_what_they_read(
    notes: Map<u64, (Seq<char>, BridgeEntryView)>,
    rows: Seq<StoredObservation>,
    i: int,
)
    requires
        0 <= i < rows.len(),
        forall|j: int, k: int|
            0 <= j < k < rows.len() ==> (#[trigger] rows[j]).append_seq != (
            #[trigger] rows[k]).append_seq,
    ensures
        ({
            let after = super::identity::with_notes(notes, rows);
            let at = rows[i].append_seq;
            let note = super::identity::bridge_note(
                rows[i].observation,
                super::identity::canonical_content(rows[i].observation),
            );
            &&& notes.contains_key(at) ==> after.contains_key(at) && after[at] == notes[at]
            &&& !notes.contains_key(at) && note is Current ==> !after.contains_key(at)
            &&& !notes.contains_key(at) && !(note is Current) ==> after.contains_key(at)
                && after[at] == (rows[i].observation.id@, note)
        }),
    decreases rows.len(),
{
    let init = rows.drop_last();
    let last = rows.len() - 1;
    assert forall|j: int, k: int| 0 <= j < k < init.len() implies (#[trigger] init[j]).append_seq
        != (#[trigger] init[k]).append_seq by {
        assert(init[j] == rows[j] && init[k] == rows[k]);
    }
    if i < last {
        rounds_note_what_they_read(notes, init, i);
        assert(init[i] == rows[i]);
        assert(rows[i].append_seq != rows[last].append_seq);
    } else {
        others_stay(notes, init, rows[last].append_seq);
    }
}

proof fn others_stay(
    notes: Map<u64, (Seq<char>, BridgeEntryView)>,
    rows: Seq<StoredObservation>,
    at: u64,
)
    ensures
        (forall|i: int| 0 <= i < rows.len() ==> (#[trigger] rows[i]).append_seq != at)
            ==> super::identity::with_notes(notes, rows).contains_key(at) == notes.contains_key(at)
            && super::identity::with_notes(notes, rows)[at] == notes[at],
    decreases rows.len(),
{
    if rows.len() > 0 {
        let init = rows.drop_last();
        others_stay(notes, init, at);
        if forall|i: int| 0 <= i < rows.len() ==> (#[trigger] rows[i]).append_seq != at {
            assert forall|i: int| 0 <= i < init.len() implies (#[trigger] init[i]).append_seq != at by {
                assert(rows[i] == init[i]);
            }
            assert(rows[rows.len() - 1].append_seq != at);
        }
    }
}

/// A watermark after a round stands at the last observation that was read, and where it stood where
/// none was.
pub proof fn watermarks_stand_at_the_last_read(previous: u64, rows: Seq<StoredObservation>)
    ensures
        rows.len() == 0 ==> super::identity::watermark_after(previous, rows) == previous,
        rows.len() > 0 ==> super::identity::watermark_after(previous, rows) == rows[rows.len()
            - 1].append_seq,
{
}

proof fn first_key_is_first(observations: Seq<Observation>, key: Seq<char>)
    ensures
        match super::identity::first_with_key(observations, key) {
            Some(i) => {
                &&& 0 <= i < observations.len()
                &&& observations[i].idempotency_key@ == key
                &&& forall|j: int|
                    0 <= j < i ==> (#[trigger] observations[j]).idempotency_key@ != key
            },
            None => forall|j: int|
                0 <= j < observations.len() ==> (#[trigger] observations[j]).idempotency_key@
                    != key,
        },
    decreases observations.len(),
{
    if observations.len() > 0 {
        let init = observations.drop_last();
        first_key_is_first(init, key);
        let last = observations.len() - 1;
        match super::identity::first_with_key(init, key) {
            Some(i) => {
                assert forall|j: int| 0 <= j < i implies (
                #[trigger] observations[j]).idempotency_key@ != key by {
                    assert(init[j] == observations[j]);
                }
            },
            None => {
                assert forall|j: int| 0 <= j < last implies (
                #[trigger] observations[j]).idempotency_key@ != key by {
                    assert(init[j] == observations[j]);
                }
            },
        }
    }
}

proof fn step_at(
    tree: TreeView,
    observations: Seq<Observation>,
    existing: Seq<Option<ExistingView>>,
    n: int,
    i: int,
)
    requires
        0 <= i < n,
        super::identity::batch_decision(tree, observations, existing, n) is Ok,
    ensures
        super::identity::batch_decision(tree, observations, existing, n)->Ok_0.len() == n,
        super::identity::append_decision(
            tree,
            observations[i],
            super::identity::known_in_turn(observations, existing, i),
        ) == Ok::<AppendStepView, PersistenceErrorView>(
            super::identity::batch_decision(tree, observations, existing, n)->Ok_0[i],
        ),
    decreases n,
{
    if n == 1 {
        assert(super::identity::batch_decision(tree, observations, existing, 0) == Ok::<
            Seq<AppendStepView>,
            PersistenceErrorView,
        >(Seq::empty()));
    } else {
        if i < n - 1 {
            step_at(tree, observations, existing, n - 1, i);
        } else {
            step_at(tree, observations, existing, n - 1, 0);
        }
    }
}

/// A batch answers each of its observations in turn, as many as it has. An observation is written
/// just where nothing was stored under its identity and no earlier one of the batch has it; any other
/// is answered with the one that was stored, or else with the first of the batch that has it.
pub proof fn batches_answer_each_in_turn(
    tree: TreeView,
    observations: Seq<Observation>,
    existing: Seq<Option<ExistingView>>,
    i: int,
    first: int,
)
    requires
        existing.len() == observations.len(),
        0 <= i < observations.len(),
        super::identity::batch_decision(
            tree,
            observations,
            existing,
            observations.len() as int,
        ) is Ok,
    ensures
        ({
            let steps = super::identity::batch_decision(
                tree,
                observations,
                existing,
                observations.len() as int,
            )->Ok_0;
            let key = observations[i].idempotency_key@;
            &&& steps.len() == observations.len()
            &&& steps[i] is Insert <==> existing[i] is None && forall|j: int|
                0 <= j < i ==> (#[trigger] observations[j]).idempotency_key@ != key
            &&& steps[i] matches AppendStepView::Insert(row) ==> row.identity_key == key
            &&& steps[i] matches AppendStepView::Known(outcome) ==> {
                &&& existing[i] matches Some(known) ==> outcome == DurableView::Duplicate(known.id)
                    || outcome == DurableView::CanonicalCollision(known.id)
                &&& existing[i] is None && 0 <= first < i && observations[first].idempotency_key@
                    == key && (forall|j: int|
                    0 <= j < first ==> (#[trigger] observations[j]).idempotency_key@ != key)
                    ==> outcome == DurableView::Duplicate(observations[first].id@) || outcome
                    == DurableView::CanonicalCollision(observations[first].id@)
            }
        }),
{
    step_at(tree, observations, existing, observations.len() as int, i);
    let key = observations[i].idempotency_key@;
    let known = super::identity::known_in_turn(observations, existing, i);
    new_identities_are_written(tree, observations[i], known);
    first_key_is_first(observations.take(i), key);
    if existing[i] is None {
        match super::identity::first_with_key(observations.take(i), key) {
            Some(k) => {
                assert(observations.take(i)[k] == observations[k]);
                assert(observations[k].idempotency_key@ == key);
                if 0 <= first < i && observations[first].idempotency_key@ == key && (forall|j: int|
                    0 <= j < first ==> (#[trigger] observations[j]).idempotency_key@ != key) {
                    if k < first {
                        assert(observations[k].idempotency_key@ != key);
                    }
                    if first < k {
                        assert(observations.take(i)[first].idempotency_key@ != key);
                    }
                }
            },
            None => {
                assert forall|j: int| 0 <= j < i implies (
                #[trigger] observations[j]).idempotency_key@ != key by {
                    assert(observations.take(i)[j] == observations[j]);
                }
            },
        }
    }
}

/// What a step is answered: what was known, or that the observation itself was appended.
pub proof fn written_observations_are_answered_as_appended(step: AppendStepView, id: Seq<char>)
    ensures
        step is Insert ==> super::identity::step_outcome(step, id) == DurableView::Appended(id),
        step matches AppendStepView::Known(outcome) ==> super::identity::step_outcome(step, id)
            == outcome,
{
}

/// Of a batch of the second version the duplicates count that the bridge answered, and no others; the
/// observations that were added are named in order.
pub proof fn bridged_batches_are_counted(
    steps: Seq<(DurableAppendOutcome, bool)>,
    step: (DurableAppendOutcome, bool),
)
    ensures
        ({
            let hits = Set::new(
                |i: int| 0 <= i < steps.len() && steps[i].1 && steps[i].0 is Duplicate,
            );
            hits.finite() && super::identity::bridge_hits(steps) == hits.len()
        }),
        super::identity::appended_ids(Seq::empty()).len() == 0,
        super::identity::appended_ids(steps.push(step)) == match step.0 {
            DurableAppendOutcome::Appended(id) => super::identity::appended_ids(steps).push(id@),
            _ => super::identity::appended_ids(steps),
        },
    decreases steps.len(),
{
    assert(steps.push(step).drop_last() =~= steps);
    let hits = Set::new(|i: int| 0 <= i < steps.len() && steps[i].1 && steps[i].0 is Duplicate);
    if steps.len() == 0 {
        assert(hits =~= Set::empty());
    } else {
        let init = steps.drop_last();
        bridged_batches_are_counted(init, step);
        let last = steps.len() - 1;
        let before = Set::new(|i: int| 0 <= i < init.len() && init[i].1 && init[i].0 is Duplicate);
        if steps[last].1 && steps[last].0 is Duplicate {
            assert(hits =~= before.insert(last));
        } else {
            assert(hits =~= before);
        }
    }
}

} // verus!
