//! Laws of what adapters owe.

use vstd::prelude::*;
use vstd::string::*;

use crate::adapter::conformance::{AdapterTrial, ObservationDraft};
use crate::registry::entity_type::{EntityType, SeedEntityType};
use crate::time::Timestamp;

verus! {

/// An adapter keeps its contract just where its sign of life and every one of its drafts name it and
/// its system, every draft has a key that is not blank, and a cursor that it hands out is not blank.
pub proof fn adapters_name_themselves(trial: AdapterTrial)
    ensures
        crate::adapter::conformance::conforms(trial) <==> {
            &&& trial.heartbeat.observer@ == trial.observer@
            &&& trial.heartbeat.source_system is Some
            &&& trial.heartbeat.source_system->0@ == trial.source_system@
            &&& forall|i: int|
                0 <= i < trial.drafts@.len() ==> (#[trigger] trial.drafts@[i]).observer@
                    == trial.observer@ && trial.drafts@[i].source_system is Some
                    && trial.drafts@[i].source_system->0@ == trial.source_system@
                    && !crate::text::blank(trial.drafts@[i].idempotency_key@)
            &&& trial.next_cursor is Some ==> !crate::text::blank(trial.next_cursor->0@)
        },
{
    let plain = forall|i: int|
        0 <= i < trial.drafts@.len() ==> (#[trigger] trial.drafts@[i]).observer@ == trial.observer@
            && trial.drafts@[i].source_system is Some && trial.drafts@[i].source_system->0@
            == trial.source_system@ && !crate::text::blank(trial.drafts@[i].idempotency_key@);
    let told = forall|i: int|
        0 <= i < trial.drafts@.len() ==> crate::adapter::conformance::draft_conforms(
            #[trigger] trial.drafts@[i],
            trial,
        );
    if plain {
        assert(told);
    }
    if told {
        assert forall|i: int| 0 <= i < trial.drafts@.len() implies (
        #[trigger] trial.drafts@[i]).observer@ == trial.observer@
            && trial.drafts@[i].source_system is Some && trial.drafts@[i].source_system->0@
            == trial.source_system@ && !crate::text::blank(trial.drafts@[i].idempotency_key@) by {
            assert(crate::adapter::conformance::draft_conforms(trial.drafts@[i], trial));
        }
    }
}

/// Two drafts carry the same canonical content where both carry none under `canonical_json`, or both
/// carry values that are alike.
pub proof fn drafts_are_compared_by_canonical_content(
    before: ObservationDraft,
    after: ObservationDraft,
)
    ensures
        ({
            let a = crate::json::member(before.meta@, "canonical_json"@);
            let b = crate::json::member(after.meta@, "canonical_json"@);
            crate::adapter::conformance::same_canonical(before, after) <==> (a is None && b is None)
                || (a is Some && b is Some && crate::json::alike(a->0, b->0))
        }),
{
}

/// A seed is registered by the system, at the time it is registered, with everything that it says.
pub proof fn seeds_are_registered_as_they_are(r: EntityType, seed: SeedEntityType, now: Timestamp, i: int)
    requires
        crate::registry::entity_type::registers(r, seed, now),
    ensures
        r.id@ == seed.id@,
        r.name@ == seed.name@,
        r.description@ == seed.description@,
        r.parent is Some <==> seed.parent is Some,
        r.parent is Some ==> r.parent->0@ == seed.parent->0@,
        r.attributes@.len() == seed.attributes@.len(),
        0 <= i < seed.attributes@.len() ==> r.attributes@[i]@ == seed.attributes@[i]@,
        r.registered_by is Some,
        r.registered_by->0@ == "system"@,
        r.registered_at == Some(now),
{
    assert(crate::text::strings(r.attributes@).len() == r.attributes@.len());
    assert(crate::text::strings(seed.attributes@).len() == seed.attributes@.len());
    if 0 <= i < seed.attributes@.len() {
        assert(crate::text::strings(r.attributes@)[i] == r.attributes@[i]@);
        assert(crate::text::strings(seed.attributes@)[i] == seed.attributes@[i]@);
    }
}

/// A name is normalized character by character: of ASCII the letters and digits count, in small
/// letters, and nothing else does.
pub proof fn names_are_normalized_by_character(name: Seq<char>, c: char)
    requires
        c <= '\u{7f}',
    ensures
        crate::adapter::writeback::notion::naming::normalized_name(Seq::empty()) == Seq::<
            char,
        >::empty(),
        crate::text::is_alnum(c) ==> crate::adapter::writeback::notion::naming::normalized_name(
            name.push(c),
        ) == crate::adapter::writeback::notion::naming::normalized_name(name).push(
            crate::text::lower(c),
        ),
        !crate::text::is_alnum(c) ==> crate::adapter::writeback::notion::naming::normalized_name(
            name.push(c),
        ) == crate::adapter::writeback::notion::naming::normalized_name(name),
{
    assert(name.push(c).drop_last() =~= name);
    let before = crate::adapter::writeback::notion::naming::normalized_name(name);
    assert(before + seq![crate::text::lower(c)] =~= before.push(crate::text::lower(c)));
}

/// Of texts with the same name the first one is kept, and every text that has a name has its name
/// kept.
pub proof fn the_first_text_of_a_name_is_kept(texts: Seq<Seq<char>>, i: int)
    requires
        0 <= i < texts.len(),
        crate::adapter::writeback::notion::naming::normalized_name(texts[i]).len() > 0,
        forall|j: int|
            0 <= j < i ==> crate::adapter::writeback::notion::naming::normalized_name(
                #[trigger] texts[j],
            ) != crate::adapter::writeback::notion::naming::normalized_name(texts[i]),
    ensures
        crate::adapter::writeback::notion::naming::once_by_name(texts).contains(texts[i]),
    decreases texts.len(),
{
    let rest = texts.drop_last();
    let now = crate::adapter::writeback::notion::naming::once_by_name(texts);
    assert(forall|j: int| 0 <= j < rest.len() ==> #[trigger] rest[j] == texts[j]);
    if i < rest.len() {
        assert forall|j: int| 0 <= j < i implies crate::adapter::writeback::notion::naming::normalized_name(
            #[trigger] rest[j],
        ) != crate::adapter::writeback::notion::naming::normalized_name(rest[i]) by {
            assert(rest[j] == texts[j]);
        }
        the_first_text_of_a_name_is_kept(rest, i);
        let before = crate::adapter::writeback::notion::naming::once_by_name(rest);
        let k = choose|k: int| 0 <= k < before.len() && before[k] == rest[i];
        assert(now[k] == texts[i]);
    } else {
        assert(crate::adapter::writeback::notion::naming::first_of_its_name(texts, i));
        assert(now[now.len() - 1] == texts[i]);
    }
}

} // verus!
