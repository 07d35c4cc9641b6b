//! Laws of the store of observations.

use vstd::prelude::*;
use vstd::string::*;

use crate::domain::Observation;
use crate::json::JsonView;
use crate::lake::store::OutcomeView;

verus! {

/// The position of a key is that of the first observation under it.
pub proof fn keys_stand_for_their_first_observation(
    observations: Seq<Observation>,
    key: Seq<char>,
)
    ensures
        match crate::lake::store::position_of(observations, key) {
            Some(i) => 0 <= i < observations.len() && observations[i].idempotency_key@ == key
                && forall|j: int|
                0 <= j < i ==> (#[trigger] observations[j]).idempotency_key@ != key,
            None => forall|j: int|
                0 <= j < observations.len() ==> (#[trigger] observations[j]).idempotency_key@
                    != key,
        },
    decreases observations.len(),
{
    if observations.len() > 0 {
        let rest = observations.drop_last();
        keys_stand_for_their_first_observation(rest, key);
        assert(forall|j: int| 0 <= j < rest.len() ==> #[trigger] rest[j] == observations[j]);
        match crate::lake::store::position_of(rest, key) {
            Some(i) => {
                assert forall|j: int| 0 <= j < i implies (
                #[trigger] observations[j]).idempotency_key@ != key by {
                    assert(rest[j].idempotency_key@ != key);
                }
            },
            None => {
                assert forall|j: int| 0 <= j < observations.len() - 1 implies (
                #[trigger] observations[j]).idempotency_key@ != key by {
                    assert(rest[j].idempotency_key@ != key);
                }
            },
        }
    }
}

/// The canonical content of an observation is the text that its metadata give under
/// `canonical_json`.
pub proof fn canonical_contents_stand_in_the_metadata(observation: Observation, content: Seq<char>)
    ensures
        crate::lake::store::canonical_text(observation) == Some(content) <==> crate::json::member(
            observation.meta@,
            "canonical_json"@,
        ) == Some(JsonView::Str(content)),
{
}

/// An observation under a new key is added behind the others and answered with its own identity.
/// One under a key that is there is not added; it is answered with the identity of the first one
/// under that key, as a repetition where both hold the same canonical content and as a conflict
/// where they do not.
pub proof fn appends_are_answered_by_key_and_content(
    observations: Seq<Observation>,
    new: Observation,
    i: int,
)
    requires
        0 <= i < observations.len(),
        forall|j: int|
            0 <= j < i ==> (#[trigger] observations[j]).idempotency_key@ != new.idempotency_key@,
    ensures
        observations[i].idempotency_key@ == new.idempotency_key@ ==> {
            &&& crate::lake::store::after_append(observations, new) == observations
            &&& crate::lake::store::append_outcome(observations, new) == if
            crate::lake::store::canonical_text(observations[i])
                == crate::lake::store::canonical_text(new) {
                OutcomeView::Duplicate(observations[i].id@)
            } else {
                OutcomeView::Conflict(observations[i].id@)
            }
        },
        (forall|j: int|
            0 <= j < observations.len() ==> (#[trigger] observations[j]).idempotency_key@
                != new.idempotency_key@) ==> {
            &&& crate::lake::store::after_append(observations, new).len() == observations.len() + 1
            &&& crate::lake::store::after_append(observations, new).last() == new
            &&& crate::lake::store::after_append(observations, new)[i] == observations[i]
            &&& crate::lake::store::append_outcome(observations, new) == OutcomeView::Appended(
                new.id@,
            )
        },
{
    keys_stand_for_their_first_observation(observations, new.idempotency_key@);
    let found = crate::lake::store::position_of(observations, new.idempotency_key@);
    if observations[i].idempotency_key@ == new.idempotency_key@ {
        assert(found is Some);
        if found->0 < i {
            assert(observations[found->0].idempotency_key@ != new.idempotency_key@);
        }
    }
    if forall|j: int|
        0 <= j < observations.len() ==> (#[trigger] observations[j]).idempotency_key@
            != new.idempotency_key@ {
        if found is Some {
            assert(observations[found->0].idempotency_key@ != new.idempotency_key@);
        }
    }
}

/// An observation can be compared with what its key stands for where the key is new or both hold
/// their canonical content.
pub proof fn comparisons_need_both_contents(observations: Seq<Observation>, new: Observation)
    ensures
        crate::lake::store::comparable(observations, new) <==> (
        crate::lake::store::position_of(observations, new.idempotency_key@) matches Some(i)
            ==> crate::lake::store::canonical_text(observations[i]) is Some
            && crate::lake::store::canonical_text(new) is Some),
{
}

/// Keys are unique just where no two observations, at whatever places, have the same key.
pub proof fn unique_keys_differ_everywhere(observations: Seq<Observation>)
    ensures
        crate::lake::store::unique_keys(observations) <==> forall|i: int, j: int|
            0 <= i < observations.len() && 0 <= j < observations.len() && i != j ==> (
            #[trigger] observations[i]).idempotency_key@ != (
            #[trigger] observations[j]).idempotency_key@,
{
    if crate::lake::store::unique_keys(observations) {
        assert forall|i: int, j: int|
            0 <= i < observations.len() && 0 <= j < observations.len() && i != j implies (
        #[trigger] observations[i]).idempotency_key@ != (
        #[trigger] observations[j]).idempotency_key@ by {
            if i < j {
                assert(observations[i].idempotency_key@ != observations[j].idempotency_key@);
            } else {
                assert(observations[j].idempotency_key@ != observations[i].idempotency_key@);
            }
        }
    }
}

} // verus!
