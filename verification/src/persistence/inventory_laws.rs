//! Laws of the inventory of units.

use vstd::prelude::*;
use vstd::string::*;

use crate::domain::Observation;
use crate::json::JsonView;

verus! {

/// Whether metadata give a text that is not blank under a name.
pub open spec fn gives(meta: JsonView, name: Seq<char>, value: Seq<char>) -> bool {
    crate::json::member(meta, name) == Some(JsonView::Str(value)) && !crate::text::blank(value)
}

/// An observation belongs to the unit that its metadata name, where they name one.
pub proof fn units_are_named_in_the_metadata(observation: Observation, unit: Seq<char>)
    ensures
        super::inventory::named_unit(observation) == Some(unit) <==> gives(
            observation.meta@,
            "source_instance"@,
            unit,
        ),
{
}

/// Whether metadata give a text as the source of an observation.
pub open spec fn declares(meta: JsonView, source: Seq<char>) -> bool {
    crate::json::member(meta, "source_instance_id"@) == Some(JsonView::Str(source))
}

proof fn given_ones(
    observations: Seq<Observation>,
    first: Seq<char>,
    second: Seq<char>,
    value: Seq<char>,
)
    ensures
        super::inventory::given_under(observations, first, second).contains(value) <==> exists|
            i: int,
        |
            0 <= i < observations.len() && (gives(
                (#[trigger] observations[i]).meta@,
                first,
                value,
            ) || gives(observations[i].meta@, second, value)),
    decreases observations.len(),
{
    if observations.len() > 0 {
        let rest = observations.drop_last();
        given_ones(rest, first, second, value);
        assert(forall|i: int| 0 <= i < rest.len() ==> #[trigger] rest[i] == observations[i]);
        let last = observations[observations.len() - 1];
        if super::inventory::given_under(rest, first, second).contains(value) {
            let i = choose|i: int|
                0 <= i < rest.len() && (gives((#[trigger] rest[i]).meta@, first, value) || gives(
                    rest[i].meta@,
                    second,
                    value,
                ));
            assert(gives(observations[i].meta@, first, value) || gives(
                observations[i].meta@,
                second,
                value,
            ));
        }
        if exists|i: int|
            0 <= i < observations.len() && (gives(
                (#[trigger] observations[i]).meta@,
                first,
                value,
            ) || gives(observations[i].meta@, second, value)) {
            let i = choose|i: int|
                0 <= i < observations.len() && (gives(
                    (#[trigger] observations[i]).meta@,
                    first,
                    value,
                ) || gives(observations[i].meta@, second, value));
            if i < rest.len() {
                assert(rest[i] == observations[i]);
            }
        }
    }
}

proof fn of_unit_members(observations: Seq<Observation>, unit: Seq<char>, one: Observation)
    ensures
        super::inventory::of_unit(observations, unit).to_multiset().count(one) == if gives(
            one.meta@,
            "source_instance"@,
            unit,
        ) {
            observations.to_multiset().count(one)
        } else {
            0
        },
        super::inventory::of_unit(observations, unit).len() <= observations.len(),
    decreases observations.len(),
{
    observations.to_multiset_ensures();
    let now = super::inventory::of_unit(observations, unit);
    now.to_multiset_ensures();
    if observations.len() > 0 {
        let rest = observations.drop_last();
        of_unit_members(rest, unit, one);
        units_are_named_in_the_metadata(observations.last(), unit);
        let before = super::inventory::of_unit(rest, unit);
        before.to_multiset_ensures();
        rest.to_multiset_ensures();
        assert(observations =~= rest.push(observations.last()));
    }
}

/// A unit has just the observations that name it, each as often as it is there.
pub proof fn units_have_what_names_them(
    observations: Seq<Observation>,
    unit: Seq<char>,
    one: Observation,
)
    ensures
        super::inventory::of_unit(observations, unit).to_multiset().count(one) == if gives(
            one.meta@,
            "source_instance"@,
            unit,
        ) {
            observations.to_multiset().count(one)
        } else {
            0
        },
{
    of_unit_members(observations, unit, one);
}

proof fn given_texts_are_listed(
    observations: Seq<Observation>,
    first: Seq<char>,
    second: Seq<char>,
)
    ensures
        super::inventory::given_under(observations, first, second).finite(),
    decreases observations.len(),
{
    if observations.len() > 0 {
        given_texts_are_listed(observations.drop_last(), first, second);
    }
}

/// Of a unit the number of its observations is told, its producers are what these give under
/// `producer_id` or `producer`, and its credentials what they give under `credential_id` or
/// `credential_ref`; each is listed once, in ascending order.
pub proof fn units_tell_their_producers_and_credentials(
    unit: Seq<char>,
    observations: Seq<Observation>,
    value: Seq<char>,
)
    ensures
        ({
            let item = super::inventory::unit_item(unit, observations);
            &&& item.unit == unit
            &&& item.count == observations.len()
            &&& crate::text::ascending(item.producers)
            &&& crate::text::ascending(item.credentials)
            &&& item.producers.contains(value) <==> exists|i: int|
                0 <= i < observations.len() && (gives(
                    (#[trigger] observations[i]).meta@,
                    "producer_id"@,
                    value,
                ) || gives(observations[i].meta@, "producer"@, value))
            &&& item.credentials.contains(value) <==> exists|i: int|
                0 <= i < observations.len() && (gives(
                    (#[trigger] observations[i]).meta@,
                    "credential_id"@,
                    value,
                ) || gives(observations[i].meta@, "credential_ref"@, value))
        }),
{
    given_ones(observations, "producer_id"@, "producer"@, value);
    given_ones(observations, "credential_id"@, "credential_ref"@, value);
    given_texts_are_listed(observations, "producer_id"@, "producer"@);
    given_texts_are_listed(observations, "credential_id"@, "credential_ref"@);
    crate::text_laws::sets_are_listed(
        super::inventory::given_under(observations, "producer_id"@, "producer"@),
    );
    crate::text_laws::sets_are_listed(
        super::inventory::given_under(observations, "credential_id"@, "credential_ref"@),
    );
}

/// What stands in the way of a unit because of its producers and credentials follows the notes on
/// other names: several producers are to be drained together, several credentials or one for several
/// producers are to be separated, and nothing else is said.
pub proof fn shared_units_are_told(renames: Seq<Seq<char>>, producers: nat, credentials: nat)
    ensures
        ({
            let blockers = super::inventory::unit_blockers(renames, producers, credentials);
            let names = super::inventory::without_repeats(renames);
            let shared = seq!["multiple producers share this cutover unit; drain as one unit"@];
            let several = seq!["credential is shared across producers; separate it before cutover"@];
            let single =
                seq!["one credential reference is shared by multiple producers; separate it before cutover"@];
            &&& producers <= 1 && credentials <= 1 ==> blockers == names
            &&& producers <= 1 && credentials > 1 ==> blockers == names + several
            &&& producers > 1 && credentials == 0 ==> blockers == names + shared
            &&& producers > 1 && credentials == 1 ==> blockers == names + shared + single
            &&& producers > 1 && credentials > 1 ==> blockers == names + shared + several
        }),
{
    let blockers = super::inventory::unit_blockers(renames, producers, credentials);
    let names = super::inventory::without_repeats(renames);
    let shared = seq!["multiple producers share this cutover unit; drain as one unit"@];
    let several = seq!["credential is shared across producers; separate it before cutover"@];
    let single =
        seq!["one credential reference is shared by multiple producers; separate it before cutover"@];
    if producers <= 1 && credentials > 1 {
        assert(blockers =~= names + several);
    } else if producers > 1 && credentials == 0 {
        assert(blockers =~= names + shared);
    } else if producers > 1 && credentials == 1 {
        assert(blockers =~= names + shared + single);
    } else if producers > 1 {
        assert(blockers =~= names + shared + several);
    }
}

/// Of notes that follow each other without repeating, none is lost; and of two that stand side by
/// side no second one is the same.
pub proof fn repeated_notes_are_made_once(texts: Seq<Seq<char>>, value: Seq<char>)
    ensures
        super::inventory::without_repeats(texts).contains(value) <==> texts.contains(value),
        texts.len() > 0 ==> super::inventory::without_repeats(texts).len() > 0
            && super::inventory::without_repeats(texts).last() == texts.last(),
        forall|i: int|
            0 < i < super::inventory::without_repeats(texts).len()
                ==> #[trigger] super::inventory::without_repeats(texts)[i]
                != super::inventory::without_repeats(texts)[i - 1],
    decreases texts.len(),
{
    if texts.len() > 0 {
        let rest = texts.drop_last();
        repeated_notes_are_made_once(rest, value);
        let before = super::inventory::without_repeats(rest);
        let now = super::inventory::without_repeats(texts);
        assert(texts =~= rest.push(texts.last()));
        if before.contains(value) {
            let i = choose|i: int| 0 <= i < before.len() && before[i] == value;
            assert(now[i] == value);
        }
        if texts.contains(value) && !rest.contains(value) {
            let i = choose|i: int| 0 <= i < texts.len() && texts[i] == value;
            if i < rest.len() {
                assert(rest[i] == value);
            }
            assert(value == texts.last());
            assert(now[now.len() - 1] == value);
        }
        if rest.contains(value) {
            let i = choose|i: int| 0 <= i < rest.len() && rest[i] == value;
            assert(texts[i] == value);
        }
        if now.contains(value) && !before.contains(value) {
            let i = choose|i: int| 0 <= i < now.len() && now[i] == value;
            if i < before.len() {
                assert(before[i] == value);
            }
            assert(texts[texts.len() - 1] == value);
        }
    }
}

/// A note on another name is made for just the observations that give a source other than the unit,
/// and it tells both.
pub proof fn other_names_are_noted(
    observations: Seq<Observation>,
    unit: Seq<char>,
    note: Seq<char>,
)
    ensures
        super::inventory::rename_notes(observations, unit).contains(note) <==> exists|
            i: int,
            declared: Seq<char>,
        |
            0 <= i < observations.len() && #[trigger] declares(observations[i].meta@, declared) && declared != unit && note
                == "source_instance_id rename detected: "@ + declared + " -> "@ + unit,
    decreases observations.len(),
{
    let now = super::inventory::rename_notes(observations, unit);
    if observations.len() > 0 {
        let rest = observations.drop_last();
        other_names_are_noted(rest, unit, note);
        let before = super::inventory::rename_notes(rest, unit);
        let last = observations[observations.len() - 1];
        assert(forall|i: int| 0 <= i < rest.len() ==> #[trigger] rest[i] == observations[i]);
        if before.contains(note) {
            let at = choose|at: int| 0 <= at < before.len() && before[at] == note;
            assert(now[at] == note);
            let (i, declared) = choose|i: int, declared: Seq<char>|
                0 <= i < rest.len() && #[trigger] declares(rest[i].meta@, declared) && declared != unit && note
                    == "source_instance_id rename detected: "@ + declared + " -> "@ + unit;
            assert(declares(observations[i].meta@, declared));
        }
        if now.contains(note) && !before.contains(note) {
            let at = choose|at: int| 0 <= at < now.len() && now[at] == note;
            if at < before.len() {
                assert(before[at] == note);
            }
            let declared = crate::json::as_text(
                crate::json::member(last.meta@, "source_instance_id"@),
            )->0;
            assert(declares(observations[observations.len() - 1].meta@, declared));
        }
        if exists|i: int, declared: Seq<char>|
            0 <= i < observations.len() && #[trigger] declares(observations[i].meta@, declared) && declared != unit && note
                == "source_instance_id rename detected: "@ + declared + " -> "@ + unit {
            let (i, declared) = choose|i: int, declared: Seq<char>|
                0 <= i < observations.len() && #[trigger] declares(observations[i].meta@, declared) && declared != unit && note
                    == "source_instance_id rename detected: "@ + declared + " -> "@ + unit;
            if i < rest.len() {
                assert(declares(rest[i].meta@, declared));
                assert(before.contains(note));
            } else {
                assert(now[now.len() - 1] == note);
            }
        }
    }
}

proof fn named_ones(observations: Seq<Observation>, unit: Seq<char>)
    ensures
        super::inventory::named_units(observations).finite(),
        super::inventory::named_units(observations).contains(unit) <==> exists|i: int|
            0 <= i < observations.len() && gives(
                (#[trigger] observations[i]).meta@,
                "source_instance"@,
                unit,
            ),
    decreases observations.len(),
{
    if observations.len() > 0 {
        let rest = observations.drop_last();
        named_ones(rest, unit);
        units_are_named_in_the_metadata(observations.last(), unit);
        assert(forall|i: int| 0 <= i < rest.len() ==> #[trigger] rest[i] == observations[i]);
        if super::inventory::named_units(rest).contains(unit) {
            let i = choose|i: int|
                0 <= i < rest.len() && gives((#[trigger] rest[i]).meta@, "source_instance"@, unit);
            assert(gives(observations[i].meta@, "source_instance"@, unit));
        }
        if super::inventory::named_unit(observations.last()) == Some(unit) {
            assert(gives(
                observations[observations.len() - 1].meta@,
                "source_instance"@,
                unit,
            ));
        }
        if exists|i: int|
            0 <= i < observations.len() && gives(
                (#[trigger] observations[i]).meta@,
                "source_instance"@,
                unit,
            ) {
            let i = choose|i: int|
                0 <= i < observations.len() && gives(
                    (#[trigger] observations[i]).meta@,
                    "source_instance"@,
                    unit,
                );
            if i < rest.len() {
                assert(rest[i] == observations[i]);
            }
        }
    }
}

/// The inventory holds a unit just where an observation names it or it is registered; it holds each
/// once, in ascending order, with what the observations of just that unit say.
pub proof fn every_unit_is_in_the_inventory(
    observations: Seq<Observation>,
    registered: Seq<Seq<char>>,
    unit: Seq<char>,
)
    ensures
        ({
            let list = super::inventory::inventory(observations, registered);
            &&& (exists|k: int| 0 <= k < list.len() && (#[trigger] list[k]).unit == unit)
                <==> registered.contains(unit) || exists|i: int|
                0 <= i < observations.len() && gives(
                    (#[trigger] observations[i]).meta@,
                    "source_instance"@,
                    unit,
                )
            &&& forall|k: int, m: int|
                0 <= k < m < list.len() ==> crate::text::precedes(
                    (#[trigger] list[k]).unit,
                    (#[trigger] list[m]).unit,
                )
            &&& forall|k: int|
                0 <= k < list.len() ==> #[trigger] list[k] == super::inventory::unit_item(
                    list[k].unit,
                    super::inventory::of_unit(observations, list[k].unit),
                )
        }),
{
    named_ones(observations, unit);
    vstd::seq_lib::seq_to_set_is_finite(registered);
    let set = super::inventory::named_units(observations).union(registered.to_set());
    crate::text_laws::sets_are_listed(set);
    let units = crate::text::sorted_texts(set);
    let list = super::inventory::inventory(observations, registered);
    assert(forall|k: int| 0 <= k < units.len() ==> (#[trigger] list[k]).unit == units[k]);
    if units.contains(unit) {
        let k = choose|k: int| 0 <= k < units.len() && units[k] == unit;
        assert(list[k].unit == unit);
    }
    assert forall|k: int, m: int| 0 <= k < m < list.len() implies crate::text::precedes(
        (#[trigger] list[k]).unit,
        (#[trigger] list[m]).unit,
    ) by {
        assert(crate::text::precedes(units[k], units[m]));
    }
    if exists|k: int| 0 <= k < list.len() && (#[trigger] list[k]).unit == unit {
        let k = choose|k: int| 0 <= k < list.len() && (#[trigger] list[k]).unit == unit;
        assert(units[k] == unit);
        assert(units.contains(unit));
    }
}

} // verus!
