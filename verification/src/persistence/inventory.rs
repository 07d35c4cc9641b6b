//! Which units there are to cut over, and what stands in the way of each.

use vstd::prelude::*;
use vstd::string::*;

use crate::domain::Observation;
use crate::json::Json;
use crate::text::{is_blank, sorted_set, str_eq, text4};

use super::identity::CUTOVER_UNIT_META_KEY;

verus! {

/// A unit with what its observations say of it.
#[derive(Debug)]
pub struct CutoverInventoryItem {
    pub source_instance_id: String,
    pub observation_count: u64,
    pub producer_ids: Vec<String>,
    pub credential_ids: Vec<String>,
    pub blockers: Vec<String>,
}

/// What is known of a unit.
pub struct InventoryView {
    pub unit: Seq<char>,
    pub count: nat,
    pub producers: Seq<Seq<char>>,
    pub credentials: Seq<Seq<char>>,
    pub blockers: Seq<Seq<char>>,
}

impl View for CutoverInventoryItem {
    type V = InventoryView;

    open spec fn view(&self) -> InventoryView {
        InventoryView {
            unit: self.source_instance_id@,
            count: self.observation_count as nat,
            producers: crate::text::strings(self.producer_ids@),
            credentials: crate::text::strings(self.credential_ids@),
            blockers: crate::text::strings(self.blockers@),
        }
    }
}

/// The unit that an observation names in its metadata.
pub open spec fn named_unit(observation: Observation) -> Option<Seq<char>> {
    super::identity::filled(
        crate::json::member(observation.meta@, CUTOVER_UNIT_META_KEY@),
    )
}

/// The observations that name a unit.
pub open spec fn of_unit(observations: Seq<Observation>, unit: Seq<char>) -> Seq<Observation>
    decreases observations.len(),
{
    if observations.len() == 0 {
        Seq::empty()
    } else {
        let before = of_unit(observations.drop_last(), unit);
        if named_unit(observations.last()) == Some(unit) {
            before.push(observations.last())
        } else {
            before
        }
    }
}

/// The texts that observations give under either of two names.
pub open spec fn given_under(
    observations: Seq<Observation>,
    first: Seq<char>,
    second: Seq<char>,
) -> Set<Seq<char>>
    decreases observations.len(),
{
    if observations.len() == 0 {
        Set::empty()
    } else {
        let meta = observations.last().meta@;
        let before = given_under(observations.drop_last(), first, second);
        let one = match super::identity::filled(crate::json::member(meta, first)) {
            Some(t) => before.insert(t),
            None => before,
        };
        match super::identity::filled(crate::json::member(meta, second)) {
            Some(t) => one.insert(t),
            None => one,
        }
    }
}

/// What is said of a unit under another name.
pub open spec fn rename_notes(observations: Seq<Observation>, unit: Seq<char>) -> Seq<Seq<char>>
    decreases observations.len(),
{
    if observations.len() == 0 {
        Seq::empty()
    } else {
        let before = rename_notes(observations.drop_last(), unit);
        match crate::json::as_text(
            crate::json::member(observations.last().meta@, "source_instance_id"@),
        ) {
            Some(declared) => if declared != unit {
                before.push("source_instance_id rename detected: "@ + declared + " -> "@ + unit)
            } else {
                before
            },
            None => before,
        }
    }
}

/// Texts without those that repeat the one before them.
pub open spec fn without_repeats(texts: Seq<Seq<char>>) -> Seq<Seq<char>>
    decreases texts.len(),
{
    if texts.len() == 0 {
        Seq::empty()
    } else {
        let before = without_repeats(texts.drop_last());
        if before.len() > 0 && before.last() == texts.last() {
            before
        } else {
            before.push(texts.last())
        }
    }
}

/// What stands in the way of a unit: other names for it, several producers, or a credential that is
/// not its own.
pub open spec fn unit_blockers(
    renames: Seq<Seq<char>>,
    producers: nat,
    credentials: nat,
) -> Seq<Seq<char>> {
    let b1 = without_repeats(renames);
    let b2 = if producers > 1 {
        b1.push("multiple producers share this cutover unit; drain as one unit"@)
    } else {
        b1
    };
    if credentials > 1 {
        b2.push("credential is shared across producers; separate it before cutover"@)
    } else if producers > 1 && credentials == 1 {
        b2.push(
            "one credential reference is shared by multiple producers; separate it before cutover"@,
        )
    } else {
        b2
    }
}

/// What is known of a unit, given its observations, oldest first.
pub open spec fn unit_item(unit: Seq<char>, observations: Seq<Observation>) -> InventoryView {
    let producers = crate::text::sorted_texts(
        given_under(observations, "producer_id"@, "producer"@),
    );
    let credentials = crate::text::sorted_texts(
        given_under(observations, "credential_id"@, "credential_ref"@),
    );
    InventoryView {
        unit,
        count: observations.len(),
        producers,
        credentials,
        blockers: unit_blockers(
            rename_notes(observations, unit),
            producers.len(),
            credentials.len(),
        ),
    }
}

/// The units that observations name.
pub open spec fn named_units(observations: Seq<Observation>) -> Set<Seq<char>>
    decreases observations.len(),
{
    if observations.len() == 0 {
        Set::empty()
    } else {
        let before = named_units(observations.drop_last());
        match named_unit(observations.last()) {
            Some(unit) => before.insert(unit),
            None => before,
        }
    }
}

/// Every unit that is named or registered, in ascending order, with what is known of it.
pub open spec fn inventory(
    observations: Seq<Observation>,
    registered: Seq<Seq<char>>,
) -> Seq<InventoryView> {
    let units = crate::text::sorted_texts(named_units(observations).union(registered.to_set()));
    units.map_values(|unit: Seq<char>| unit_item(unit, of_unit(observations, unit)))
}

fn nonblank_member<'a>(meta: &'a Json, name: &str) -> (r: Option<&'a str>)
    ensures
        crate::json::opt_str(r) == super::identity::filled(crate::json::member(meta@, name@)),
{
    match meta.get_str(name) {
        Some(t) => {
            if is_blank(t) {
                None
            } else {
                Some(t)
            }
        },
        None => None,
    }
}

proof fn pushed_text_joins_the_set(list: Seq<Seq<char>>, item: Seq<char>)
    ensures
        list.push(item).to_set() == list.to_set().insert(item),
{
    assert forall|t: Seq<char>| list.push(item).to_set().contains(t) == list.to_set().insert(
        item,
    ).contains(t) by {
        if list.contains(t) {
            let i = choose|i: int| 0 <= i < list.len() && list[i] == t;
            assert(list.push(item)[i] == t);
        }
        if t == item {
            assert(list.push(item)[list.len() as int] == t);
        }
        if list.push(item).contains(t) {
            let i = choose|i: int| 0 <= i < list.push(item).len() && list.push(item)[i] == t;
            if i < list.len() {
                assert(list[i] == t);
            }
        }
    }
    assert(list.push(item).to_set() =~= list.to_set().insert(item));
}

fn push_text(list: &mut Vec<String>, item: &str)
    ensures
        crate::text::strings(final(list)@) == crate::text::strings(old(list)@).push(item@),
        crate::text::strings(final(list)@).to_set() == crate::text::strings(
            old(list)@,
        ).to_set().insert(item@),
{
    let ghost before = list@;
    list.push(item.to_owned());
    assert(crate::text::strings(list@) =~= crate::text::strings(before).push(item@));
    proof {
        pushed_text_joins_the_set(crate::text::strings(before), item@);
    }
}

/// The texts that the observations of a unit give under either of two names, in ascending order.
fn collect_under(observations: &[Observation], unit: &str, first: &str, second: &str) -> (r: Vec<
    String,
>)
    ensures
        crate::text::strings(r@) == crate::text::sorted_texts(
            given_under(of_unit(observations@, unit@), first@, second@),
        ),
{
    let mut found: Vec<String> = Vec::new();
    let mut i: usize = 0;
    assert(crate::text::strings(found@).to_set() =~= Set::empty());
    while i < observations.len()
        invariant
            i <= observations@.len(),
            crate::text::strings(found@).to_set() == given_under(
                of_unit(observations@.take(i as int), unit@),
                first@,
                second@,
            ),
        decreases observations@.len() - i,
    {
        let ghost now = observations@.take(i + 1);
        let ghost before = of_unit(observations@.take(i as int), unit@);
        assert(now.drop_last() =~= observations@.take(i as int));
        let observation = &observations[i];
        match nonblank_member(&observation.meta, CUTOVER_UNIT_META_KEY) {
            Some(named) => {
                if str_eq(named, unit) {
                    proof {
                        assert(before.push(*observation).drop_last() =~= before);
                        assert(before.push(*observation).last() == *observation);
                    }
                    match nonblank_member(&observation.meta, first) {
                        Some(t) => {
                            push_text(&mut found, t);
                        },
                        None => {},
                    }
                    match nonblank_member(&observation.meta, second) {
                        Some(t) => {
                            push_text(&mut found, t);
                        },
                        None => {},
                    }
                }
            },
            None => {},
        }
        i = i + 1;
    }
    assert(observations@.take(i as int) =~= observations@);
    sorted_set(&found)
}

fn collect_renames(observations: &[Observation], unit: &str) -> (r: (u64, Vec<String>))
    ensures
        r.0 == of_unit(observations@, unit@).len(),
        crate::text::strings(r.1@) == without_repeats(
            rename_notes(of_unit(observations@, unit@), unit@),
        ),
{
    let mut count: usize = 0;
    let mut notes: Vec<String> = Vec::new();
    let mut i: usize = 0;
    assert(crate::text::strings(notes@) =~= Seq::empty());
    while i < observations.len()
        invariant
            i <= observations@.len(),
            count <= i,
            count == of_unit(observations@.take(i as int), unit@).len(),
            crate::text::strings(notes@) == without_repeats(
                rename_notes(of_unit(observations@.take(i as int), unit@), unit@),
            ),
        decreases observations@.len() - i,
    {
        let ghost now = observations@.take(i + 1);
        let ghost before = of_unit(observations@.take(i as int), unit@);
        let ghost noted = rename_notes(before, unit@);
        assert(now.drop_last() =~= observations@.take(i as int));
        let observation = &observations[i];
        match nonblank_member(&observation.meta, CUTOVER_UNIT_META_KEY) {
            Some(named) => {
                if str_eq(named, unit) {
                    count = count + 1;
                    proof {
                        assert(before.push(*observation).drop_last() =~= before);
                        assert(before.push(*observation).last() == *observation);
                    }
                    match observation.meta.get_str("source_instance_id") {
                        Some(declared) => {
                            if !str_eq(declared, unit) {
                                let note = text4(
                                    "source_instance_id rename detected: ",
                                    declared,
                                    " -> ",
                                    unit,
                                );
                                assert(noted.push(note@).drop_last() =~= noted);
                                let n = notes.len();
                                let ghost list = crate::text::strings(notes@);
                                let repeated = n > 0 && str_eq(
                                    notes[n - 1].as_str(),
                                    note.as_str(),
                                );
                                assert(n > 0 ==> list.last() == notes@[n - 1]@);
                                if !repeated {
                                    push_text(&mut notes, note.as_str());
                                }
                            }
                        },
                        None => {},
                    }
                }
            },
            None => {},
        }
        i = i + 1;
    }
    assert(observations@.take(i as int) =~= observations@);
    (count as u64, notes)
}

fn build_item(observations: &[Observation], unit: &str) -> (r: CutoverInventoryItem)
    ensures
        r@ == unit_item(unit@, of_unit(observations@, unit@)),
{
    let producer_ids = collect_under(observations, unit, "producer_id", "producer");
    let credential_ids = collect_under(observations, unit, "credential_id", "credential_ref");
    let (observation_count, mut blockers) = collect_renames(observations, unit);
    assert(crate::text::strings(producer_ids@).len() == producer_ids@.len());
    assert(crate::text::strings(credential_ids@).len() == credential_ids@.len());
    if producer_ids.len() > 1 {
        push_text(&mut blockers, "multiple producers share this cutover unit; drain as one unit");
    }
    if credential_ids.len() > 1 {
        push_text(
            &mut blockers,
            "credential is shared across producers; separate it before cutover",
        );
    } else if producer_ids.len() > 1 && credential_ids.len() == 1 {
        push_text(
            &mut blockers,
            "one credential reference is shared by multiple producers; separate it before cutover",
        );
    }
    CutoverInventoryItem {
        source_instance_id: unit.to_owned(),
        observation_count,
        producer_ids,
        credential_ids,
        blockers,
    }
}

/// Every unit that is named by an observation or registered, in ascending order, with what its
/// observations, given oldest first, say of it.
pub fn cutover_inventory(observations: &[Observation], registered: &Vec<String>) -> (r: Vec<
    CutoverInventoryItem,
>)
    ensures
        r@.map_values(|item: CutoverInventoryItem| item@) == inventory(
            observations@,
            crate::text::strings(registered@),
        ),
{
    let mut names: Vec<String> = Vec::new();
    let mut i: usize = 0;
    assert(crate::text::strings(names@).to_set() =~= Set::empty());
    while i < observations.len()
        invariant
            i <= observations@.len(),
            crate::text::strings(names@).to_set() == named_units(observations@.take(i as int)),
        decreases observations@.len() - i,
    {
        assert(observations@.take(i + 1).drop_last() =~= observations@.take(i as int));
        match nonblank_member(&observations[i].meta, CUTOVER_UNIT_META_KEY) {
            Some(unit) => {
                push_text(&mut names, unit);
            },
            None => {},
        }
        i = i + 1;
    }
    assert(observations@.take(i as int) =~= observations@);
    let ghost named = named_units(observations@);
    let ghost others = crate::text::strings(registered@);
    let mut k: usize = 0;
    assert(others.take(0).to_set() =~= Set::empty());
    assert(named.union(others.take(0).to_set()) =~= named);
    while k < registered.len()
        invariant
            k <= registered@.len(),
            others == crate::text::strings(registered@),
            crate::text::strings(names@).to_set() == named.union(others.take(k as int).to_set()),
        decreases registered@.len() - k,
    {
        push_text(&mut names, registered[k].as_str());
        proof {
            assert(others.take(k + 1) =~= others.take(k as int).push(others[k as int]));
            pushed_text_joins_the_set(others.take(k as int), others[k as int]);
            assert(named.union(others.take(k as int).to_set()).insert(others[k as int])
                =~= named.union(others.take(k + 1).to_set()));
        }
        k = k + 1;
    }
    assert(others.take(k as int) =~= others);
    let units = sorted_set(&names);
    let ghost all = crate::text::strings(units@);
    let mut items: Vec<CutoverInventoryItem> = Vec::new();
    let mut m: usize = 0;
    while m < units.len()
        invariant
            m <= units@.len(),
            all == crate::text::strings(units@),
            items@.len() == m,
            forall|j: int|
                0 <= j < m ==> (#[trigger] items@[j])@ == unit_item(
                    all[j],
                    of_unit(observations@, all[j]),
                ),
        decreases units@.len() - m,
    {
        items.push(build_item(observations, units[m].as_str()));
        m = m + 1;
    }
    assert(items@.map_values(|item: CutoverInventoryItem| item@) =~= inventory(
        observations@,
        others,
    ));
    items
}

} // verus!
