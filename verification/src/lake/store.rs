//! The append-only store of observations.
//!
//! The store is a cache in memory; nothing is authoritative here.

use vstd::prelude::*;
use vstd::slice::*;

use crate::domain::{EntityRef, Observation, ObservationId, ObserverRef, SchemaRef};
use crate::text::str_eq;
use crate::time::Timestamp;

verus! {

/// The member of an observation's metadata that holds its canonical content.
pub const CANONICAL_JSON_META_KEY: &'static str = "canonical_json";

/// What became of an append: the observation that the key stands for now.
#[derive(Debug, PartialEq, Eq)]
pub enum AppendOutcome {
    Appended(ObservationId),
    Duplicate(ObservationId),
    Conflict(ObservationId),
}

/// What an outcome says.
pub enum OutcomeView {
    Appended(Seq<char>),
    Duplicate(Seq<char>),
    Conflict(Seq<char>),
}

impl View for AppendOutcome {
    type V = OutcomeView;

    open spec fn view(&self) -> OutcomeView {
        match *self {
            AppendOutcome::Appended(id) => OutcomeView::Appended(id@),
            AppendOutcome::Duplicate(id) => OutcomeView::Duplicate(id@),
            AppendOutcome::Conflict(id) => OutcomeView::Conflict(id@),
        }
    }
}

/// The latest position in the lake.
#[derive(Debug)]
pub struct Watermark {
    pub recorded_at: Timestamp,
    pub last_id: ObservationId,
    /// How many observations lie before the position.
    pub position: usize,
}

/// An append-only cache of observations.
#[derive(Debug)]
pub struct LakeStore {
    observations: Vec<Observation>,
}

impl View for LakeStore {
    type V = Seq<Observation>;

    closed spec fn view(&self) -> Seq<Observation> {
        self.observations@
    }
}

/// The canonical content of an observation, where its metadata holds it as a text.
pub open spec fn canonical_text(observation: Observation) -> Option<Seq<char>> {
    crate::json::as_text(crate::json::member(observation.meta@, CANONICAL_JSON_META_KEY@))
}

/// The first observation under an identity key.
pub open spec fn position_of(observations: Seq<Observation>, key: Seq<char>) -> Option<int>
    decreases observations.len(),
{
    if observations.len() == 0 {
        None
    } else {
        match position_of(observations.drop_last(), key) {
            Some(i) => Some(i),
            None => if observations.last().idempotency_key@ == key {
                Some(observations.len() - 1)
            } else {
                None
            },
        }
    }
}

/// Every identity key occurs once.
pub open spec fn unique_keys(observations: Seq<Observation>) -> bool {
    forall|i: int, j: int|
        0 <= i < j < observations.len() ==> (#[trigger] observations[i]).idempotency_key@ != (
        #[trigger] observations[j]).idempotency_key@
}

/// What an append of an observation is answered.
pub open spec fn append_outcome(observations: Seq<Observation>, new: Observation) -> OutcomeView {
    match position_of(observations, new.idempotency_key@) {
        None => OutcomeView::Appended(new.id@),
        Some(i) => if canonical_text(observations[i]) == canonical_text(new) {
            OutcomeView::Duplicate(observations[i].id@)
        } else {
            OutcomeView::Conflict(observations[i].id@)
        },
    }
}

/// The store after an append.
pub open spec fn after_append(observations: Seq<Observation>, new: Observation) -> Seq<
    Observation,
> {
    match position_of(observations, new.idempotency_key@) {
        None => observations.push(new),
        Some(_) => observations,
    }
}

/// Whether an observation can be compared with the one that its key stands for already: both hold
/// their canonical content.
pub open spec fn comparable(observations: Seq<Observation>, new: Observation) -> bool {
    match position_of(observations, new.idempotency_key@) {
        None => true,
        Some(i) => canonical_text(observations[i]) is Some && canonical_text(new) is Some,
    }
}

/// A position of a key is in range and holds the key.
pub proof fn position_holds_the_key(observations: Seq<Observation>, key: Seq<char>)
    ensures
        match position_of(observations, key) {
            Some(i) => 0 <= i < observations.len() && observations[i].idempotency_key@ == key,
            None => forall|i: int|
                0 <= i < observations.len() ==> (#[trigger] observations[i]).idempotency_key@
                    != key,
        },
    decreases observations.len(),
{
    if observations.len() > 0 {
        position_holds_the_key(observations.drop_last(), key);
        assert forall|i: int|
            position_of(observations, key) is None && 0 <= i < observations.len() implies (
        #[trigger] observations[i]).idempotency_key@ != key by {
            if i < observations.len() - 1 {
                assert(observations.drop_last()[i] == observations[i]);
            }
        }
    }
}

/// The observations that a list of references names.
pub open spec fn referenced(list: Seq<&Observation>) -> Seq<Observation> {
    list.map_values(|o: &Observation| *o)
}

fn canonical_json(observation: &Observation) -> (r: &str)
    requires
        canonical_text(*observation) is Some,
    ensures
        Some(r@) == canonical_text(*observation),
{
    match observation.meta.get_str(CANONICAL_JSON_META_KEY) {
        Some(text) => text,
        None => "",
    }
}

fn same_canonical_json(left: &Observation, right: &Observation) -> (r: bool)
    requires
        canonical_text(*left) is Some,
        canonical_text(*right) is Some,
    ensures
        r == (canonical_text(*left) == canonical_text(*right)),
{
    str_eq(canonical_json(left), canonical_json(right))
}

impl LakeStore {
    pub fn new() -> (r: LakeStore)
        ensures
            r@ == Seq::<Observation>::empty(),
            unique_keys(r@),
    {
        LakeStore { observations: Vec::new() }
    }

    /// Appends an observation; where its identity key was seen already, the error names the
    /// observation that the key stands for.
    pub fn append(&mut self, obs: Observation) -> (r: Result<ObservationId, ObservationId>)
        requires
            comparable(old(self)@, obs),
        ensures
            final(self)@ == after_append(old(self)@, obs),
            unique_keys(old(self)@) ==> unique_keys(final(self)@),
            match append_outcome(old(self)@, obs) {
                OutcomeView::Appended(id) => r is Ok && r->Ok_0@ == id,
                OutcomeView::Duplicate(id) => r is Err && r->Err_0@ == id,
                OutcomeView::Conflict(id) => r is Err && r->Err_0@ == id,
            },
    {
        match self.append_idempotent(obs) {
            AppendOutcome::Appended(id) => Ok(id),
            AppendOutcome::Duplicate(id) => Err(id),
            AppendOutcome::Conflict(id) => Err(id),
        }
    }

    /// Appends an observation and tells a repetition apart from a conflict of contents.
    pub fn append_idempotent(&mut self, obs: Observation) -> (r: AppendOutcome)
        requires
            comparable(old(self)@, obs),
        ensures
            r@ == append_outcome(old(self)@, obs),
            final(self)@ == after_append(old(self)@, obs),
            unique_keys(old(self)@) ==> unique_keys(final(self)@),
    {
        let ghost before = self@;
        proof {
            position_holds_the_key(before, obs.idempotency_key@);
        }
        match self.index_of(obs.idempotency_key.as_str()) {
            Some(idx) => {
                let existing = &self.observations[idx];
                if same_canonical_json(existing, &obs) {
                    AppendOutcome::Duplicate(existing.id.clone())
                } else {
                    AppendOutcome::Conflict(existing.id.clone())
                }
            },
            None => {
                let id = obs.id.clone();
                self.observations.push(obs);
                AppendOutcome::Appended(id)
            },
        }
    }

    fn index_of(&self, key: &str) -> (r: Option<usize>)
        ensures
            match r {
                Some(i) => position_of(self@, key@) == Some(i as int) && i < self@.len(),
                None => position_of(self@, key@) is None,
            },
    {
        let mut i: usize = 0;
        while i < self.observations.len()
            invariant
                i <= self.observations.len(),
                self@ == self.observations@,
                position_of(self@.take(i as int), key@) is None,
            decreases self.observations.len() - i,
        {
            assert(self@.take(i + 1).drop_last() =~= self@.take(i as int));
            if str_eq(self.observations[i].idempotency_key.as_str(), key) {
                proof {
                    position_stays(self@, key@, i + 1);
                }
                return Some(i);
            }
            i = i + 1;
        }
        assert(self@.take(i as int) =~= self@);
        None
    }

    /// The first observation with an identity.
    pub fn get(&self, id: &ObservationId) -> (r: Option<&Observation>)
        ensures
            match r {
                Some(o) => exists|i: int|
                    0 <= i < self@.len() && #[trigger] self@[i] == *o && o.id@ == id@ && forall|
                        j: int,
                    |
                        0 <= j < i ==> (#[trigger] self@[j]).id@ != id@,
                None => forall|i: int| 0 <= i < self@.len() ==> (#[trigger] self@[i]).id@ != id@,
            },
    {
        let mut i: usize = 0;
        while i < self.observations.len()
            invariant
                i <= self.observations.len(),
                self@ == self.observations@,
                forall|j: int| 0 <= j < i ==> (#[trigger] self@[j]).id@ != id@,
            decreases self.observations.len() - i,
        {
            if str_eq(self.observations[i].id.as_str(), id.as_str()) {
                assert(self@[i as int] == self.observations@[i as int]);
                return Some(&self.observations[i]);
            }
            i = i + 1;
        }
        None
    }

    /// All observations in the order of their appends.
    pub fn list(&self) -> (r: &[Observation])
        ensures
            r@ == self@,
    {
        self.observations.as_slice()
    }

    /// All observations, as readers of a store ask for them.
    pub fn observations(&self) -> (r: &[Observation])
        ensures
            r@ == self@,
    {
        self.list()
    }

    /// The observations with a schema, in the order of their appends.
    pub fn by_schema(&self, schema: &SchemaRef) -> (r: Vec<&Observation>)
        ensures
            referenced(r@) == self@.filter(|o: Observation| o.schema@ == schema@),
    {
        let ghost wanted = |o: Observation| o.schema@ == schema@;
        let mut out: Vec<&Observation> = Vec::new();
        let mut i: usize = 0;
        while i < self.observations.len()
            invariant
                i <= self.observations.len(),
                self@ == self.observations@,
                wanted == (|o: Observation| o.schema@ == schema@),
                referenced(out@) == self@.take(i as int).filter(wanted),
            decreases self.observations.len() - i,
        {
            proof {
                filter_step(self@, wanted, i as int);
            }
            if str_eq(self.observations[i].schema.as_str(), schema.as_str()) {
                let ghost before = out@;
                out.push(&self.observations[i]);
                assert(referenced(out@) =~= referenced(before).push(self@[i as int]));
            }
            i = i + 1;
        }
        assert(self@.take(i as int) =~= self@);
        out
    }

    /// The observations about a subject, in the order of their appends.
    pub fn by_subject(&self, subject: &EntityRef) -> (r: Vec<&Observation>)
        ensures
            referenced(r@) == self@.filter(|o: Observation| o.subject@ == subject@),
    {
        let ghost wanted = |o: Observation| o.subject@ == subject@;
        let mut out: Vec<&Observation> = Vec::new();
        let mut i: usize = 0;
        while i < self.observations.len()
            invariant
                i <= self.observations.len(),
                self@ == self.observations@,
                wanted == (|o: Observation| o.subject@ == subject@),
                referenced(out@) == self@.take(i as int).filter(wanted),
            decreases self.observations.len() - i,
        {
            proof {
                filter_step(self@, wanted, i as int);
            }
            if str_eq(self.observations[i].subject.as_str(), subject.as_str()) {
                let ghost before = out@;
                out.push(&self.observations[i]);
                assert(referenced(out@) =~= referenced(before).push(self@[i as int]));
            }
            i = i + 1;
        }
        assert(self@.take(i as int) =~= self@);
        out
    }

    /// The observations of an observer, in the order of their appends.
    pub fn by_observer(&self, observer: &ObserverRef) -> (r: Vec<&Observation>)
        ensures
            referenced(r@) == self@.filter(|o: Observation| o.observer@ == observer@),
    {
        let ghost wanted = |o: Observation| o.observer@ == observer@;
        let mut out: Vec<&Observation> = Vec::new();
        let mut i: usize = 0;
        while i < self.observations.len()
            invariant
                i <= self.observations.len(),
                self@ == self.observations@,
                wanted == (|o: Observation| o.observer@ == observer@),
                referenced(out@) == self@.take(i as int).filter(wanted),
            decreases self.observations.len() - i,
        {
            proof {
                filter_step(self@, wanted, i as int);
            }
            if str_eq(self.observations[i].observer.as_str(), observer.as_str()) {
                let ghost before = out@;
                out.push(&self.observations[i]);
                assert(referenced(out@) =~= referenced(before).push(self@[i as int]));
            }
            i = i + 1;
        }
        assert(self@.take(i as int) =~= self@);
        out
    }

    /// The position after the last observation, where there is one.
    pub fn watermark(&self) -> (r: Option<Watermark>)
        ensures
            match r {
                Some(w) => self@.len() > 0 && w.recorded_at == self@.last().recorded_at
                    && w.last_id@ == self@.last().id@ && w.position == self@.len(),
                None => self@.len() == 0,
            },
    {
        let n: usize = self.observations.len();
        if n == 0 {
            return None;
        }
        let last = &self.observations[n - 1];
        Some(Watermark { recorded_at: last.recorded_at, last_id: last.id.clone(), position: n })
    }

    /// The observations appended from a position on; beyond the end there are none.
    pub fn since(&self, position: usize) -> (r: &[Observation])
        ensures
            r@ == (if position >= self@.len() {
                Seq::<Observation>::empty()
            } else {
                self@.skip(position as int)
            }),
    {
        let n: usize = self.observations.len();
        let from: usize = if position >= n {
            n
        } else {
            position
        };
        let r = slice_subrange(self.observations.as_slice(), from, n);
        assert(r@ =~= (if position >= self@.len() {
            Seq::<Observation>::empty()
        } else {
            self@.skip(position as int)
        }));
        r
    }

    pub fn len(&self) -> (r: usize)
        ensures
            r == self@.len(),
    {
        self.observations.len()
    }

    pub fn is_empty(&self) -> (r: bool)
        ensures
            r == (self@.len() == 0),
    {
        self.observations.len() == 0
    }
}

proof fn filter_step(list: Seq<Observation>, wanted: spec_fn(Observation) -> bool, i: int)
    requires
        0 <= i < list.len(),
    ensures
        list.take(i + 1).filter(wanted) == (if wanted(list[i]) {
            list.take(i).filter(wanted).push(list[i])
        } else {
            list.take(i).filter(wanted)
        }),
{
    reveal(Seq::filter);
    assert(list.take(i + 1).drop_last() =~= list.take(i));
    assert(list.take(i + 1).last() == list[i]);
}

/// A position found among the first observations is the position among all.
proof fn position_stays(observations: Seq<Observation>, key: Seq<char>, i: int)
    requires
        0 <= i <= observations.len(),
        position_of(observations.take(i), key) is Some,
    ensures
        position_of(observations, key) == position_of(observations.take(i), key),
    decreases observations.len() - i,
{
    if i < observations.len() {
        assert(observations.take(i + 1).drop_last() =~= observations.take(i));
        position_stays(observations, key, i + 1);
    } else {
        assert(observations.take(i) =~= observations);
    }
}

/// The store only grows: whatever is appended, what was there stays where it was.
pub proof fn appends_keep_what_was_there(observations: Seq<Observation>, new: Observation)
    ensures
        observations.is_prefix_of(after_append(observations, new)),
        position_of(after_append(observations, new), new.idempotency_key@) is Some,
{
    let after = after_append(observations, new);
    position_holds_the_key(observations, new.idempotency_key@);
    assert(observations =~= after.take(observations.len() as int));
    if position_of(observations, new.idempotency_key@) is None {
        assert(after.drop_last() =~= observations);
        assert(after.last() == new);
    }
}

/// Appending a second observation under the same key changes nothing: it is a duplicate where the
/// canonical contents agree and a conflict where they do not, and the answer names the first.
pub proof fn second_append_is_recognised(
    observations: Seq<Observation>,
    first: Observation,
    second: Observation,
)
    requires
        position_of(observations, first.idempotency_key@) is None,
        second.idempotency_key@ == first.idempotency_key@,
    ensures
        ({
            let after = after_append(observations, first);
            &&& after_append(after, second) == after
            &&& append_outcome(after, second) == (if canonical_text(first) == canonical_text(
                second,
            ) {
                OutcomeView::Duplicate(first.id@)
            } else {
                OutcomeView::Conflict(first.id@)
            })
        }),
{
    let after = after_append(observations, first);
    assert(after.drop_last() =~= observations);
    assert(after.last() == first);
}

} // verus!
