//! The identity of observations: which appends are new, which repeat one that is there, and which
//! contradict it.

use vstd::prelude::*;
use vstd::string::*;

use crate::digest::text_sha256_hex;
use crate::domain::{IdempotencyKey, Observation, ObservationId};
use crate::json::{parse_json, put_member, Json, JsonView};
use crate::lake::store::CANONICAL_JSON_META_KEY;
use crate::runtime::partition::{routing_key_from_observation, PartitionErrorView, PartitionTree};
use crate::runtime::tree::TreeView;
use crate::text::{is_blank, str_eq, text2, text3, text5, text6};

use super::error::{
    violation, PersistenceError, PersistenceErrorView, StorageError, StorageErrorView,
};

verus! {

/// The member of the metadata that names the unit of a cutover.
pub const CUTOVER_UNIT_META_KEY: &'static str = "source_instance";

/// The member of the metadata that names the observed object.
pub const OBJECT_ID_META_KEY: &'static str = "object_id";

/// The schema of imported histories, whose metadata is named otherwise.
pub const LEGACY_HISTORY_SCHEMA: &'static str = "schema:history-message";

/// The member of the metadata of imported histories that names the unit of a cutover.
pub const LEGACY_HISTORY_SOURCE_INSTANCE_META_KEY: &'static str = "source_instance_id";

/// What became of a durable append: the observation that the identity stands for.
#[derive(Debug, PartialEq, Eq)]
pub enum DurableAppendOutcome {
    Appended(ObservationId),
    Duplicate(ObservationId),
    CanonicalCollision(ObservationId),
}

/// What an outcome says.
pub enum DurableView {
    Appended(Seq<char>),
    Duplicate(Seq<char>),
    CanonicalCollision(Seq<char>),
}

impl View for DurableAppendOutcome {
    type V = DurableView;

    open spec fn view(&self) -> DurableView {
        match *self {
            DurableAppendOutcome::Appended(id) => DurableView::Appended(id@),
            DurableAppendOutcome::Duplicate(id) => DurableView::Duplicate(id@),
            DurableAppendOutcome::CanonicalCollision(id) => DurableView::CanonicalCollision(id@),
        }
    }
}

/// The digest by which canonical contents are compared first.
pub fn canonical_json_sha256(canonical_json: &str) -> (r: String)
    ensures
        r@ == crate::digest::text_digest(canonical_json@),
{
    text_sha256_hex(canonical_json)
}

/// The identity key of an object's content: its unit, its name and the digest of its content.
pub open spec fn bridge_key(
    source_instance: Seq<char>,
    object_id: Seq<char>,
    canonical_json: Seq<char>,
) -> Seq<char> {
    source_instance + ":"@ + object_id + ":"@ + crate::digest::text_digest(canonical_json)
}

/// The identity key of an object's content: its unit, its name and the digest of its content.
pub fn bridge_identity_key(source_instance_id: &str, object_id: &str, canonical_json: &str) -> (r:
    String)
    ensures
        r@ == bridge_key(source_instance_id@, object_id@, canonical_json@),
{
    let digest = text_sha256_hex(canonical_json);
    text5(source_instance_id, ":", object_id, ":", digest.as_str())
}

/// A text that is there and not blank.
pub open spec fn filled(value: Option<JsonView>) -> Option<Seq<char>> {
    match crate::json::as_text(value) {
        Some(t) => if crate::text::blank(t) {
            None
        } else {
            Some(t)
        },
        None => None,
    }
}

fn filled_text<'a>(value: Option<&'a Json>) -> (r: Option<&'a str>)
    ensures
        crate::json::opt_str(r) == filled(crate::json::opt_json(value)),
{
    match value {
        Some(v) => match v.as_str() {
            Some(t) => {
                if is_blank(t) {
                    None
                } else {
                    Some(t)
                }
            },
            None => None,
        },
        None => None,
    }
}

/// The unit that an observation belongs to.
pub open spec fn observed_unit(observation: Observation) -> Option<Seq<char>> {
    let meta = observation.meta@;
    match filled(crate::json::member(meta, CUTOVER_UNIT_META_KEY@)) {
        Some(t) => Some(t),
        None => if observation.schema@ == LEGACY_HISTORY_SCHEMA@ {
            filled(crate::json::member(meta, LEGACY_HISTORY_SOURCE_INSTANCE_META_KEY@))
        } else {
            None
        },
    }
}

/// The object that an observation speaks of, given its canonical content.
pub open spec fn observed_object(observation: Observation, content: JsonView) -> Option<Seq<char>> {
    match filled(crate::json::member(observation.meta@, OBJECT_ID_META_KEY@)) {
        Some(t) => Some(t),
        None => if observation.schema@ == LEGACY_HISTORY_SCHEMA@ {
            match (
                filled(crate::json::member(content, "source_session_id"@)),
                filled(crate::json::member(content, "source_message_id"@)),
            ) {
                (Some(session), Some(message)) => Some(session + ":"@ + message),
                _ => None,
            }
        } else {
            None
        },
    }
}

/// The unit, the object and the canonical content of an observation, or why they cannot be told;
/// `content` is what the canonical content holds, where it is JSON.
pub open spec fn identity_inputs(observation: Observation, content: Option<JsonView>) -> Result<
    (Seq<char>, Seq<char>, Seq<char>),
    Seq<char>,
> {
    if !(observation.meta@ is Object) {
        Err("meta is not an object"@)
    } else {
        match filled(crate::json::member(observation.meta@, CANONICAL_JSON_META_KEY@)) {
            None => Err("meta.canonical_json is missing or blank"@),
            Some(canonical) => match content {
                None => Err("meta.canonical_json is not valid JSON"@),
                Some(value) => match observed_unit(observation) {
                    None => Err("meta.source_instance is missing or blank"@),
                    Some(unit) => match observed_object(observation, value) {
                        None => Err("meta.object_id is missing or blank"@),
                        Some(object) => Ok((unit, object, canonical)),
                    },
                },
            },
        }
    }
}

/// What the canonical content of an observation holds, where it is there and is JSON.
pub open spec fn canonical_content(observation: Observation) -> Option<JsonView> {
    match filled(crate::json::member(observation.meta@, CANONICAL_JSON_META_KEY@)) {
        Some(canonical) => crate::json::json_parse(canonical),
        None => None,
    }
}

/// Inputs or the reason why there are none.
pub open spec fn inputs_view(r: Result<(String, String, String), String>) -> Result<
    (Seq<char>, Seq<char>, Seq<char>),
    Seq<char>,
> {
    match r {
        Ok((a, b, c)) => Ok((a@, b@, c@)),
        Err(reason) => Err(reason@),
    }
}

fn unit_of(observation: &Observation) -> (r: Option<String>)
    ensures
        crate::text::opt_string(r) == observed_unit(*observation),
{
    match filled_text(observation.meta.get(CUTOVER_UNIT_META_KEY)) {
        Some(t) => Some(t.to_owned()),
        None => {
            if str_eq(observation.schema.as_str(), LEGACY_HISTORY_SCHEMA) {
                match filled_text(observation.meta.get(LEGACY_HISTORY_SOURCE_INSTANCE_META_KEY)) {
                    Some(t) => Some(t.to_owned()),
                    None => None,
                }
            } else {
                None
            }
        },
    }
}

fn object_of(observation: &Observation, content: &Json) -> (r: Option<String>)
    ensures
        crate::text::opt_string(r) == observed_object(*observation, content@),
{
    match filled_text(observation.meta.get(OBJECT_ID_META_KEY)) {
        Some(t) => Some(t.to_owned()),
        None => {
            if str_eq(observation.schema.as_str(), LEGACY_HISTORY_SCHEMA) {
                match (
                    filled_text(content.get("source_session_id")),
                    filled_text(content.get("source_message_id")),
                ) {
                    (Some(session), Some(message)) => Some(text3(session, ":", message)),
                    _ => None,
                }
            } else {
                None
            }
        },
    }
}

/// The unit, the object and the canonical content of an observation, for what the canonical content
/// holds.
pub fn identity_inputs_for(observation: &Observation, content: Option<&Json>) -> (r: Result<
    (String, String, String),
    String,
>)
    ensures
        inputs_view(r) == identity_inputs(*observation, crate::json::opt_json(content)),
{
    match &observation.meta {
        Json::Object(_) => {},
        _ => {
            return Err("meta is not an object".to_owned());
        },
    }
    assert(observation.meta@ is Object);
    let canonical = match filled_text(observation.meta.get(CANONICAL_JSON_META_KEY)) {
        Some(t) => t,
        None => {
            return Err("meta.canonical_json is missing or blank".to_owned());
        },
    };
    let value = match content {
        Some(v) => v,
        None => {
            return Err("meta.canonical_json is not valid JSON".to_owned());
        },
    };
    let unit = match unit_of(observation) {
        Some(t) => t,
        None => {
            return Err("meta.source_instance is missing or blank".to_owned());
        },
    };
    match object_of(observation, value) {
        Some(object) => Ok((unit, object, canonical.to_owned())),
        None => Err("meta.object_id is missing or blank".to_owned()),
    }
}

/// The unit, the object and the canonical content of an observation, or why they cannot be told.
pub fn observation_identity_inputs(observation: &Observation) -> (r: Result<
    (String, String, String),
    String,
>)
    ensures
        inputs_view(r) == identity_inputs(*observation, canonical_content(*observation)),
{
    match filled_text(observation.meta.get(CANONICAL_JSON_META_KEY)) {
        Some(canonical) => match parse_json(canonical) {
            Ok(value) => identity_inputs_for(observation, Some(&value)),
            Err(_) => identity_inputs_for(observation, None),
        },
        None => identity_inputs_for(observation, None),
    }
}

/// An observation that is stored under an identity key.
#[derive(Debug)]
pub struct ExistingObservation {
    pub id: ObservationId,
    pub canonical_json_sha256: String,
    /// The canonical content in its metadata, where it is a text.
    pub canonical_json: Option<String>,
}

/// What is known of a stored observation when another one of its identity comes.
pub struct ExistingView {
    pub id: Seq<char>,
    pub canonical_json_sha256: Seq<char>,
    pub canonical_json: Option<Seq<char>>,
}

impl View for ExistingObservation {
    type V = ExistingView;

    open spec fn view(&self) -> ExistingView {
        ExistingView {
            id: self.id@,
            canonical_json_sha256: self.canonical_json_sha256@,
            canonical_json: crate::text::opt_string(self.canonical_json),
        }
    }
}

/// What the row of a new observation holds beside the observation.
#[derive(Debug)]
pub struct NewObservationRow {
    pub leaf_id: String,
    pub routing_key: String,
    pub identity_key: String,
    pub canonical_json_sha256: String,
}

/// What a row of a new observation says.
pub struct RowView {
    pub leaf_id: Seq<char>,
    pub routing_key: Seq<char>,
    pub identity_key: Seq<char>,
    pub canonical_json_sha256: Seq<char>,
}

impl View for NewObservationRow {
    type V = RowView;

    open spec fn view(&self) -> RowView {
        RowView {
            leaf_id: self.leaf_id@,
            routing_key: self.routing_key@,
            identity_key: self.identity_key@,
            canonical_json_sha256: self.canonical_json_sha256@,
        }
    }
}

/// What an append does.
#[derive(Debug)]
pub enum AppendStep {
    /// The identity is known: nothing is written.
    Known(DurableAppendOutcome),
    /// The identity is new: the observation is written with this row.
    Insert(NewObservationRow),
}

/// What an append does.
pub enum AppendStepView {
    Known(DurableView),
    Insert(RowView),
}

impl View for AppendStep {
    type V = AppendStepView;

    open spec fn view(&self) -> AppendStepView {
        match *self {
            AppendStep::Known(outcome) => AppendStepView::Known(outcome@),
            AppendStep::Insert(row) => AppendStepView::Insert(row@),
        }
    }
}

/// What a known identity is answered: the same content is a duplicate, other content a collision.
pub open spec fn known_outcome(existing: ExistingView, canonical: Seq<char>) -> Result<
    DurableView,
    PersistenceErrorView,
> {
    if existing.canonical_json_sha256 != crate::digest::text_digest(canonical) {
        Ok(DurableView::CanonicalCollision(existing.id))
    } else {
        match existing.canonical_json {
            None => Err(
                super::error::broken(
                    "stored observation.meta.canonical_json is required for duplicate detection"@,
                ),
            ),
            Some(stored) => if stored == canonical {
                Ok(DurableView::Duplicate(existing.id))
            } else {
                Ok(DurableView::CanonicalCollision(existing.id))
            },
        }
    }
}

/// What a durable append does, given the observation that is stored under its identity.
pub open spec fn append_decision(
    tree: TreeView,
    observation: Observation,
    existing: Option<ExistingView>,
) -> Result<AppendStepView, PersistenceErrorView> {
    match routing_of(observation) {
        Err(e) => Err(super::error::broken(routing_failure(e))),
        Ok(axes) => match crate::lake::store::canonical_text(observation) {
            None => Err(
                super::error::broken(
                    "observation.meta.canonical_json is required for durable ingest"@,
                ),
            ),
            Some(canonical) => match existing {
                Some(known) => match known_outcome(known, canonical) {
                    Ok(outcome) => Ok(AppendStepView::Known(outcome)),
                    Err(e) => Err(e),
                },
                None => Ok(
                    AppendStepView::Insert(
                        RowView {
                            leaf_id: crate::runtime::tree::route(
                                tree,
                                crate::runtime::partition::key_bytes(axes),
                            ),
                            routing_key: crate::runtime::partition::encoded_axes(axes),
                            identity_key: observation.idempotency_key@,
                            canonical_json_sha256: crate::digest::text_digest(canonical),
                        },
                    ),
                ),
            },
        },
    }
}

/// The axes that route an observation, or why it cannot be routed.
pub open spec fn routing_of(observation: Observation) -> Result<
    Seq<Seq<char>>,
    PartitionErrorView,
> {
    match crate::runtime::partition::routing_source(observation) {
        Err(e) => Err(e),
        Ok((source, container)) => crate::runtime::partition::routing_key_of(
            crate::runtime::partition::routing_axes(observation.published@, source, container),
        ),
    }
}

/// Why an observation cannot be routed, in words.
pub open spec fn routing_failure(error: PartitionErrorView) -> Seq<char> {
    match crate::runtime::partition::partition_message(error) {
        Some(m) => m,
        None => Seq::empty(),
    }
}

proof fn routing_never_reads_json(axes: Seq<Seq<char>>, from: int)
    requires
        0 <= from,
    ensures
        crate::runtime::partition::axes_error(axes, from) != Some(PartitionErrorView::Json),
    decreases axes.len() - from,
{
    if from < axes.len() {
        routing_never_reads_json(axes, from + 1);
    }
}

/// Decides a durable append, given the observation that is stored under its identity.
pub fn append_step(
    tree: &PartitionTree,
    observation: &Observation,
    existing: Option<&ExistingObservation>,
) -> (r: Result<AppendStep, PersistenceError>)
    ensures
        crate::text::result_view(r) == append_decision(
            tree@,
            *observation,
            match existing {
                Some(e) => Some(e@),
                None => None,
            },
        ),
{
    let key = match routing_key_from_observation(observation) {
        Ok(key) => key,
        Err(e) => {
            proof {
                match crate::runtime::partition::routing_source(*observation) {
                    Ok((source, container)) => {
                        routing_never_reads_json(
                            crate::runtime::partition::routing_axes(
                                observation.published@,
                                source,
                                container,
                            ),
                            0,
                        );
                    },
                    Err(_) => {},
                }
            }
            return Err(PersistenceError::SchemaInvariant(e.message()));
        },
    };
    let canonical = match observation.meta.get_str(CANONICAL_JSON_META_KEY) {
        Some(t) => t,
        None => {
            return Err(
                violation("observation.meta.canonical_json is required for durable ingest"),
            );
        },
    };
    let digest = canonical_json_sha256(canonical);
    match existing {
        Some(known) => {
            if !str_eq(known.canonical_json_sha256.as_str(), digest.as_str()) {
                return Ok(
                    AppendStep::Known(DurableAppendOutcome::CanonicalCollision(known.id.clone())),
                );
            }
            match &known.canonical_json {
                None => Err(
                    violation(
                        "stored observation.meta.canonical_json is required for duplicate detection",
                    ),
                ),
                Some(stored) => {
                    if str_eq(stored.as_str(), canonical) {
                        Ok(AppendStep::Known(DurableAppendOutcome::Duplicate(known.id.clone())))
                    } else {
                        Ok(
                            AppendStep::Known(
                                DurableAppendOutcome::CanonicalCollision(known.id.clone()),
                            ),
                        )
                    }
                },
            }
        },
        None => {
            let leaf = tree.route(&key);
            Ok(
                AppendStep::Insert(
                    NewObservationRow {
                        leaf_id: leaf.to_owned(),
                        routing_key: key.encoded(),
                        identity_key: observation.idempotency_key.as_str().to_owned(),
                        canonical_json_sha256: digest,
                    },
                ),
            )
        },
    }
}

/// What is known of an observation once it is stored.
pub open spec fn stored_view(observation: Observation) -> ExistingView {
    ExistingView {
        id: observation.id@,
        canonical_json_sha256: match crate::lake::store::canonical_text(observation) {
            Some(canonical) => crate::digest::text_digest(canonical),
            None => Seq::empty(),
        },
        canonical_json: crate::lake::store::canonical_text(observation),
    }
}

/// An append of an observation whose identity was just written is answered as a duplicate of it
/// where the content is the same, and as a collision where it is not.
pub proof fn written_observations_are_recognised(
    tree: TreeView,
    first: Observation,
    second: Observation,
)
    requires
        append_decision(tree, first, None) is Ok,
        append_decision(tree, second, None) is Ok,
    ensures
        append_decision(tree, second, Some(stored_view(first))) == Ok::<
            AppendStepView,
            PersistenceErrorView,
        >(
            AppendStepView::Known(
                if crate::lake::store::canonical_text(second) == crate::lake::store::canonical_text(
                    first,
                ) {
                    DurableView::Duplicate(first.id@)
                } else {
                    DurableView::CanonicalCollision(first.id@)
                },
            ),
        ),
{
}

/// The first of some observations with an identity key.
pub open spec fn first_with_key(observations: Seq<Observation>, key: Seq<char>) -> Option<int>
    decreases observations.len(),
{
    if observations.len() == 0 {
        None
    } else {
        match first_with_key(observations.drop_last(), key) {
            Some(i) => Some(i),
            None => if observations.last().idempotency_key@ == key {
                Some(observations.len() - 1)
            } else {
                None
            },
        }
    }
}

proof fn key_found_early(observations: Seq<Observation>, key: Seq<char>, n: int)
    requires
        0 <= n <= observations.len(),
        first_with_key(observations.take(n), key) is Some,
    ensures
        first_with_key(observations, key) == first_with_key(observations.take(n), key),
    decreases observations.len() - n,
{
    if n == observations.len() {
        assert(observations.take(n) =~= observations);
    } else {
        assert(observations.take(n + 1).drop_last() =~= observations.take(n));
        key_found_early(observations, key, n + 1);
    }
}

proof fn key_is_found(observations: Seq<Observation>, i: int)
    requires
        0 <= i < observations.len(),
    ensures
        first_with_key(observations, observations[i].idempotency_key@) is Some,
    decreases observations.len(),
{
    if i < observations.len() - 1 {
        key_is_found(observations.drop_last(), i);
    }
}

/// What is stored under the identity of the `i`th observation of a batch when its turn comes: what
/// was stored before the batch, else the first earlier one of the batch with that identity.
pub open spec fn known_in_turn(
    observations: Seq<Observation>,
    existing: Seq<Option<ExistingView>>,
    i: int,
) -> Option<ExistingView> {
    match existing[i] {
        Some(e) => Some(e),
        None => match first_with_key(
            observations.take(i),
            observations[i].idempotency_key@,
        ) {
            Some(j) => Some(stored_view(observations[j])),
            None => None,
        },
    }
}

/// What the append of the first `n` observations of a batch does, in order; the first one that
/// cannot be appended refuses the batch.
pub open spec fn batch_decision(
    tree: TreeView,
    observations: Seq<Observation>,
    existing: Seq<Option<ExistingView>>,
    n: int,
) -> Result<Seq<AppendStepView>, PersistenceErrorView>
    decreases n,
{
    if n <= 0 {
        Ok(Seq::empty())
    } else {
        match batch_decision(tree, observations, existing, n - 1) {
            Err(e) => Err(e),
            Ok(before) => match append_decision(
                tree,
                observations[n - 1],
                known_in_turn(observations, existing, n - 1),
            ) {
                Ok(step) => Ok(before.push(step)),
                Err(e) => Err(e),
            },
        }
    }
}

proof fn batch_stays_refused(
    tree: TreeView,
    observations: Seq<Observation>,
    existing: Seq<Option<ExistingView>>,
    n: int,
    m: int,
)
    requires
        n <= m,
        batch_decision(tree, observations, existing, n) is Err,
    ensures
        batch_decision(tree, observations, existing, m) == batch_decision(
            tree,
            observations,
            existing,
            n,
        ),
    decreases m - n,
{
    if n < m {
        batch_stays_refused(tree, observations, existing, n, m - 1);
    }
}

/// What some stored observations are known for.
pub open spec fn existing_views(existing: Seq<Option<ExistingObservation>>) -> Seq<
    Option<ExistingView>,
> {
    existing.map_values(
        |e: Option<ExistingObservation>|
            match e {
                Some(found) => Some(found@),
                None => None,
            },
    )
}

/// What some steps do.
pub open spec fn step_views(steps: Seq<AppendStep>) -> Seq<AppendStepView> {
    steps.map_values(|step: AppendStep| step@)
}

fn find_earlier(observations: &[Observation], before: usize, key: &str) -> (r: Option<usize>)
    requires
        before <= observations@.len(),
    ensures
        first_with_key(observations@.take(before as int), key@) == (match r {
            Some(i) => Some(i as int),
            None => None,
        }),
        r matches Some(i) ==> i < before,
{
    let ghost earlier = observations@.take(before as int);
    let mut i: usize = 0;
    while i < before
        invariant
            i <= before <= observations@.len(),
            earlier == observations@.take(before as int),
            first_with_key(earlier.take(i as int), key@) is None,
        decreases before - i,
    {
        proof {
            assert(earlier.take(i + 1).drop_last() =~= earlier.take(i as int));
            assert(earlier.take(i + 1).last() == observations@[i as int]);
        }
        if str_eq(observations[i].idempotency_key.as_str(), key) {
            proof {
                key_found_early(earlier, key@, i + 1);
            }
            return Some(i);
        }
        i = i + 1;
    }
    assert(earlier.take(i as int) =~= earlier);
    None
}

fn stored_form(observation: &Observation) -> (r: ExistingObservation)
    ensures
        r@ == stored_view(*observation),
{
    match observation.meta.get_str(CANONICAL_JSON_META_KEY) {
        Some(canonical) => ExistingObservation {
            id: observation.id.clone(),
            canonical_json_sha256: canonical_json_sha256(canonical),
            canonical_json: Some(canonical.to_owned()),
        },
        None => {
            let none = String::new();
            assert(none@ =~= Seq::empty());
            ExistingObservation {
                id: observation.id.clone(),
                canonical_json_sha256: none,
                canonical_json: None,
            }
        },
    }
}

/// Decides the append of a batch in one transaction, given for each observation the one that was
/// stored under its identity before.
pub fn append_observations_in_transaction(
    tree: &PartitionTree,
    observations: &[Observation],
    existing: &Vec<Option<ExistingObservation>>,
) -> (r: Result<Vec<AppendStep>, PersistenceError>)
    requires
        existing@.len() == observations@.len(),
    ensures
        (match r {
            Ok(steps) => Ok(step_views(steps@)),
            Err(e) => Err(e@),
        }) == batch_decision(
            tree@,
            observations@,
            existing_views(existing@),
            observations@.len() as int,
        ),
{
    let ghost views = existing_views(existing@);
    let ghost n = observations@.len() as int;
    let mut steps: Vec<AppendStep> = Vec::new();
    let mut i: usize = 0;
    assert(step_views(steps@) =~= Seq::empty());
    while i < observations.len()
        invariant
            i <= observations@.len(),
            n == observations@.len(),
            existing@.len() == observations@.len(),
            views == existing_views(existing@),
            batch_decision(tree@, observations@, views, i as int) == Ok::<
                Seq<AppendStepView>,
                PersistenceErrorView,
            >(step_views(steps@)),
        decreases observations@.len() - i,
    {
        let observation = &observations[i];
        let ghost before = steps@;
        let ghost found = known_in_turn(observations@, views, i as int);
        let step = match &existing[i] {
            Some(known) => append_step(tree, observation, Some(known)),
            None => match find_earlier(observations, i, observation.idempotency_key.as_str()) {
                Some(j) => {
                    let known = stored_form(&observations[j]);
                    append_step(tree, observation, Some(&known))
                },
                None => append_step(tree, observation, None),
            },
        };
        assert(crate::text::result_view(step) == append_decision(tree@, *observation, found));
        match step {
            Ok(done) => {
                steps.push(done);
                assert(step_views(steps@) =~= step_views(before).push(done@));
            },
            Err(e) => {
                proof {
                    batch_stays_refused(tree@, observations@, views, i + 1, n);
                }
                return Err(e);
            },
        }
        i = i + 1;
    }
    Ok(steps)
}

/// What a step is answered.
pub open spec fn step_outcome(step: AppendStepView, id: Seq<char>) -> DurableView {
    match step {
        AppendStepView::Known(outcome) => outcome,
        AppendStepView::Insert(_) => DurableView::Appended(id),
    }
}

/// What the append of an observation is answered once its step is done.
pub fn outcome_of_step(step: AppendStep, id: &ObservationId) -> (r: DurableAppendOutcome)
    ensures
        r@ == step_outcome(step@, id@),
{
    match step {
        AppendStep::Known(outcome) => outcome,
        AppendStep::Insert(_) => DurableAppendOutcome::Appended(id.clone()),
    }
}

proof fn batch_step_at(
    tree: TreeView,
    observations: Seq<Observation>,
    existing: Seq<Option<ExistingView>>,
    n: int,
    i: int,
)
    requires
        0 <= i < n,
        batch_decision(tree, observations, existing, n) is Ok,
    ensures
        batch_decision(tree, observations, existing, n)->Ok_0.len() == n,
        append_decision(tree, observations[i], known_in_turn(observations, existing, i)) == Ok::<
            AppendStepView,
            PersistenceErrorView,
        >(batch_decision(tree, observations, existing, n)->Ok_0[i]),
    decreases n,
{
    reveal_with_fuel(batch_decision, 2);
    if n > 1 {
        if i < n - 1 {
            batch_step_at(tree, observations, existing, n - 1, i);
        } else {
            batch_step_at(tree, observations, existing, n - 1, 0);
        }
    }
}

/// A batch writes each identity at most once, and none that was stored before it.
pub proof fn batches_write_each_identity_once(
    tree: TreeView,
    observations: Seq<Observation>,
    existing: Seq<Option<ExistingView>>,
    i: int,
    j: int,
)
    requires
        existing.len() == observations.len(),
        batch_decision(tree, observations, existing, observations.len() as int) is Ok,
        0 <= i < j < observations.len(),
        observations[i].idempotency_key@ == observations[j].idempotency_key@,
    ensures
        ({
            let steps = batch_decision(
                tree,
                observations,
                existing,
                observations.len() as int,
            )->Ok_0;
            &&& steps[j] is Known
            &&& existing[i] is Some ==> steps[i] is Known
        }),
{
    let n = observations.len() as int;
    batch_step_at(tree, observations, existing, n, i);
    batch_step_at(tree, observations, existing, n, j);
    assert(observations.take(j)[i] == observations[i]);
    key_is_found(observations.take(j), i);
}

/// The outcome of an append that writes.
pub fn persist_outcome(outcome: DurableAppendOutcome) -> (r: Result<(), PersistenceError>)
    ensures
        (match r {
            Ok(()) => Ok(()),
            Err(e) => Err(e@),
        }) == (match outcome@ {
            DurableView::Appended(_) => Ok(()),
            DurableView::Duplicate(id) => Err(
                super::error::broken("duplicate observation already exists: "@ + id),
            ),
            DurableView::CanonicalCollision(id) => Err(
                super::error::broken("identity key collision with existing observation: "@ + id),
            ),
        }),
{
    match outcome {
        DurableAppendOutcome::Appended(_) => Ok(()),
        DurableAppendOutcome::Duplicate(id) => Err(
            PersistenceError::SchemaInvariant(
                text2("duplicate observation already exists: ", id.as_str()),
            ),
        ),
        DurableAppendOutcome::CanonicalCollision(id) => Err(
            PersistenceError::SchemaInvariant(
                text2("identity key collision with existing observation: ", id.as_str()),
            ),
        ),
    }
}

/// How an observation keeps or changes its identity when it moves.
#[derive(Debug)]
pub enum RehomeMode {
    StoredIdentity,
    RecomputedIdentity { identity_key: IdempotencyKey, canonical_json: String },
}

/// The members of an object; another value has none.
pub open spec fn own_members(value: JsonView) -> Seq<(Seq<char>, JsonView)> {
    match value {
        JsonView::Object(members) => members,
        _ => Seq::empty(),
    }
}

/// Whether an observation is another one with a new identity: everything else is the same, and the
/// metadata holds the new canonical content.
pub open spec fn reidentified(
    r: Observation,
    from: Observation,
    identity_key: Seq<char>,
    canonical_json: Seq<char>,
) -> bool {
    &&& r.idempotency_key@ == identity_key
    &&& r.meta@ == JsonView::Object(
        crate::json::set_member(
            own_members(from.meta@),
            CANONICAL_JSON_META_KEY@,
            JsonView::Str(canonical_json),
        ),
    )
    &&& r == (Observation { idempotency_key: r.idempotency_key, meta: r.meta, ..from })
}

/// An observation with a new identity and canonical content.
pub fn with_identity(
    observation: Observation,
    identity_key: &IdempotencyKey,
    canonical_json: &str,
) -> (r: Observation)
    ensures
        reidentified(r, observation, identity_key@, canonical_json@),
{
    let ghost given = own_members(observation.meta@);
    let mut result = observation;
    let mut members: Vec<(String, Json)> = match result.meta {
        Json::Object(own) => own,
        _ => Vec::new(),
    };
    assert(crate::json::member_views(members@) =~= given);
    put_member(&mut members, CANONICAL_JSON_META_KEY, crate::json::text(canonical_json));
    result.meta = crate::json::object(members);
    result.idempotency_key = identity_key.clone();
    result
}

/// The observation that is appended when one moves: as it is where it keeps an identity that it can
/// be compared by, or with the recomputed identity.
pub fn rehomed(observation: Observation, mode: &RehomeMode) -> (r: Result<
    Observation,
    PersistenceError,
>)
    ensures
        match mode {
            RehomeMode::StoredIdentity => match r {
                Ok(o) => o == observation && crate::lake::store::canonical_text(
                    observation,
                ) is Some,
                Err(e) => crate::lake::store::canonical_text(observation) is None && e@
                    == super::error::broken(
                    "rehome mode StoredIdentity requires observation.meta.canonical_json"@,
                ),
            },
            RehomeMode::RecomputedIdentity { identity_key, canonical_json } => r matches Ok(o)
                && reidentified(o, observation, identity_key@, canonical_json@),
        },
{
    match mode {
        RehomeMode::StoredIdentity => match observation.meta.get_str(CANONICAL_JSON_META_KEY) {
            Some(_) => Ok(observation),
            None => Err(
                violation("rehome mode StoredIdentity requires observation.meta.canonical_json"),
            ),
        },
        RehomeMode::RecomputedIdentity { identity_key, canonical_json } => Ok(
            with_identity(observation, identity_key, canonical_json.as_str()),
        ),
    }
}

/// An observation with a recomputed identity carries the canonical content that it was given.
pub proof fn recomputed_identities_are_read_back(
    r: Observation,
    from: Observation,
    identity_key: Seq<char>,
    canonical_json: Seq<char>,
)
    requires
        reidentified(r, from, identity_key, canonical_json),
    ensures
        crate::lake::store::canonical_text(r) == Some(canonical_json),
{
    crate::json::set_member_is_found(
        own_members(from.meta@),
        CANONICAL_JSON_META_KEY@,
        JsonView::Str(canonical_json),
        CANONICAL_JSON_META_KEY@,
    );
}

/// A stored observation that an identity may stand for.
#[derive(Debug)]
pub struct BridgeCandidate {
    pub observation_id: ObservationId,
    pub append_seq: u64,
    pub canonical_json: String,
}

/// Which stored observation an identity stands for.
#[derive(Debug)]
pub struct IdentityBridgeResolution {
    pub v2_identity_key: String,
    pub winner: Option<ObservationId>,
    pub winner_append_seq: Option<u64>,
    pub multiplicity: u64,
    pub canonical_collision: bool,
    pub collision_append_seq: Option<u64>,
}

/// The position of the first candidate with other content.
pub open spec fn first_collision(
    candidates: Seq<BridgeCandidate>,
    canonical_json: Seq<char>,
) -> Option<int>
    decreases candidates.len(),
{
    if candidates.len() == 0 {
        None
    } else {
        match first_collision(candidates.drop_last(), canonical_json) {
            Some(i) => Some(i),
            None => if candidates.last().canonical_json@ != canonical_json {
                Some(candidates.len() - 1)
            } else {
                None
            },
        }
    }
}

/// Whether a resolution is that of an identity with the given candidates, oldest first: the oldest
/// wins, and content other than the given one collides.
pub open spec fn resolves(
    r: IdentityBridgeResolution,
    key: Seq<char>,
    canonical_json: Seq<char>,
    candidates: Seq<BridgeCandidate>,
) -> bool {
    &&& r.v2_identity_key@ == key
    &&& match r.winner {
        Some(id) => candidates.len() > 0 && id@ == candidates[0].observation_id@,
        None => candidates.len() == 0,
    }
    &&& r.winner_append_seq == if candidates.len() > 0 {
        Some(candidates[0].append_seq)
    } else {
        None
    }
    &&& r.multiplicity == candidates.len()
    &&& r.canonical_collision == (first_collision(candidates, canonical_json) is Some)
    &&& r.collision_append_seq == match first_collision(candidates, canonical_json) {
        Some(i) => Some(candidates[i].append_seq),
        None => None,
    }
}

/// Which stored observation an identity stands for, given its candidates, oldest first.
pub fn resolve_bridge(
    v2_identity_key: &str,
    canonical_json: &str,
    candidates: &[BridgeCandidate],
) -> (r: IdentityBridgeResolution)
    ensures
        resolves(r, v2_identity_key@, canonical_json@, candidates@),
{
    let mut collision: Option<usize> = None;
    let mut i: usize = 0;
    while i < candidates.len()
        invariant
            i <= candidates@.len(),
            (match collision {
                Some(k) => Some(k as int),
                None => None,
            }) == first_collision(candidates@.take(i as int), canonical_json@),
            collision matches Some(k) ==> k < i,
        decreases candidates@.len() - i,
    {
        assert(candidates@.take(i + 1).drop_last() =~= candidates@.take(i as int));
        if collision.is_none() && !str_eq(candidates[i].canonical_json.as_str(), canonical_json) {
            collision = Some(i);
        }
        i = i + 1;
    }
    assert(candidates@.take(i as int) =~= candidates@);
    let (winner, winner_append_seq) = if candidates.len() > 0 {
        (Some(candidates[0].observation_id.clone()), Some(candidates[0].append_seq))
    } else {
        (None, None)
    };
    IdentityBridgeResolution {
        v2_identity_key: v2_identity_key.to_owned(),
        winner,
        winner_append_seq,
        multiplicity: candidates.len() as u64,
        canonical_collision: collision.is_some(),
        collision_append_seq: match collision {
            Some(k) => Some(candidates[k].append_seq),
            None => None,
        },
    }
}

/// What the bridge notes of one stored observation.
#[derive(Debug)]
pub enum BridgeEntry {
    /// The observation carries the key of its content already: nothing is noted.
    Current,
    /// The observation stands for the key of its content.
    Candidate { v2_identity_key: String, source_instance_id: String, canonical_json: String },
    /// The key of its content cannot be told.
    Gap { stated_instance_id: Option<String>, reason: String },
}

/// What the bridge notes.
pub enum BridgeEntryView {
    Current,
    Candidate { v2_identity_key: Seq<char>, source: Seq<char>, canonical_json: Seq<char> },
    Gap { stated: Option<Seq<char>>, reason: Seq<char> },
}

impl View for BridgeEntry {
    type V = BridgeEntryView;

    open spec fn view(&self) -> BridgeEntryView {
        match *self {
            BridgeEntry::Current => BridgeEntryView::Current,
            BridgeEntry::Candidate { v2_identity_key, source_instance_id, canonical_json } =>
                BridgeEntryView::Candidate {
                v2_identity_key: v2_identity_key@,
                source: source_instance_id@,
                canonical_json: canonical_json@,
            },
            BridgeEntry::Gap { stated_instance_id, reason } => BridgeEntryView::Gap {
                stated: crate::text::opt_string(stated_instance_id),
                reason: reason@,
            },
        }
    }
}

/// What the bridge notes of a stored observation, for what its canonical content holds.
pub open spec fn bridge_note(observation: Observation, content: Option<JsonView>) -> BridgeEntryView {
    match identity_inputs(observation, content) {
        Ok((unit, object, canonical)) => {
            let key = bridge_key(unit, object, canonical);
            if observation.idempotency_key@ == key {
                BridgeEntryView::Current
            } else {
                BridgeEntryView::Candidate {
                    v2_identity_key: key,
                    source: unit,
                    canonical_json: canonical,
                }
            }
        },
        Err(reason) => BridgeEntryView::Gap {
            stated: crate::json::as_text(
                crate::json::member(observation.meta@, CUTOVER_UNIT_META_KEY@),
            ),
            reason,
        },
    }
}

fn note_of(observation: &Observation, inputs: Result<(String, String, String), String>) -> (r:
    BridgeEntry)
    ensures
        forall|content: Option<JsonView>|
            inputs_view(inputs) == #[trigger] identity_inputs(*observation, content) ==> r@
                == bridge_note(*observation, content),
{
    match inputs {
        Ok((unit, object, canonical)) => {
            let key = bridge_identity_key(unit.as_str(), object.as_str(), canonical.as_str());
            if str_eq(observation.idempotency_key.as_str(), key.as_str()) {
                BridgeEntry::Current
            } else {
                BridgeEntry::Candidate {
                    v2_identity_key: key,
                    source_instance_id: unit,
                    canonical_json: canonical,
                }
            }
        },
        Err(reason) => {
            let stated_instance_id = match observation.meta.get_str(CUTOVER_UNIT_META_KEY) {
                Some(t) => Some(t.to_owned()),
                None => None,
            };
            BridgeEntry::Gap { stated_instance_id, reason }
        },
    }
}

/// What the bridge notes of a stored observation, for what its canonical content holds.
pub fn bridge_entry_for(observation: &Observation, content: Option<&Json>) -> (r: BridgeEntry)
    ensures
        r@ == bridge_note(*observation, crate::json::opt_json(content)),
{
    note_of(observation, identity_inputs_for(observation, content))
}

/// What the bridge notes of a stored observation.
pub fn bridge_entry(observation: &Observation) -> (r: BridgeEntry)
    ensures
        r@ == bridge_note(*observation, canonical_content(*observation)),
{
    note_of(observation, observation_identity_inputs(observation))
}

/// What one round of the bridge did.
#[derive(Debug)]
pub struct IdentityBridgeBatchReport {
    pub previous_watermark: u64,
    pub watermark: u64,
    pub read_count: usize,
    pub candidate_count: usize,
    pub gap_count: usize,
}

/// A stored observation with the position at which it was appended.
#[derive(Debug)]
pub struct StoredObservation {
    pub leaf_id: String,
    pub append_seq: u64,
    pub observation: Observation,
}

/// What the bridge notes of each of some stored observations.
pub open spec fn bridge_notes(rows: Seq<StoredObservation>) -> Seq<BridgeEntryView> {
    rows.map_values(
        |row: StoredObservation|
            bridge_note(row.observation, canonical_content(row.observation)),
    )
}

/// The watermark after a round that read some rows: the position of the last row, or the one before
/// where there is none.
pub open spec fn watermark_after(previous: u64, rows: Seq<StoredObservation>) -> u64 {
    if rows.len() > 0 {
        rows.last().append_seq
    } else {
        previous
    }
}

/// The notes of a round of the bridge, in the order of the rows, and the watermark after it: the
/// position of the last row, or the one before where there is none.
pub fn bridge_batch(previous: u64, rows: &[StoredObservation]) -> (r: (Vec<BridgeEntry>, u64))
    ensures
        r.0@.map_values(|e: BridgeEntry| e@) == bridge_notes(rows@),
        r.1 == watermark_after(previous, rows@),
{
    let mut notes: Vec<BridgeEntry> = Vec::new();
    let mut watermark: u64 = previous;
    let mut i: usize = 0;
    while i < rows.len()
        invariant
            i <= rows@.len(),
            notes@.len() == i,
            forall|j: int|
                0 <= j < i ==> (#[trigger] notes@[j])@ == bridge_note(
                    rows@[j].observation,
                    canonical_content(rows@[j].observation),
                ),
            watermark == if i > 0 {
                rows@[i - 1].append_seq
            } else {
                previous
            },
        decreases rows@.len() - i,
    {
        notes.push(bridge_entry(&rows[i].observation));
        watermark = rows[i].append_seq;
        i = i + 1;
    }
    assert(notes@.map_values(|e: BridgeEntry| e@) =~= bridge_notes(rows@));
    (notes, watermark)
}

/// Refuses a round of the bridge that would read nothing.
pub fn check_bridge_batch(batch_size: usize) -> (r: Result<(), StorageError>)
    ensures
        match r {
            Ok(()) => batch_size > 0,
            Err(e) => batch_size == 0 && e@ == StorageErrorView::Invariant(
                "identity bridge batch size must be greater than zero"@,
            ),
        },
{
    if batch_size == 0 {
        Err(
            StorageError::Invariant(
                "identity bridge batch size must be greater than zero".to_owned(),
            ),
        )
    } else {
        Ok(())
    }
}

/// What the bridge keeps: how far it has read, and its notes by the positions of the observations
/// that they are of.
pub struct BridgeState {
    pub watermark: u64,
    pub notes: Map<u64, (Seq<char>, BridgeEntryView)>,
}

/// Whether stored observations stand in the order in which they were appended.
pub open spec fn appended_in_order(ledger: Seq<StoredObservation>) -> bool {
    forall|i: int, j: int|
        #![trigger ledger[i], ledger[j]]
        0 <= i < j < ledger.len() ==> ledger[i].append_seq < ledger[j].append_seq
}

/// The stored observations that lie beyond a watermark.
pub open spec fn beyond(ledger: Seq<StoredObservation>, watermark: u64) -> Seq<StoredObservation>
    decreases ledger.len(),
{
    if ledger.len() == 0 {
        Seq::empty()
    } else if ledger.last().append_seq > watermark {
        beyond(ledger.drop_last(), watermark).push(ledger.last())
    } else {
        beyond(ledger.drop_last(), watermark)
    }
}

/// The rows of a round: the first of those beyond the watermark, and no more than the batch holds.
pub open spec fn read_in_round(
    ledger: Seq<StoredObservation>,
    watermark: u64,
    batch_size: nat,
) -> Seq<StoredObservation> {
    let rest = beyond(ledger, watermark);
    if rest.len() < batch_size {
        rest
    } else {
        rest.take(batch_size as int)
    }
}

/// The notes with those of some rows; a position that has a note keeps it.
pub open spec fn with_notes(
    notes: Map<u64, (Seq<char>, BridgeEntryView)>,
    rows: Seq<StoredObservation>,
) -> Map<u64, (Seq<char>, BridgeEntryView)>
    decreases rows.len(),
{
    if rows.len() == 0 {
        notes
    } else {
        let before = with_notes(notes, rows.drop_last());
        let row = rows.last();
        let note = bridge_note(row.observation, canonical_content(row.observation));
        if note is Current || before.contains_key(row.append_seq) {
            before
        } else {
            before.insert(row.append_seq, (row.observation.id@, note))
        }
    }
}

/// What the bridge keeps after a round over the stored observations.
pub open spec fn after_round(
    state: BridgeState,
    ledger: Seq<StoredObservation>,
    batch_size: nat,
) -> BridgeState {
    let rows = read_in_round(ledger, state.watermark, batch_size);
    BridgeState {
        watermark: watermark_after(state.watermark, rows),
        notes: with_notes(state.notes, rows),
    }
}

/// How many of the stored observations a watermark covers.
spec fn covered(ledger: Seq<StoredObservation>, watermark: u64) -> int {
    ledger.len() - beyond(ledger, watermark).len()
}

proof fn beyond_is_the_tail(ledger: Seq<StoredObservation>, watermark: u64)
    requires
        appended_in_order(ledger),
    ensures
        ({
            let k = covered(ledger, watermark);
            &&& 0 <= k <= ledger.len()
            &&& beyond(ledger, watermark) == ledger.skip(k)
            &&& forall|i: int| 0 <= i < k ==> (#[trigger] ledger[i]).append_seq <= watermark
            &&& forall|i: int|
                k <= i < ledger.len() ==> (#[trigger] ledger[i]).append_seq > watermark
        }),
    decreases ledger.len(),
{
    if ledger.len() == 0 {
        assert(beyond(ledger, watermark) =~= ledger.skip(0));
    } else {
        let init = ledger.drop_last();
        assert forall|i: int, j: int|
            #![trigger init[i], init[j]]
            0 <= i < j < init.len() implies init[i].append_seq < init[j].append_seq by {
            assert(init[i] == ledger[i] && init[j] == ledger[j]);
        }
        beyond_is_the_tail(init, watermark);
        let last = ledger[ledger.len() - 1];
        let k = covered(init, watermark);
        assert forall|i: int| 0 <= i < k implies (#[trigger] ledger[i]).append_seq
            <= watermark by {
            assert(ledger[i] == init[i]);
        }
        assert forall|i: int| k <= i < init.len() implies (#[trigger] ledger[i]).append_seq
            > watermark by {
            assert(ledger[i] == init[i]);
        }
        if last.append_seq > watermark {
            assert(beyond(ledger, watermark) =~= ledger.skip(k));
        } else {
            if k < init.len() {
                assert(ledger[k].append_seq < last.append_seq);
                assert(false);
            }
            assert(beyond(ledger, watermark) =~= ledger.skip(ledger.len() as int));
        }
    }
}

proof fn notes_of_both(
    notes: Map<u64, (Seq<char>, BridgeEntryView)>,
    first: Seq<StoredObservation>,
    second: Seq<StoredObservation>,
)
    ensures
        with_notes(notes, first + second) == with_notes(with_notes(notes, first), second),
    decreases second.len(),
{
    if second.len() == 0 {
        assert(first + second =~= first);
    } else {
        notes_of_both(notes, first, second.drop_last());
        assert((first + second).drop_last() =~= first + second.drop_last());
        assert((first + second).last() == second.last());
    }
}

proof fn notes_elsewhere_stay(
    notes: Map<u64, (Seq<char>, BridgeEntryView)>,
    rows: Seq<StoredObservation>,
    at: u64,
)
    requires
        forall|i: int| 0 <= i < rows.len() ==> (#[trigger] rows[i]).append_seq != at,
    ensures
        with_notes(notes, rows).contains_key(at) == notes.contains_key(at),
        with_notes(notes, rows)[at] == notes[at],
    decreases rows.len(),
{
    if rows.len() > 0 {
        let init = rows.drop_last();
        assert forall|i: int| 0 <= i < init.len() implies (#[trigger] init[i]).append_seq
            != at by {
            assert(init[i] == rows[i]);
        }
        notes_elsewhere_stay(notes, init, at);
        assert(rows[rows.len() - 1].append_seq != at);
    }
}

/// A round of the bridge reads the oldest observations beyond the watermark, as many as there are up
/// to the size of the batch. It leaves the watermark at the last one read, so that the next round
/// starts with the first one that was not read, and it notes nothing of any other observation. Where
/// nothing lies beyond the watermark, a round changes nothing.
pub proof fn rounds_read_what_is_new(
    state: BridgeState,
    ledger: Seq<StoredObservation>,
    batch_size: nat,
    at: u64,
)
    requires
        appended_in_order(ledger),
        batch_size > 0,
    ensures
        ({
            let rest = beyond(ledger, state.watermark);
            let rows = read_in_round(ledger, state.watermark, batch_size);
            let after = after_round(state, ledger, batch_size);
            &&& rows.len() == if rest.len() < batch_size {
                rest.len()
            } else {
                batch_size
            }
            &&& rows == rest.take(rows.len() as int)
            &&& beyond(ledger, after.watermark) == rest.skip(rows.len() as int)
            &&& after.watermark >= state.watermark
            &&& forall|i: int|
                0 <= i < rows.len() ==> state.watermark < (#[trigger] rows[i]).append_seq
                    <= after.watermark
            &&& (forall|i: int| 0 <= i < rows.len() ==> (#[trigger] rows[i]).append_seq != at) ==> (
            after.notes.contains_key(at) == state.notes.contains_key(at) && after.notes[at]
                == state.notes[at])
            &&& rest.len() == 0 ==> after == state
        }),
{
    let rest = beyond(ledger, state.watermark);
    let rows = read_in_round(ledger, state.watermark, batch_size);
    let after = after_round(state, ledger, batch_size);
    let k = covered(ledger, state.watermark);
    beyond_is_the_tail(ledger, state.watermark);
    beyond_is_the_tail(ledger, after.watermark);
    let next = covered(ledger, after.watermark);
    let m = rows.len() as int;
    assert(rows =~= rest.take(m));
    assert forall|i: int| 0 <= i < m implies rows[i] == ledger[k + i] by {}
    if m > 0 {
        assert(after.watermark == ledger[k + m - 1].append_seq);
        if next < k + m {
            assert(ledger[k + m - 1].append_seq > after.watermark);
        }
        if next > k + m {
            assert(ledger[k + m].append_seq <= after.watermark);
            assert(ledger[k + m - 1].append_seq < ledger[k + m].append_seq);
        }
        assert forall|i: int| 0 <= i < m implies state.watermark < (
        #[trigger] rows[i]).append_seq <= after.watermark by {
            assert(rows[i] == ledger[k + i]);
            if i < m - 1 {
                assert(ledger[k + i].append_seq < ledger[k + m - 1].append_seq);
            }
        }
    }
    assert(next == k + m);
    assert(beyond(ledger, after.watermark) =~= rest.skip(m));
    if forall|i: int| 0 <= i < rows.len() ==> (#[trigger] rows[i]).append_seq != at {
        notes_elsewhere_stay(state.notes, rows, at);
    }
}

/// Rounds go on where the one before stopped: two rounds note what a single round of both sizes
/// would note.
pub proof fn rounds_go_on_where_they_stopped(
    state: BridgeState,
    ledger: Seq<StoredObservation>,
    first: nat,
    second: nat,
)
    requires
        appended_in_order(ledger),
        first > 0,
        second > 0,
    ensures
        after_round(after_round(state, ledger, first), ledger, second) == after_round(
            state,
            ledger,
            first + second,
        ),
{
    let rest = beyond(ledger, state.watermark);
    let middle = after_round(state, ledger, first);
    let a = read_in_round(ledger, state.watermark, first);
    let b = read_in_round(ledger, middle.watermark, second);
    let whole = read_in_round(ledger, state.watermark, first + second);
    rounds_read_what_is_new(state, ledger, first, 0);
    rounds_read_what_is_new(middle, ledger, second, 0);
    rounds_read_what_is_new(state, ledger, first + second, 0);
    assert(whole =~= a + b);
    notes_of_both(state.notes, a, b);
    if b.len() > 0 {
        assert(whole.last() == b.last());
    } else {
        assert(whole =~= a);
    }
}

/// What an append of the second version does before the identity registry is asked.
#[derive(Debug)]
pub enum BridgedStep {
    /// The bridge knows the identity.
    Known(DurableAppendOutcome),
    /// The bridge knows nothing of the identity: the append goes on.
    Append,
}

/// What an append of the second version does before the identity registry is asked.
pub enum BridgedView {
    Known(DurableView),
    Append,
}

impl View for BridgedStep {
    type V = BridgedView;

    open spec fn view(&self) -> BridgedView {
        match *self {
            BridgedStep::Known(outcome) => BridgedView::Known(outcome@),
            BridgedStep::Append => BridgedView::Append,
        }
    }
}

/// The identity key of an observation of the second version, or why it is refused.
pub open spec fn v2_key(
    observation: Observation,
    source_instance_id: Seq<char>,
    content: Option<JsonView>,
) -> Result<(Seq<char>, Seq<char>), PersistenceErrorView> {
    match identity_inputs(observation, content) {
        Err(reason) => Err(
            super::error::broken(
                "v2 bridge input for "@ + observation.id@ + " is invalid: "@ + reason,
            ),
        ),
        Ok((unit, object, canonical)) => if unit != source_instance_id {
            Err(
                super::error::broken(
                    "v2 observation "@ + observation.id@ + " belongs to source_instance_id "@ + unit
                        + ", expected "@ + source_instance_id,
                ),
            )
        } else if observation.idempotency_key@ != bridge_key(unit, object, canonical) {
            Err(
                super::error::broken(
                    "v2 observation "@ + observation.id@ + " identity does not match bridge formula"@,
                ),
            )
        } else {
            Ok((observation.idempotency_key@, canonical))
        },
    }
}

/// The identity key and canonical content of an observation of the second version, or why it is
/// refused.
pub fn v2_identity(observation: &Observation, source_instance_id: &str) -> (r: Result<
    (String, String),
    PersistenceError,
>)
    ensures
        (match r {
            Ok((key, canonical)) => Ok((key@, canonical@)),
            Err(e) => Err(e@),
        }) == v2_key(*observation, source_instance_id@, canonical_content(*observation)),
{
    match observation_identity_inputs(observation) {
        Err(reason) => {
            let head = text3("v2 bridge input for ", observation.id.as_str(), " is invalid: ");
            Err(PersistenceError::SchemaInvariant(text2(head.as_str(), reason.as_str())))
        },
        Ok((unit, object, canonical)) => {
            if !str_eq(unit.as_str(), source_instance_id) {
                return Err(
                    PersistenceError::SchemaInvariant(
                        text6(
                            "v2 observation ",
                            observation.id.as_str(),
                            " belongs to source_instance_id ",
                            unit.as_str(),
                            ", expected ",
                            source_instance_id,
                        ),
                    ),
                );
            }
            let key = bridge_identity_key(unit.as_str(), object.as_str(), canonical.as_str());
            if !str_eq(observation.idempotency_key.as_str(), key.as_str()) {
                return Err(
                    PersistenceError::SchemaInvariant(
                        text3(
                            "v2 observation ",
                            observation.id.as_str(),
                            " identity does not match bridge formula",
                        ),
                    ),
                );
            }
            Ok((key, canonical))
        },
    }
}

/// What the bridge answers: the winner where there is one, as a duplicate or a collision.
pub fn bridged_step(resolution: &IdentityBridgeResolution) -> (r: BridgedStep)
    ensures
        r@ == (match resolution.winner {
            Some(id) => BridgedView::Known(
                if resolution.canonical_collision {
                    DurableView::CanonicalCollision(id@)
                } else {
                    DurableView::Duplicate(id@)
                },
            ),
            None => BridgedView::Append,
        }),
{
    match &resolution.winner {
        Some(id) => {
            if resolution.canonical_collision {
                BridgedStep::Known(DurableAppendOutcome::CanonicalCollision(id.clone()))
            } else {
                BridgedStep::Known(DurableAppendOutcome::Duplicate(id.clone()))
            }
        },
        None => BridgedStep::Append,
    }
}

/// How many appends of a batch the bridge answered as duplicates; an append stands with whether the
/// bridge answered it.
pub open spec fn bridge_hits(steps: Seq<(DurableAppendOutcome, bool)>) -> nat
    decreases steps.len(),
{
    if steps.len() == 0 {
        0
    } else {
        bridge_hits(steps.drop_last()) + if steps.last().1 && steps.last().0 is Duplicate {
            1nat
        } else {
            0nat
        }
    }
}

/// The observations that a batch added, in order.
pub open spec fn appended_ids(steps: Seq<(DurableAppendOutcome, bool)>) -> Seq<Seq<char>>
    decreases steps.len(),
{
    if steps.len() == 0 {
        Seq::empty()
    } else {
        match steps.last().0 {
            DurableAppendOutcome::Appended(id) => appended_ids(steps.drop_last()).push(id@),
            _ => appended_ids(steps.drop_last()),
        }
    }
}

/// What a batch of the second version counts as: the appends that the bridge answered as
/// duplicates, and the observations that were added.
pub fn bridged_batch(steps: &Vec<(DurableAppendOutcome, bool)>) -> (r: (u64, Vec<ObservationId>))
    ensures
        r.0 == bridge_hits(steps@),
        r.1@.map_values(|id: ObservationId| id@) == appended_ids(steps@),
{
    let mut hits: u64 = 0;
    let mut ids: Vec<ObservationId> = Vec::new();
    let mut i: usize = 0;
    assert(ids@.map_values(|id: ObservationId| id@) =~= Seq::empty());
    while i < steps.len()
        invariant
            i <= steps@.len(),
            hits <= i,
            hits == bridge_hits(steps@.take(i as int)),
            ids@.map_values(|id: ObservationId| id@) == appended_ids(steps@.take(i as int)),
        decreases steps@.len() - i,
    {
        assert(steps@.take(i + 1).drop_last() =~= steps@.take(i as int));
        match &steps[i].0 {
            DurableAppendOutcome::Appended(id) => {
                let ghost before = ids@;
                ids.push(id.clone());
                assert(ids@.map_values(|id: ObservationId| id@) =~= before.map_values(
                    |id: ObservationId| id@,
                ).push(id@));
            },
            DurableAppendOutcome::Duplicate(_) => {
                if steps[i].1 {
                    hits = hits + 1;
                }
            },
            DurableAppendOutcome::CanonicalCollision(_) => {},
        }
        i = i + 1;
    }
    assert(steps@.take(i as int) =~= steps@);
    (hits, ids)
}

/// An append of the second version is answered by the oldest candidate of its identity: as a
/// duplicate where every candidate holds the same content, else as a collision.
pub proof fn bridge_answers_with_the_oldest(
    r: IdentityBridgeResolution,
    key: Seq<char>,
    canonical_json: Seq<char>,
    candidates: Seq<BridgeCandidate>,
)
    requires
        resolves(r, key, canonical_json, candidates),
        candidates.len() > 0,
    ensures
        r.winner matches Some(id) && id@ == candidates[0].observation_id@,
        r.canonical_collision <==> exists|i: int|
            0 <= i < candidates.len() && (#[trigger] candidates[i]).canonical_json@
                != canonical_json,
{
    collisions_exist(candidates, canonical_json);
}

/// Some candidate collides just where one of them has other content.
pub proof fn collisions_exist(candidates: Seq<BridgeCandidate>, canonical_json: Seq<char>)
    ensures
        first_collision(candidates, canonical_json) is Some <==> exists|i: int|
            0 <= i < candidates.len() && (#[trigger] candidates[i]).canonical_json@
                != canonical_json,
    decreases candidates.len(),
{
    if candidates.len() > 0 {
        let init = candidates.drop_last();
        collisions_exist(init, canonical_json);
        if first_collision(init, canonical_json) is Some {
            let i = choose|i: int|
                0 <= i < init.len() && (#[trigger] init[i]).canonical_json@ != canonical_json;
            assert(candidates[i] == init[i]);
        } else {
            if candidates.last().canonical_json@ != canonical_json {
                assert(candidates[candidates.len() - 1].canonical_json@ != canonical_json);
            }
            assert forall|i: int| 0 <= i < candidates.len() - 1 implies (
            #[trigger] candidates[i]).canonical_json@ == canonical_json by {
                assert(init[i] == candidates[i]);
            }
        }
    }
}

} // verus!
