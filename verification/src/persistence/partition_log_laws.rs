//! Laws of the durable log of the partition tree.

use vstd::prelude::*;
use vstd::string::*;

use crate::domain::Observation;
use crate::json::JsonView;
use crate::runtime::partition::{EventView, PartitionErrorView, RoutedObservation};
use crate::runtime::tree::TreeView;

use super::error::{PersistenceError, PersistenceErrorView};
use super::identity::NewObservationRow;
use super::partition_log::{BlueGreenMigration, BlueGreenTransform, LeafSplit, LogRow};

verus! {

/// A refusal of the partition tree is reported in its own words.
pub proof fn refusals_are_reported_in_their_words(
    error: PersistenceErrorView,
    cause: PartitionErrorView,
)
    requires
        super::partition_log::reports(error, cause),
        !(cause is Json),
    ensures
        crate::runtime::partition::partition_message(cause) is Some,
        error == PersistenceErrorView::SchemaInvariant(
            crate::runtime::partition::partition_message(cause)->0,
        ),
{
}

/// The announcement and the commit of a split name the same three leaves, in the same roles, and the
/// same reason; the commit names the bit besides.
pub proof fn splits_are_announced_as_they_are_committed(
    parent: Seq<char>,
    left: Seq<char>,
    right: Seq<char>,
    bit: u32,
)
    ensures
        super::partition_log::announced(parent, left, right) == (EventView::SplitPrepare {
            parent,
            left,
            right,
            reason: "capacity"@,
        }),
        super::partition_log::committed(parent, left, right, bit) == (EventView::SplitCommit {
            parent,
            left,
            right,
            bit,
            reason: "capacity"@,
        }),
{
}

/// A log is read row by row: where every row can be read it says what each of them says, in their
/// order, and else the first row that cannot be read decides.
pub proof fn logs_are_read_row_by_row(rows: Seq<(String, String)>)
    ensures
        match super::partition_log::read_log(rows) {
            Ok(events) => events.len() == rows.len() && forall|i: int|
                0 <= i < rows.len() ==> crate::runtime::partition::parsed_event(
                    (#[trigger] rows[i]).0@,
                    rows[i].1@,
                ) == Ok::<EventView, PartitionErrorView>(events[i]),
            Err(e) => exists|i: int|
                0 <= i < rows.len() && crate::runtime::partition::parsed_event(
                    (#[trigger] rows[i]).0@,
                    rows[i].1@,
                ) == Err::<EventView, PartitionErrorView>(e) && forall|j: int|
                    0 <= j < i ==> crate::runtime::partition::parsed_event(
                        (#[trigger] rows[j]).0@,
                        rows[j].1@,
                    ) is Ok,
        },
    decreases rows.len(),
{
    if rows.len() > 0 {
        let rest = rows.drop_last();
        logs_are_read_row_by_row(rest);
        assert(forall|i: int| 0 <= i < rest.len() ==> #[trigger] rest[i] == rows[i]);
        match super::partition_log::read_log(rest) {
            Err(e) => {
                let i = choose|i: int|
                    0 <= i < rest.len() && crate::runtime::partition::parsed_event(
                        (#[trigger] rest[i]).0@,
                        rest[i].1@,
                    ) == Err::<EventView, PartitionErrorView>(e) && forall|j: int|
                        0 <= j < i ==> crate::runtime::partition::parsed_event(
                            (#[trigger] rest[j]).0@,
                            rest[j].1@,
                        ) is Ok;
                assert(rest[i] == rows[i]);
                assert forall|j: int| 0 <= j < i implies crate::runtime::partition::parsed_event(
                    (#[trigger] rows[j]).0@,
                    rows[j].1@,
                ) is Ok by {
                    assert(rest[j] == rows[j]);
                }
            },
            Ok(before) => {
                let last = rows[rows.len() - 1];
                assert(last == rows.last());
                assert forall|j: int| 0 <= j < rest.len() implies crate::runtime::partition::parsed_event(
                    (#[trigger] rows[j]).0@,
                    rows[j].1@,
                ) == Ok::<EventView, PartitionErrorView>(before[j]) by {
                    assert(rest[j] == rows[j]);
                }
            },
        }
    }
}

/// The tree of a log is that of what its rows say.
pub proof fn trees_are_built_of_what_the_rows_say(rows: Seq<(String, String)>)
    ensures
        super::partition_log::read_log(rows) matches Ok(events)
            ==> super::partition_log::tree_of_rows(rows) == crate::runtime::partition::tree_of_log(
            events,
        ),
        super::partition_log::read_log(rows) matches Err(e) ==> super::partition_log::tree_of_rows(
            rows,
        ) == Err::<TreeView, PartitionErrorView>(e),
{
}

/// The bit at which keys are parted is the only one in which some of them differ while they agree in
/// every bit before.
pub proof fn keys_are_parted_at_one_bit(keys: Seq<Seq<u8>>, bit: u32)
    requires
        crate::runtime::partition::first_discriminating(keys, bit),
    ensures
        super::partition_log::parting_bit(keys) == bit,
{
    let found = super::partition_log::parting_bit(keys);
    assert(crate::runtime::partition::first_discriminating(keys, found));
    if found < bit {
        assert(!crate::runtime::partition::discriminates(keys, found));
    } else if bit < found {
        assert(!crate::runtime::partition::discriminates(keys, bit));
    }
}

/// A full leaf is split unless the names are at fault, it holds fewer than two observations, no bit
/// tells their keys apart, or the tree refuses the commit; the first of these is told.
pub proof fn full_leaves_are_split_or_it_is_told_why(
    tree: TreeView,
    parent: Seq<char>,
    routed: Seq<RoutedObservation>,
    left: Seq<char>,
    right: Seq<char>,
    bit: u32,
)
    ensures
        ({
            let fault = super::partition_log::split_fault(tree, parent, routed, left, right);
            let names = crate::runtime::partition::split_ids_error(parent, left, right);
            let keys = routed.map_values(
                |item: RoutedObservation| crate::runtime::partition::key_bytes(item.routing_key@),
            );
            let alike = forall|b: u32| !#[trigger] crate::runtime::partition::discriminates(keys, b);
            &&& names is Some ==> fault == names
            &&& names is None && routed.len() < 2 ==> fault == Some(
                PartitionErrorView::InsufficientSplitInput,
            )
            &&& names is None && routed.len() >= 2 && alike ==> fault == Some(
                PartitionErrorView::NoDiscriminatingBit,
            )
            &&& names is None && routed.len() >= 2
                && crate::runtime::partition::first_discriminating(keys, bit) ==> {
                let after = crate::runtime::partition::applied_commit(
                    tree,
                    EventView::SplitCommit { parent, left, right, bit, reason: "capacity"@ },
                );
                &&& fault is None <==> after is Ok
                &&& after matches Err(e) ==> fault == Some(e)
            }
        }),
{
    let keys = routed.map_values(
        |item: RoutedObservation| crate::runtime::partition::key_bytes(item.routing_key@),
    );
    assert(keys =~= crate::runtime::partition::routed_keys(routed));
    if crate::runtime::partition::first_discriminating(keys, bit) {
        keys_are_parted_at_one_bit(keys, bit);
        assert(crate::runtime::partition::discriminates(keys, bit));
    }
}

/// The leaf that is split is the first one with as many observations as the capacity; there is none
/// just where every leaf has fewer.
pub proof fn the_first_full_leaf_is_split(
    leaves: Seq<Vec<RoutedObservation>>,
    capacity: usize,
    at: int,
)
    ensures
        super::partition_log::is_first_full(leaves, capacity, at) <==> 0 <= at < leaves.len()
            && capacity <= leaves[at]@.len() && forall|i: int|
            0 <= i < at ==> (#[trigger] leaves[i])@.len() < capacity,
        super::partition_log::all_below(leaves, capacity) <==> forall|i: int|
            0 <= i < leaves.len() ==> (#[trigger] leaves[i])@.len() < capacity,
        super::partition_log::is_first_full(leaves, capacity, at)
            ==> !super::partition_log::all_below(leaves, capacity),
{
    if super::partition_log::is_first_full(leaves, capacity, at)
        && super::partition_log::all_below(leaves, capacity) {
        assert(leaves[at]@.len() < capacity);
    }
}

/// A retired log keeps every entry in its order, with its number, its type and its text.
pub proof fn retired_logs_keep_every_entry(rows: Seq<LogRow>, i: int)
    requires
        0 <= i < rows.len(),
    ensures
        ({
            let value = super::partition_log::retired_log(rows);
            let entry = value->Array_0[i];
            &&& value is Array
            &&& value->Array_0.len() == rows.len()
            &&& entry is Object
            &&& entry->Object_0.len() == 3
            &&& entry->Object_0[0].0 == "event_seq"@
            &&& rows[i].event_seq >= 0 ==> entry->Object_0[0].1 == JsonView::UInt(
                rows[i].event_seq as u64,
            )
            &&& rows[i].event_seq < 0 ==> entry->Object_0[0].1 == JsonView::NegInt(
                rows[i].event_seq,
            )
            &&& entry->Object_0[1] == ("event_type"@, JsonView::Str(rows[i].event_type@))
            &&& entry->Object_0[2] == ("event_json"@, JsonView::Str(rows[i].event_json@))
        }),
{
}

/// The first transform that failed decides; where none failed there is no refusal.
pub proof fn the_first_failed_transform_decides(
    transforms: Seq<Result<BlueGreenTransform, PersistenceError>>,
)
    ensures
        match super::partition_log::first_refusal(transforms) {
            None => forall|i: int| 0 <= i < transforms.len() ==> (#[trigger] transforms[i]) is Ok,
            Some(e) => exists|i: int|
                0 <= i < transforms.len() && (#[trigger] transforms[i]) is Err
                    && transforms[i]->Err_0@ == e && forall|j: int|
                    0 <= j < i ==> (#[trigger] transforms[j]) is Ok,
        },
    decreases transforms.len(),
{
    if transforms.len() > 0 {
        let rest = transforms.drop_last();
        the_first_failed_transform_decides(rest);
        assert(forall|i: int| 0 <= i < rest.len() ==> #[trigger] rest[i] == transforms[i]);
        match super::partition_log::first_refusal(rest) {
            Some(e) => {
                let i = choose|i: int|
                    0 <= i < rest.len() && (#[trigger] rest[i]) is Err && rest[i]->Err_0@ == e
                        && forall|j: int| 0 <= j < i ==> (#[trigger] rest[j]) is Ok;
                assert(transforms[i] is Err);
                assert forall|j: int| 0 <= j < i implies (#[trigger] transforms[j]) is Ok by {
                    assert(rest[j] is Ok);
                }
            },
            None => {
                assert forall|j: int| 0 <= j < rest.len() implies (
                #[trigger] transforms[j]) is Ok by {
                    assert(rest[j] is Ok);
                }
                assert(transforms[transforms.len() - 1] == transforms.last());
            },
        }
    }
}

/// Under new key rules an observation keeps all it says: only its key and its metadata change, and of
/// these only the canonical content. Its row stands below the new root, under the new routing key and
/// the new identity key, with the digest of the new canonical content.
pub proof fn observations_change_only_their_key(
    green: (Observation, NewObservationRow),
    from: Observation,
    transform: BlueGreenTransform,
    root: Seq<char>,
)
    requires
        super::partition_log::is_green(green, from, transform, root),
    ensures
        green.0.id == from.id,
        green.0.schema == from.schema,
        green.0.schema_version == from.schema_version,
        green.0.observer == from.observer,
        green.0.source_system == from.source_system,
        green.0.subject == from.subject,
        green.0.payload == from.payload,
        green.0.published == from.published,
        green.0.recorded_at == from.recorded_at,
        green.0.idempotency_key@ == transform.identity_key@,
        green.1@.leaf_id == root,
        green.1@.routing_key == transform.routing_key@,
        green.1@.identity_key == transform.identity_key@,
        green.1@.canonical_json_sha256 == crate::digest::text_digest(transform.canonical_json@),
{
}

/// A migration needs rules that change, a valid new root, and a transform of every observation; it
/// keeps every observation in its place, and the new log opens at the new root under the new rules
/// while the old rules are kept with the old log.
pub proof fn migrations_keep_every_observation(
    r: Result<BlueGreenMigration, PersistenceError>,
    routing_version: Seq<char>,
    identity_version: Seq<char>,
    log: Seq<LogRow>,
    observations: Seq<Observation>,
    transforms: Seq<Result<BlueGreenTransform, PersistenceError>>,
    root: Seq<char>,
    i: int,
)
    requires
        super::partition_log::is_migration(
            r,
            routing_version,
            identity_version,
            log,
            observations,
            transforms,
            root,
        ),
    ensures
        ({
            let unchanged = routing_version == "routing-keyspec/v1"@ && identity_version
                == "identity-keyspec/v1"@;
            &&& r is Ok ==> !unchanged && crate::runtime::partition::valid_leaf_id(root)
            &&& unchanged ==> r is Err && r->Err_0@ == PersistenceErrorView::SchemaInvariant(
                "blue/green migration requires a changed keyspec version"@,
            )
            &&& r is Ok && 0 <= i < observations.len() ==> i < r->Ok_0.observations@.len() && (
            r->Ok_0.observations@[i].0).id == observations[i].id && (
            r->Ok_0.observations@[i].0).payload == observations[i].payload && (
            r->Ok_0.observations@[i].0).published == observations[i].published && transforms[i] is Ok
                && (r->Ok_0.observations@[i].0).idempotency_key@ == (
            transforms[i]->Ok_0).identity_key@
            &&& r matches Ok(m) ==> m.observations@.len() == observations.len()
                && transforms.len() == observations.len()
                && m.retired_routing_keyspec_version@ == "routing-keyspec/v1"@
                && m.retired_identity_keyspec_version@ == "identity-keyspec/v1"@
                && m.opening.routing_keyspec_json@ == crate::json::json_text(
                JsonView::Object(seq![("version"@, JsonView::Str(routing_version))]),
            ) && m.opening.identity_keyspec_json@ == crate::json::json_text(
                JsonView::Object(seq![("version"@, JsonView::Str(identity_version))]),
            ) && crate::runtime::partition::parsed_event("initialize"@, m.opening.event_json@)
                == Ok::<EventView, PartitionErrorView>(
                EventView::Initialize { root, routing_version, identity_version },
            )
        }),
{
    if r is Ok && 0 <= i < observations.len() {
        assert(super::partition_log::is_green(
            r->Ok_0.observations@[i],
            observations[i],
            transforms[i]->Ok_0,
            root,
        ));
    }
}

/// A split of a leaf is announced and committed for the same three leaves in the same roles, at the
/// first bit in which the keys of the leaf differ; its plan says the same, and the tree after it is
/// the tree with that commit.
pub proof fn leaves_are_split_as_announced(
    split: LeafSplit,
    tree: TreeView,
    parent: Seq<char>,
    routed: Seq<RoutedObservation>,
    left: Seq<char>,
    right: Seq<char>,
)
    requires
        super::partition_log::splits_leaf(split, tree, parent, routed, left, right),
    ensures
        split.plan.parent_leaf_id@ == parent,
        split.plan.left_child_leaf_id@ == left,
        split.plan.right_child_leaf_id@ == right,
        crate::runtime::partition::first_discriminating(
            crate::runtime::partition::routed_keys(routed),
            split.plan.bit_index,
        ),
        crate::runtime::partition::parsed_event("split_prepare"@, split.prepare_json@) == Ok::<
            EventView,
            PartitionErrorView,
        >(EventView::SplitPrepare { parent, left, right, reason: "capacity"@ }),
        crate::runtime::partition::parsed_event("split_commit"@, split.commit.event_json@) == Ok::<
            EventView,
            PartitionErrorView,
        >(
            EventView::SplitCommit {
                parent,
                left,
                right,
                bit: split.plan.bit_index,
                reason: "capacity"@,
            },
        ),
        crate::runtime::partition::applied_commit(
            tree,
            EventView::SplitCommit {
                parent,
                left,
                right,
                bit: split.plan.bit_index,
                reason: "capacity"@,
            },
        ) == Ok::<TreeView, PartitionErrorView>(split.commit.next_tree@),
{
}

/// Observations are transformed one after another, each after the ones before it succeeded; it ends
/// early only with a failure.
pub proof fn transforms_end_at_the_first_failure<
    F: FnMut(&Observation) -> Result<BlueGreenTransform, PersistenceError>,
>(
    transform: F,
    observations: Seq<Observation>,
    transforms: Seq<Result<BlueGreenTransform, PersistenceError>>,
    i: int,
)
    requires
        super::partition_log::transformed_in_order(transform, observations, transforms),
        0 <= i < transforms.len(),
    ensures
        transforms.len() <= observations.len(),
        call_ensures(transform, (&observations[i],), transforms[i]),
        i < transforms.len() - 1 ==> transforms[i] is Ok,
        transforms.last() is Ok ==> transforms.len() == observations.len(),
{
}

/// A migration with changed rules is refused for an invalid new root first, and else with the error
/// of the first transform that failed; it is refused for nothing else.
pub proof fn refused_migrations_are_told(
    r: Result<BlueGreenMigration, PersistenceError>,
    routing_version: Seq<char>,
    identity_version: Seq<char>,
    log: Seq<LogRow>,
    observations: Seq<Observation>,
    transforms: Seq<Result<BlueGreenTransform, PersistenceError>>,
    root: Seq<char>,
)
    requires
        super::partition_log::is_migration(
            r,
            routing_version,
            identity_version,
            log,
            observations,
            transforms,
            root,
        ),
        routing_version != "routing-keyspec/v1"@ || identity_version != "identity-keyspec/v1"@,
    ensures
        !crate::runtime::partition::valid_leaf_id(root) ==> r is Err && r->Err_0@
            == PersistenceErrorView::SchemaInvariant("invalid leaf id: "@ + root),
        crate::runtime::partition::valid_leaf_id(root) && r is Err
            ==> super::partition_log::first_refusal(transforms) == Some(r->Err_0@),
        r is Ok ==> super::partition_log::first_refusal(transforms) is None
            && crate::runtime::partition::valid_leaf_id(root),
{
}

} // verus!
