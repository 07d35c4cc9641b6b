//! The durable log of the partition tree: splits, failovers and changes of the key rules.

use vstd::prelude::*;
use vstd::string::*;

use crate::domain::{IdempotencyKey, Observation};
use crate::json::{array, number, object1, object3, text, write_json, Json, JsonView};
use crate::runtime::partition::{
    checked_initialize_event_json, failover_event_json, identity_keyspec_json,
    keyspec_initialize_event_json, parse_partition_event, plan_capacity_split, recover_event_json,
    routing_keyspec_json, split_commit_event_json, split_prepare_event_json, CapacitySplitPlan,
    EventView, PartitionError, PartitionErrorView, PartitionLogEvent, PartitionTree,
    RoutedObservation, IDENTITY_KEYSPEC_VERSION,
    PARTITION_EVENT_SPLIT_COMMIT, PARTITION_SPLIT_REASON_CAPACITY, ROUTING_KEYSPEC_VERSION,
};
use crate::runtime::tree::TreeView;
use crate::text::str_eq;

use super::error::{violation, PersistenceError, PersistenceErrorView};
use super::identity::{canonical_json_sha256, with_identity, NewObservationRow};

verus! {

/// Whether an error of the durable lake reports an error of the partition tree.
pub open spec fn reports(error: PersistenceErrorView, cause: PartitionErrorView) -> bool {
    &&& error is SchemaInvariant
    &&& crate::runtime::partition::partition_message(cause) matches Some(m) ==> error
        == super::error::broken(m)
}

/// The error of the durable lake that reports an error of the partition tree.
pub fn partition_refusal(cause: PartitionError) -> (r: PersistenceError)
    ensures
        reports(r@, cause@),
{
    PersistenceError::SchemaInvariant(cause.message())
}

/// What a refused entry of the log is answered with, or the text of an accepted one, from which it
/// is read back.
pub open spec fn entry_made(
    r: Result<String, PersistenceError>,
    event: EventView,
    fault: Option<PartitionErrorView>,
) -> bool {
    match r {
        Ok(t) => {
            &&& fault is None
            &&& t@ == crate::json::json_text(crate::runtime::partition::event_value(event))
            &&& crate::runtime::partition::parsed_event(
                crate::runtime::partition::event_type_of(event),
                t@,
            ) == Ok::<EventView, PartitionErrorView>(event)
        },
        Err(e) => fault matches Some(f) && reports(e@, f),
    }
}

/// The announcement of a split.
pub open spec fn announced(parent: Seq<char>, left: Seq<char>, right: Seq<char>) -> EventView {
    EventView::SplitPrepare { parent, left, right, reason: PARTITION_SPLIT_REASON_CAPACITY@ }
}

/// The commit of a split.
pub open spec fn committed(
    parent: Seq<char>,
    left: Seq<char>,
    right: Seq<char>,
    bit: u32,
) -> EventView {
    EventView::SplitCommit { parent, left, right, bit, reason: PARTITION_SPLIT_REASON_CAPACITY@ }
}

/// The log entry that announces a split.
pub fn append_split_prepare(
    parent_leaf_id: &str,
    left_child_leaf_id: &str,
    right_child_leaf_id: &str,
) -> (r: Result<String, PersistenceError>)
    ensures
        entry_made(
            r,
            announced(parent_leaf_id@, left_child_leaf_id@, right_child_leaf_id@),
            crate::runtime::partition::split_ids_error(
                parent_leaf_id@,
                left_child_leaf_id@,
                right_child_leaf_id@,
            ),
        ),
{
    match split_prepare_event_json(parent_leaf_id, left_child_leaf_id, right_child_leaf_id) {
        Ok(t) => Ok(t),
        Err(e) => Err(partition_refusal(e)),
    }
}

/// The log entry that hands a leaf over to a spool.
pub fn append_failover(leaf_id: &str, failover_id: &str) -> (r: Result<String, PersistenceError>)
    ensures
        entry_made(
            r,
            EventView::Failover { leaf: leaf_id@, spool: failover_id@ },
            crate::runtime::partition::failover_fault(leaf_id@, failover_id@),
        ),
{
    match failover_event_json(leaf_id, failover_id) {
        Ok(t) => Ok(t),
        Err(e) => Err(partition_refusal(e)),
    }
}

/// The log entry that takes a leaf back from a spool.
pub fn append_recover(leaf_id: &str, failover_id: &str) -> (r: Result<String, PersistenceError>)
    ensures
        entry_made(
            r,
            EventView::Recover { leaf: leaf_id@, spool: failover_id@ },
            crate::runtime::partition::failover_fault(leaf_id@, failover_id@),
        ),
{
    match recover_event_json(leaf_id, failover_id) {
        Ok(t) => Ok(t),
        Err(e) => Err(partition_refusal(e)),
    }
}

/// What is wrong with the commit of a split.
pub open spec fn commit_fault(tree: TreeView, commit: EventView) -> Option<PartitionErrorView> {
    match crate::runtime::partition::applied_commit(tree, commit) {
        Ok(_) => None,
        Err(e) => Some(e),
    }
}

/// A commit of a split with the tree after it.
#[derive(Debug)]
pub struct CommittedSplit {
    pub event_json: String,
    pub next_tree: PartitionTree,
}

/// Whether an entry commits a split of a tree.
pub open spec fn commits(split: CommittedSplit, tree: TreeView, commit: EventView) -> bool {
    &&& entry_made(Ok(split.event_json), commit, None)
    &&& crate::runtime::partition::applied_commit(tree, commit) == Ok::<
        TreeView,
        PartitionErrorView,
    >(split.next_tree@)
    &&& crate::runtime::tree::unique_leaves(tree) ==> crate::runtime::tree::unique_leaves(
        split.next_tree@,
    )
}

/// The log entry that commits a split, with the tree after it.
pub fn append_split_commit(
    tree: &PartitionTree,
    parent_leaf_id: &str,
    left_child_leaf_id: &str,
    right_child_leaf_id: &str,
    bit_index: u32,
) -> (r: Result<CommittedSplit, PersistenceError>)
    ensures
        ({
            let commit = committed(
                parent_leaf_id@,
                left_child_leaf_id@,
                right_child_leaf_id@,
                bit_index,
            );
            match r {
                Ok(split) => commits(split, tree@, commit),
                Err(e) => commit_fault(tree@, commit) matches Some(f) && reports(e@, f),
            }
        }),
{
    let event_json = match split_commit_event_json(
        parent_leaf_id,
        left_child_leaf_id,
        right_child_leaf_id,
        bit_index,
    ) {
        Ok(t) => t,
        Err(e) => {
            return Err(partition_refusal(e));
        },
    };
    let mut next_tree = tree.clone();
    let event = match parse_partition_event(PARTITION_EVENT_SPLIT_COMMIT, event_json.as_str()) {
        Ok(e) => e,
        Err(e) => {
            return Err(partition_refusal(e));
        },
    };
    if let PartitionLogEvent::SplitCommit(commit) = &event {
        match next_tree.apply_split_commit(commit) {
            Ok(()) => {},
            Err(e) => {
                return Err(partition_refusal(e));
            },
        }
    }
    Ok(CommittedSplit { event_json, next_tree })
}

/// What a log that is read back says.
pub open spec fn read_log(rows: Seq<(String, String)>) -> Result<Seq<EventView>, PartitionErrorView>
    decreases rows.len(),
{
    if rows.len() == 0 {
        Ok(Seq::empty())
    } else {
        match read_log(rows.drop_last()) {
            Err(e) => Err(e),
            Ok(before) => match crate::runtime::partition::parsed_event(
                rows.last().0@,
                rows.last().1@,
            ) {
                Ok(event) => Ok(before.push(event)),
                Err(e) => Err(e),
            },
        }
    }
}

/// The tree that a log builds.
pub open spec fn tree_of_rows(rows: Seq<(String, String)>) -> Result<TreeView, PartitionErrorView> {
    match read_log(rows) {
        Ok(events) => crate::runtime::partition::tree_of_log(events),
        Err(e) => Err(e),
    }
}

proof fn log_stays_unreadable(rows: Seq<(String, String)>, n: int)
    requires
        0 <= n <= rows.len(),
        read_log(rows.take(n)) is Err,
    ensures
        read_log(rows) == read_log(rows.take(n)),
    decreases rows.len() - n,
{
    if n == rows.len() {
        assert(rows.take(n) =~= rows);
    } else {
        assert(rows.take(n + 1).drop_last() =~= rows.take(n));
        log_stays_unreadable(rows, n + 1);
    }
}

/// The tree that a log builds, given the type and the text of each of its entries.
pub fn rebuild_partition_tree_from_log(rows: &Vec<(String, String)>) -> (r: Result<
    PartitionTree,
    PersistenceError,
>)
    ensures
        match r {
            Ok(tree) => tree_of_rows(rows@) == Ok::<TreeView, PartitionErrorView>(tree@)
                && crate::runtime::tree::unique_leaves(tree@),
            Err(e) => tree_of_rows(rows@) matches Err(f) && reports(e@, f),
        },
{
    let mut events: Vec<PartitionLogEvent> = Vec::new();
    let mut i: usize = 0;
    assert(crate::runtime::partition::event_views(events@) =~= Seq::empty());
    while i < rows.len()
        invariant
            i <= rows@.len(),
            read_log(rows@.take(i as int)) == Ok::<Seq<EventView>, PartitionErrorView>(
                crate::runtime::partition::event_views(events@),
            ),
        decreases rows@.len() - i,
    {
        assert(rows@.take(i + 1).drop_last() =~= rows@.take(i as int));
        let ghost before = events@;
        match parse_partition_event(rows[i].0.as_str(), rows[i].1.as_str()) {
            Ok(event) => {
                events.push(event);
                assert(crate::runtime::partition::event_views(events@)
                    =~= crate::runtime::partition::event_views(before).push(event@));
            },
            Err(e) => {
                proof {
                    log_stays_unreadable(rows@, i + 1);
                }
                return Err(partition_refusal(e));
            },
        }
        i = i + 1;
    }
    assert(rows@.take(i as int) =~= rows@);
    match PartitionTree::from_events(events.as_slice()) {
        Ok(tree) => Ok(tree),
        Err(e) => Err(partition_refusal(e)),
    }
}

/// The tree that is held, or that there is none yet.
pub fn partition_tree_snapshot<'a>(tree: Option<&'a PartitionTree>) -> (r: Result<
    &'a PartitionTree,
    PersistenceError,
>)
    ensures
        match tree {
            Some(t) => r == Ok::<&'a PartitionTree, PersistenceError>(t),
            None => r matches Err(e) && e@ == super::error::broken(
                "partition tree snapshot is unavailable before schema initialization"@,
            ),
        },
{
    match tree {
        Some(t) => Ok(t),
        None => Err(
            violation("partition tree snapshot is unavailable before schema initialization"),
        ),
    }
}

/// The bit at which keys are parted: the first one in which they differ.
pub open spec fn parting_bit(keys: Seq<Seq<u8>>) -> u32 {
    choose|b: u32| #[trigger] crate::runtime::partition::first_discriminating(keys, b)
}

/// What forbids the split of a leaf that is full.
pub open spec fn split_fault(
    tree: TreeView,
    parent: Seq<char>,
    routed: Seq<RoutedObservation>,
    left: Seq<char>,
    right: Seq<char>,
) -> Option<PartitionErrorView> {
    let keys = crate::runtime::partition::routed_keys(routed);
    match crate::runtime::partition::split_ids_error(parent, left, right) {
        Some(e) => Some(e),
        None => if routed.len() < 2 {
            Some(PartitionErrorView::InsufficientSplitInput)
        } else if forall|b: u32| !#[trigger] crate::runtime::partition::discriminates(keys, b) {
            Some(PartitionErrorView::NoDiscriminatingBit)
        } else {
            commit_fault(tree, committed(parent, left, right, parting_bit(keys)))
        },
    }
}

/// A split of a leaf: the two entries of the log, where the observations of the leaf go, and the
/// tree after it.
#[derive(Debug)]
pub struct LeafSplit {
    pub prepare_json: String,
    pub plan: CapacitySplitPlan,
    pub commit: CommittedSplit,
}

/// Whether a split parts a leaf at the first bit in which its keys differ.
pub open spec fn splits_leaf(
    split: LeafSplit,
    tree: TreeView,
    parent: Seq<char>,
    routed: Seq<RoutedObservation>,
    left: Seq<char>,
    right: Seq<char>,
) -> bool {
    let keys = crate::runtime::partition::routed_keys(routed);
    let bit = parting_bit(keys);
    &&& crate::runtime::partition::first_discriminating(keys, bit)
    &&& entry_made(Ok(split.prepare_json), announced(parent, left, right), None)
    &&& crate::runtime::partition::plan_splits(split.plan, parent, left, right, bit, routed)
    &&& commits(split.commit, tree, committed(parent, left, right, bit))
}

/// Whether the first leaf that has reached a capacity stands at a position, given the observations of
/// each leaf.
pub open spec fn is_first_full(
    leaves: Seq<Vec<RoutedObservation>>,
    capacity: usize,
    at: int,
) -> bool {
    &&& 0 <= at < leaves.len()
    &&& leaves[at]@.len() >= capacity
    &&& forall|i: int| 0 <= i < at ==> (#[trigger] leaves[i])@.len() < capacity
}

/// Whether no leaf has reached a capacity.
pub open spec fn all_below(leaves: Seq<Vec<RoutedObservation>>, capacity: usize) -> bool {
    forall|i: int| 0 <= i < leaves.len() ==> (#[trigger] leaves[i])@.len() < capacity
}

/// Whether a leaf with some observations has reached a capacity.
pub fn is_full(observations: usize, capacity: usize) -> (r: bool)
    ensures
        r == (observations >= capacity),
{
    observations >= capacity
}

/// The position of the first leaf that has reached a capacity.
pub fn first_full_leaf(leaves: &Vec<Vec<RoutedObservation>>, capacity: usize) -> (r: Option<usize>)
    ensures
        match r {
            Some(at) => is_first_full(leaves@, capacity, at as int),
            None => all_below(leaves@, capacity),
        },
{
    let mut i: usize = 0;
    while i < leaves.len()
        invariant
            i <= leaves@.len(),
            forall|j: int| 0 <= j < i ==> (#[trigger] leaves@[j])@.len() < capacity,
        decreases leaves@.len() - i,
    {
        if is_full(leaves[i].len(), capacity) {
            return Some(i);
        }
        i = i + 1;
    }
    None
}

/// Refuses a capacity that every leaf has reached.
pub fn check_leaf_capacity(capacity: usize) -> (r: Result<(), PersistenceError>)
    ensures
        match r {
            Ok(()) => capacity > 0,
            Err(e) => capacity == 0 && e@ == super::error::broken(
                "leaf capacity must be greater than zero"@,
            ),
        },
{
    if capacity == 0 {
        Err(violation("leaf capacity must be greater than zero"))
    } else {
        Ok(())
    }
}

/// The split of the first current leaf that has reached the capacity, given the observations of the
/// current leaves in order and two new names; there is none where every current leaf lies below the
/// capacity. Leaves behind the first full one need not be given.
pub fn split_leaf_if_capacity(
    tree: &PartitionTree,
    leaves: &Vec<Vec<RoutedObservation>>,
    capacity: usize,
    left_child_leaf_id: &str,
    right_child_leaf_id: &str,
) -> (r: Result<Option<LeafSplit>, PersistenceError>)
    requires
        forall|i: int|
            0 <= i < leaves@.len() ==> crate::runtime::partition::bits_numbered(
                crate::runtime::partition::routed_keys((#[trigger] leaves@[i])@),
            ),
        leaves@.len() <= crate::runtime::tree::leaves(tree@).len(),
        capacity > 0 && all_below(leaves@, capacity) ==> leaves@.len()
            == crate::runtime::tree::leaves(tree@).len(),
    ensures
        if capacity == 0 {
            r matches Err(e) && e@ == super::error::broken(
                "leaf capacity must be greater than zero"@,
            )
        } else {
            match r {
                Ok(None) => all_below(leaves@, capacity) && leaves@.len()
                    == crate::runtime::tree::leaves(tree@).len(),
                Ok(Some(split)) => exists|at: int|
                    {
                        &&& #[trigger] is_first_full(leaves@, capacity, at)
                        &&& split_fault(
                            tree@,
                            crate::runtime::tree::leaves(tree@)[at],
                            leaves@[at]@,
                            left_child_leaf_id@,
                            right_child_leaf_id@,
                        ) is None
                        &&& splits_leaf(
                            split,
                            tree@,
                            crate::runtime::tree::leaves(tree@)[at],
                            leaves@[at]@,
                            left_child_leaf_id@,
                            right_child_leaf_id@,
                        )
                    },
                Err(e) => exists|at: int|
                    {
                        &&& #[trigger] is_first_full(leaves@, capacity, at)
                        &&& split_fault(
                            tree@,
                            crate::runtime::tree::leaves(tree@)[at],
                            leaves@[at]@,
                            left_child_leaf_id@,
                            right_child_leaf_id@,
                        ) matches Some(f) && reports(e@, f)
                    },
            }
        },
{
    match check_leaf_capacity(capacity) {
        Ok(()) => {},
        Err(e) => {
            return Err(e);
        },
    }
    let at = match first_full_leaf(leaves, capacity) {
        Some(at) => at,
        None => {
            return Ok(None);
        },
    };
    let ids = tree.current_leaf_ids();
    let ghost names = crate::runtime::tree::leaves(tree@);
    assert(names[at as int] == ids@[at as int]@);
    let r = split_full_leaf(
        tree,
        ids[at].as_str(),
        leaves[at].as_slice(),
        capacity,
        left_child_leaf_id,
        right_child_leaf_id,
    );
    assert(is_first_full(leaves@, capacity, at as int));
    match r {
        Ok(split) => Ok(Some(split)),
        Err(e) => Err(e),
    }
}

/// The split of a leaf that has reached its capacity, given its observations and two new names.
fn split_full_leaf(
    tree: &PartitionTree,
    parent_leaf_id: &str,
    routed: &[RoutedObservation],
    capacity: usize,
    left_child_leaf_id: &str,
    right_child_leaf_id: &str,
) -> (r: Result<LeafSplit, PersistenceError>)
    requires
        crate::runtime::partition::bits_numbered(crate::runtime::partition::routed_keys(routed@)),
        0 < capacity <= routed@.len(),
    ensures
        ({
            let fault = split_fault(
                tree@,
                parent_leaf_id@,
                routed@,
                left_child_leaf_id@,
                right_child_leaf_id@,
            );
            match r {
                Ok(split) => fault is None && splits_leaf(
                    split,
                    tree@,
                    parent_leaf_id@,
                    routed@,
                    left_child_leaf_id@,
                    right_child_leaf_id@,
                ),
                Err(e) => fault matches Some(f) && reports(e@, f),
            }
        }),
{
    let ghost keys = crate::runtime::partition::routed_keys(routed@);
    match plan_capacity_split(
        parent_leaf_id,
        routed,
        capacity,
        left_child_leaf_id,
        right_child_leaf_id,
    ) {
        Err(e) => Err(partition_refusal(e)),
        // A leaf that has reached the capacity has a plan.
        Ok(None) => Err(violation("a full leaf has no plan")),
        Ok(Some(plan)) => {
            proof {
                let bit = parting_bit(keys);
                assert(crate::runtime::partition::first_discriminating(keys, plan.bit_index));
                assert(crate::runtime::partition::first_discriminating(keys, bit));
                if bit < plan.bit_index {
                    assert(!crate::runtime::partition::discriminates(keys, bit));
                }
                if plan.bit_index < bit {
                    assert(!crate::runtime::partition::discriminates(keys, plan.bit_index));
                }
                assert(bit == plan.bit_index);
            }
            let prepare_json = match append_split_prepare(
                parent_leaf_id,
                left_child_leaf_id,
                right_child_leaf_id,
            ) {
                Ok(t) => t,
                Err(e) => {
                    return Err(e);
                },
            };
            match append_split_commit(
                tree,
                plan.parent_leaf_id.as_str(),
                plan.left_child_leaf_id.as_str(),
                plan.right_child_leaf_id.as_str(),
                plan.bit_index,
            ) {
                Ok(commit) => Ok(LeafSplit { prepare_json, plan, commit }),
                Err(e) => Err(e),
            }
        },
    }
}

/// After the split of a full leaf, each of its observations is routed to the leaf that it was moved
/// to, both new leaves hold some of them, and every key of another leaf is routed as before.
pub proof fn split_leaves_route_their_observations(
    split: LeafSplit,
    tree: TreeView,
    parent: Seq<char>,
    routed: Seq<RoutedObservation>,
    left: Seq<char>,
    right: Seq<char>,
)
    requires
        crate::runtime::tree::unique_leaves(tree),
        splits_leaf(split, tree, parent, routed, left, right),
        forall|i: int|
            0 <= i < routed.len() ==> crate::runtime::tree::route(
                tree,
                crate::runtime::partition::key_bytes((#[trigger] routed[i]).routing_key@),
            ) == parent,
    ensures
        forall|i: int|
            0 <= i < routed.len() ==> crate::runtime::tree::route(
                split.commit.next_tree@,
                crate::runtime::partition::key_bytes((#[trigger] routed[i]).routing_key@),
            ) == split.plan.rehome_targets@[i].target_leaf_id@,
        exists|i: int|
            0 <= i < routed.len() && (#[trigger] split.plan.rehome_targets@[i]).target_leaf_id@
                == left,
        exists|i: int|
            0 <= i < routed.len() && (#[trigger] split.plan.rehome_targets@[i]).target_leaf_id@
                == right,
        forall|key: Seq<u8>| #[trigger]
            crate::runtime::tree::route(tree, key) != parent ==> crate::runtime::tree::route(
                split.commit.next_tree@,
                key,
            ) == crate::runtime::tree::route(tree, key),
{
    crate::runtime::laws::planned_split_rehomes_the_parent(tree, split.plan, routed);
    let keys = crate::runtime::partition::routed_keys(routed);
    assert forall|i: int| 0 <= i < routed.len() implies crate::runtime::tree::route(
        split.commit.next_tree@,
        crate::runtime::partition::key_bytes((#[trigger] routed[i]).routing_key@),
    ) == split.plan.rehome_targets@[i].target_leaf_id@ by {
        assert(keys[i] == crate::runtime::partition::key_bytes(routed[i].routing_key@));
    }
    assert forall|key: Seq<u8>| #[trigger]
        crate::runtime::tree::route(tree, key) != parent implies crate::runtime::tree::route(
        split.commit.next_tree@,
        key,
    ) == crate::runtime::tree::route(tree, key) by {}
}

/// The opening of a log: the key rules as texts, and its first entry.
#[derive(Debug)]
pub struct LogOpening {
    pub routing_keyspec_json: String,
    pub identity_keyspec_json: String,
    pub event_json: String,
}

/// What opens a log whose key rules are those that are compiled in; a log that is opened already
/// needs nothing, and one with other rules is refused.
pub fn ensure_partition_initialize(
    existing: Option<(&str, &str)>,
    root_leaf_id: &str,
) -> (r: Result<Option<LogOpening>, PersistenceError>)
    ensures
        ({
            let routing = crate::json::json_text(
                crate::runtime::partition::routing_keyspec_value(),
            );
            let identity = crate::json::json_text(
                crate::runtime::partition::identity_keyspec_value(),
            );
            match existing {
                Some((a, b)) => if a@ == routing && b@ == identity {
                    r == Ok::<Option<LogOpening>, PersistenceError>(None)
                } else {
                    r matches Err(e) && e@ == super::error::broken(
                        "partition initialize keyspec does not match compiled keyspec; use blue/green migration"@,
                    )
                },
                None => match r {
                    Ok(Some(opening)) => {
                        &&& opening.routing_keyspec_json@ == routing
                        &&& opening.identity_keyspec_json@ == identity
                        &&& crate::runtime::partition::valid_leaf_id(root_leaf_id@)
                        &&& entry_made(
                            Ok(opening.event_json),
                            crate::runtime::partition::initialize_entry(root_leaf_id@),
                            None,
                        )
                    },
                    Ok(None) => false,
                    Err(e) => !crate::runtime::partition::valid_leaf_id(root_leaf_id@) && reports(
                        e@,
                        PartitionErrorView::InvalidLeafId(root_leaf_id@),
                    ),
                },
            }
        }),
{
    let routing = match routing_keyspec_json() {
        Ok(t) => t,
        Err(e) => {
            return Err(partition_refusal(e));
        },
    };
    let identity = match identity_keyspec_json() {
        Ok(t) => t,
        Err(e) => {
            return Err(partition_refusal(e));
        },
    };
    match existing {
        Some((a, b)) => {
            if str_eq(a, routing.as_str()) && str_eq(b, identity.as_str()) {
                Ok(None)
            } else {
                Err(
                    violation(
                        "partition initialize keyspec does not match compiled keyspec; use blue/green migration",
                    ),
                )
            }
        },
        None => match checked_initialize_event_json(root_leaf_id) {
            Ok(event_json) => Ok(
                Some(
                    LogOpening {
                        routing_keyspec_json: routing,
                        identity_keyspec_json: identity,
                        event_json,
                    },
                ),
            ),
            Err(e) => Err(partition_refusal(e)),
        },
    }
}

/// One entry of a log as it is kept when the log is retired.
#[derive(Debug)]
pub struct LogRow {
    pub event_seq: i64,
    pub event_type: String,
    pub event_json: String,
}

/// The number of an entry as JSON.
pub open spec fn seq_value(n: i64) -> JsonView {
    if n >= 0 {
        JsonView::UInt(n as u64)
    } else {
        JsonView::NegInt(n)
    }
}

/// A retired log as JSON.
pub open spec fn retired_log(rows: Seq<LogRow>) -> JsonView {
    JsonView::Array(
        rows.map_values(
            |row: LogRow|
                JsonView::Object(
                    seq![
                        ("event_seq"@, seq_value(row.event_seq)),
                        ("event_type"@, JsonView::Str(row.event_type@)),
                        ("event_json"@, JsonView::Str(row.event_json@)),
                    ],
                ),
        ),
    )
}

proof fn retired_log_is_plain(rows: Seq<LogRow>)
    ensures
        crate::json::integers_only(retired_log(rows)),
        crate::json::nests_within(retired_log(rows), 127),
{
    reveal_with_fuel(crate::json::integers_only, 3);
    reveal_with_fuel(crate::json::nests_within, 3);
    let items = retired_log(rows)->Array_0;
    assert forall|i: int| 0 <= i < items.len() implies #[trigger] crate::json::integers_only(
        items[i],
    ) && crate::json::nests_within(items[i], 126) by {}
}

fn seq_json(n: i64) -> (r: Json)
    ensures
        r@ == seq_value(n),
{
    if n >= 0 {
        number(n as u64)
    } else {
        Json::NegInt(n)
    }
}

fn retired_log_json(rows: &Vec<LogRow>) -> (r: String)
    ensures
        r@ == crate::json::json_text(retired_log(rows@)),
{
    let mut items: Vec<Json> = Vec::new();
    let mut i: usize = 0;
    while i < rows.len()
        invariant
            i <= rows@.len(),
            items@.len() == i,
            forall|j: int|
                0 <= j < i ==> (#[trigger] items@[j])@ == retired_log(rows@)->Array_0[j],
        decreases rows@.len() - i,
    {
        let row = &rows[i];
        items.push(
            object3(
                "event_seq",
                seq_json(row.event_seq),
                "event_type",
                text(row.event_type.as_str()),
                "event_json",
                text(row.event_json.as_str()),
            ),
        );
        i = i + 1;
    }
    let value = array(items);
    assert(value@->Array_0 =~= retired_log(rows@)->Array_0);
    proof {
        retired_log_is_plain(rows@);
    }
    write_json(&value)
}

/// A change of the key rules: the retired log with its rules, the opening of the new one, and the
/// observations under the new rules, each with its row, in the order in which they are written.
#[derive(Debug)]
pub struct BlueGreenMigration {
    pub retired_routing_keyspec_version: String,
    pub retired_identity_keyspec_version: String,
    pub retired_log_json: String,
    pub opening: LogOpening,
    pub observations: Vec<(Observation, NewObservationRow)>,
}

/// What new key rules make of an observation.
#[derive(Debug)]
pub struct BlueGreenTransform {
    pub identity_key: IdempotencyKey,
    pub canonical_json: String,
    pub routing_key: String,
}

/// The error of the first transform that failed.
pub open spec fn first_refusal(
    transforms: Seq<Result<BlueGreenTransform, PersistenceError>>,
) -> Option<PersistenceErrorView>
    decreases transforms.len(),
{
    if transforms.len() == 0 {
        None
    } else {
        match first_refusal(transforms.drop_last()) {
            Some(e) => Some(e),
            None => match transforms.last() {
                Ok(_) => None,
                Err(e) => Some(e@),
            },
        }
    }
}

/// Whether an observation with its row is what a transform makes of an observation: the same one
/// under the new key and with the new canonical content, below the new root leaf.
pub open spec fn is_green(
    green: (Observation, NewObservationRow),
    from: Observation,
    transform: BlueGreenTransform,
    root: Seq<char>,
) -> bool {
    &&& super::identity::reidentified(
        green.0,
        from,
        transform.identity_key@,
        transform.canonical_json@,
    )
    &&& green.1@ == (super::identity::RowView {
        leaf_id: root,
        routing_key: transform.routing_key@,
        identity_key: transform.identity_key@,
        canonical_json_sha256: crate::digest::text_digest(transform.canonical_json@),
    })
}

/// Whether observations with their rows are what transforms make of a list: each observation once,
/// in order, and nothing else.
pub open spec fn are_green(
    greens: Seq<(Observation, NewObservationRow)>,
    from: Seq<Observation>,
    transforms: Seq<Result<BlueGreenTransform, PersistenceError>>,
    root: Seq<char>,
) -> bool {
    &&& greens.len() == from.len()
    &&& transforms.len() == from.len()
    &&& forall|i: int|
        0 <= i < greens.len() ==> transforms[i] is Ok && is_green(
            #[trigger] greens[i],
            from[i],
            transforms[i]->Ok_0,
            root,
        )
}

/// The JSON value that names the version of key rules.
pub open spec fn version_value(version: Seq<char>) -> JsonView {
    JsonView::Object(seq![("version"@, JsonView::Str(version))])
}

/// Whether new key rules are the compiled ones.
pub open spec fn unchanged_rules(routing_version: Seq<char>, identity_version: Seq<char>) -> bool {
    routing_version == ROUTING_KEYSPEC_VERSION@ && identity_version == IDENTITY_KEYSPEC_VERSION@
}

/// Whether a result is that of a change of the key rules from those that are compiled in to new ones,
/// given the log so far, the observations in the order in which they were appended with what the new
/// rules make of each, and the name of a new root leaf. Every observation is kept, under its new key,
/// in its place. Rules that do not change are refused, and the first transform that failed ends the
/// migration with its error.
pub open spec fn is_migration(
    r: Result<BlueGreenMigration, PersistenceError>,
    routing_version: Seq<char>,
    identity_version: Seq<char>,
    log: Seq<LogRow>,
    observations: Seq<Observation>,
    transforms: Seq<Result<BlueGreenTransform, PersistenceError>>,
    root: Seq<char>,
) -> bool {
    match r {
        Ok(m) => {
            &&& !unchanged_rules(routing_version, identity_version)
            &&& m.retired_routing_keyspec_version@ == ROUTING_KEYSPEC_VERSION@
            &&& m.retired_identity_keyspec_version@ == IDENTITY_KEYSPEC_VERSION@
            &&& m.retired_log_json@ == crate::json::json_text(retired_log(log))
            &&& m.opening.routing_keyspec_json@ == crate::json::json_text(
                version_value(routing_version),
            )
            &&& m.opening.identity_keyspec_json@ == crate::json::json_text(
                version_value(identity_version),
            )
            &&& crate::runtime::partition::valid_leaf_id(root)
            &&& entry_made(
                Ok(m.opening.event_json),
                EventView::Initialize { root, routing_version, identity_version },
                None,
            )
            &&& first_refusal(transforms) is None
            &&& are_green(m.observations@, observations, transforms, root)
        },
        Err(e) => if unchanged_rules(routing_version, identity_version) {
            e@ == super::error::broken("blue/green migration requires a changed keyspec version"@)
        } else if !crate::runtime::partition::valid_leaf_id(root) {
            reports(e@, PartitionErrorView::InvalidLeafId(root))
        } else {
            first_refusal(transforms) == Some(e@)
        },
    }
}

/// Refuses new key rules that are the compiled ones.
fn check_changed_rules(routing_version: &str, identity_version: &str) -> (r: Result<
    (),
    PersistenceError,
>)
    ensures
        match r {
            Ok(()) => !unchanged_rules(routing_version@, identity_version@),
            Err(e) => unchanged_rules(routing_version@, identity_version@) && e@
                == super::error::broken("blue/green migration requires a changed keyspec version"@),
        },
{
    if str_eq(routing_version, ROUTING_KEYSPEC_VERSION) && str_eq(
        identity_version,
        IDENTITY_KEYSPEC_VERSION,
    ) {
        Err(violation("blue/green migration requires a changed keyspec version"))
    } else {
        Ok(())
    }
}

/// Whether observations were handed to a transform one after the other, from the first one on, up to
/// the first error or the last observation.
pub open spec fn transformed_in_order<
    F: FnMut(&Observation) -> Result<BlueGreenTransform, PersistenceError>,
>(
    transform: F,
    observations: Seq<Observation>,
    transforms: Seq<Result<BlueGreenTransform, PersistenceError>>,
) -> bool {
    &&& transforms.len() <= observations.len()
    &&& forall|i: int|
        0 <= i < transforms.len() ==> call_ensures(
            transform,
            (&observations[i],),
            #[trigger] transforms[i],
        )
    &&& forall|i: int| 0 <= i < transforms.len() - 1 ==> (#[trigger] transforms[i]) is Ok
    &&& transforms.len() < observations.len() ==> transforms.len() > 0 && transforms.last() is Err
}

fn transform_in_order<F: FnMut(&Observation) -> Result<BlueGreenTransform, PersistenceError>>(
    observations: &Vec<Observation>,
    transform: F,
) -> (r: Vec<Result<BlueGreenTransform, PersistenceError>>)
    requires
        forall|o: Observation| call_requires(transform, (&o,)),
    ensures
        transformed_in_order(transform, observations@, r@),
{
    let ghost given = transform;
    let mut transform = transform;
    let mut out: Vec<Result<BlueGreenTransform, PersistenceError>> = Vec::new();
    let mut i: usize = 0;
    let mut failed = false;
    while i < observations.len() && !failed
        invariant
            i <= observations@.len(),
            out@.len() == i,
            given == transform,
            failed ==> out@.len() > 0 && out@.last() is Err,
            !failed ==> forall|j: int| 0 <= j < i ==> (#[trigger] out@[j]) is Ok,
            forall|j: int| 0 <= j < i - 1 ==> (#[trigger] out@[j]) is Ok,
            forall|o: Observation| call_requires(transform, (&o,)),
            forall|j: int|
                0 <= j < i ==> call_ensures(given, (&observations@[j],), #[trigger] out@[j]),
        decreases observations@.len() - i,
    {
        let made = transform(&observations[i]);
        failed = made.is_err();
        out.push(made);
        i = i + 1;
    }
    out
}

proof fn order_names_the_refusal<
    F: FnMut(&Observation) -> Result<BlueGreenTransform, PersistenceError>,
>(
    transform: F,
    observations: Seq<Observation>,
    transforms: Seq<Result<BlueGreenTransform, PersistenceError>>,
)
    requires
        transformed_in_order(transform, observations, transforms),
    ensures
        first_refusal(transforms) is None ==> transforms.len() == observations.len(),
{
    if transforms.len() < observations.len() {
        let last = transforms.len() - 1;
        assert(transforms[last] == transforms.last());
        refusal_is_found(transforms, last);
    }
}

/// A change of the key rules from those that are compiled in to new ones, given the log so far, the
/// observations in the order in which they were appended, what the new rules make of an observation,
/// and the name of a new root leaf. Where the rules do not change no observation is transformed.
pub fn blue_green_migrate<F: FnMut(&Observation) -> Result<BlueGreenTransform, PersistenceError>>(
    new_routing_keyspec_version: &str,
    new_identity_keyspec_version: &str,
    log: &Vec<LogRow>,
    observations: Vec<Observation>,
    root_leaf_id: &str,
    transform: F,
) -> (r: Result<BlueGreenMigration, PersistenceError>)
    requires
        forall|o: Observation| call_requires(transform, (&o,)),
    ensures
        if unchanged_rules(new_routing_keyspec_version@, new_identity_keyspec_version@) {
            r matches Err(e) && e@ == super::error::broken(
                "blue/green migration requires a changed keyspec version"@,
            )
        } else {
            exists|transforms: Seq<Result<BlueGreenTransform, PersistenceError>>|
                {
                    &&& #[trigger] transformed_in_order(transform, observations@, transforms)
                    &&& is_migration(
                        r,
                        new_routing_keyspec_version@,
                        new_identity_keyspec_version@,
                        log@,
                        observations@,
                        transforms,
                        root_leaf_id@,
                    )
                }
        },
{
    match check_changed_rules(new_routing_keyspec_version, new_identity_keyspec_version) {
        Ok(()) => {},
        Err(e) => {
            return Err(e);
        },
    }
    let transforms = transform_in_order(&observations, transform);
    proof {
        order_names_the_refusal(transform, observations@, transforms@);
    }
    migrate_with_transforms(
        new_routing_keyspec_version,
        new_identity_keyspec_version,
        log,
        observations,
        transforms,
        root_leaf_id,
    )
}

/// A change of the key rules, given what the new rules make of each observation; transforms behind
/// the first error need not be given.
pub fn migrate_with_transforms(
    new_routing_keyspec_version: &str,
    new_identity_keyspec_version: &str,
    log: &Vec<LogRow>,
    observations: Vec<Observation>,
    transforms: Vec<Result<BlueGreenTransform, PersistenceError>>,
    root_leaf_id: &str,
) -> (r: Result<BlueGreenMigration, PersistenceError>)
    requires
        first_refusal(transforms@) is None ==> transforms@.len() == observations@.len(),
    ensures
        is_migration(
            r,
            new_routing_keyspec_version@,
            new_identity_keyspec_version@,
            log@,
            observations@,
            transforms@,
            root_leaf_id@,
        ),
{
    match check_changed_rules(new_routing_keyspec_version, new_identity_keyspec_version) {
        Ok(()) => {},
        Err(e) => {
            return Err(e);
        },
    }
    let retired_log_json = retired_log_json(log);
    let event_json = match keyspec_initialize_event_json(
        root_leaf_id,
        new_routing_keyspec_version,
        new_identity_keyspec_version,
    ) {
        Ok(t) => t,
        Err(e) => {
            return Err(partition_refusal(e));
        },
    };
    let greens = match green_observations(observations, transforms, root_leaf_id) {
        Ok(greens) => greens,
        Err(e) => {
            return Err(e);
        },
    };
    let routing = object1("version", text(new_routing_keyspec_version));
    let identity = object1("version", text(new_identity_keyspec_version));
    proof {
        reveal_with_fuel(crate::json::integers_only, 2);
        reveal_with_fuel(crate::json::nests_within, 2);
    }
    Ok(
        BlueGreenMigration {
            retired_routing_keyspec_version: ROUTING_KEYSPEC_VERSION.to_owned(),
            retired_identity_keyspec_version: IDENTITY_KEYSPEC_VERSION.to_owned(),
            retired_log_json,
            opening: LogOpening {
                routing_keyspec_json: write_json(&routing),
                identity_keyspec_json: write_json(&identity),
                event_json,
            },
            observations: greens,
        },
    )
}

/// An observation under new key rules, with its row below the new root leaf.
pub fn green_observation(
    observation: Observation,
    transform: &BlueGreenTransform,
    root_leaf_id: &str,
) -> (r: (Observation, NewObservationRow))
    ensures
        is_green(r, observation, *transform, root_leaf_id@),
{
    let moved = with_identity(
        observation,
        &transform.identity_key,
        transform.canonical_json.as_str(),
    );
    let row = NewObservationRow {
        leaf_id: root_leaf_id.to_owned(),
        routing_key: transform.routing_key.clone(),
        identity_key: transform.identity_key.as_str().to_owned(),
        canonical_json_sha256: canonical_json_sha256(transform.canonical_json.as_str()),
    };
    (moved, row)
}

proof fn refusal_is_found(
    transforms: Seq<Result<BlueGreenTransform, PersistenceError>>,
    at: int,
)
    requires
        0 <= at < transforms.len(),
        forall|i: int| 0 <= i < at ==> (#[trigger] transforms[i]) is Ok,
        transforms[at] is Err,
    ensures
        first_refusal(transforms) == Some(transforms[at]->Err_0@),
    decreases transforms.len(),
{
    let init = transforms.drop_last();
    if at < init.len() {
        assert forall|i: int| 0 <= i < at implies (#[trigger] init[i]) is Ok by {
            assert(init[i] == transforms[i]);
        }
        refusal_is_found(init, at);
    } else {
        assert forall|i: int| 0 <= i < init.len() implies (#[trigger] init[i]) is Ok by {
            assert(init[i] == transforms[i]);
        }
        nothing_is_refused(init);
    }
}

proof fn nothing_is_refused(transforms: Seq<Result<BlueGreenTransform, PersistenceError>>)
    requires
        forall|i: int| 0 <= i < transforms.len() ==> (#[trigger] transforms[i]) is Ok,
    ensures
        first_refusal(transforms) is None,
    decreases transforms.len(),
{
    if transforms.len() > 0 {
        let init = transforms.drop_last();
        assert forall|i: int| 0 <= i < init.len() implies (#[trigger] init[i]) is Ok by {
            assert(init[i] == transforms[i]);
        }
        nothing_is_refused(init);
        assert(transforms[transforms.len() - 1] is Ok);
    }
}

fn find_refusal(transforms: &Vec<Result<BlueGreenTransform, PersistenceError>>) -> (r: Option<
    usize,
>)
    ensures
        match r {
            Some(at) => at < transforms@.len() && transforms@[at as int] is Err && forall|i: int|
                0 <= i < at ==> (#[trigger] transforms@[i]) is Ok,
            None => forall|i: int| 0 <= i < transforms@.len() ==> (#[trigger] transforms@[i]) is Ok,
        },
{
    let mut i: usize = 0;
    while i < transforms.len()
        invariant
            i <= transforms@.len(),
            forall|j: int| 0 <= j < i ==> (#[trigger] transforms@[j]) is Ok,
        decreases transforms@.len() - i,
    {
        if transforms[i].is_err() {
            return Some(i);
        }
        i = i + 1;
    }
    None
}

/// The observations of a lake under new key rules, each with its row below the new root leaf, given
/// what the rules make of each; the first error ends it.
pub fn green_observations(
    observations: Vec<Observation>,
    transforms: Vec<Result<BlueGreenTransform, PersistenceError>>,
    root_leaf_id: &str,
) -> (r: Result<Vec<(Observation, NewObservationRow)>, PersistenceError>)
    requires
        first_refusal(transforms@) is None ==> transforms@.len() == observations@.len(),
    ensures
        match r {
            Ok(greens) => first_refusal(transforms@) is None && are_green(
                greens@,
                observations@,
                transforms@,
                root_leaf_id@,
            ),
            Err(e) => first_refusal(transforms@) == Some(e@),
        },
{
    let ghost given = transforms@;
    let ghost from = observations@;
    let mut transforms = transforms;
    match find_refusal(&transforms) {
        Some(at) => {
            proof {
                refusal_is_found(given, at as int);
            }
            match transforms.remove(at) {
                Ok(_) => {},
                Err(e) => {
                    return Err(e);
                },
            }
        },
        None => {},
    }
    proof {
        nothing_is_refused(given);
    }
    // The last observation is taken first, so that none is moved twice.
    let mut rest = observations;
    let mut backwards: Vec<(Observation, NewObservationRow)> = Vec::new();
    while rest.len() > 0
        invariant
            from.len() == given.len(),
            transforms@ == given,
            forall|j: int| 0 <= j < given.len() ==> (#[trigger] given[j]) is Ok,
            rest@.len() + backwards@.len() == from.len(),
            rest@ == from.take(rest@.len() as int),
            forall|j: int|
                0 <= j < backwards@.len() ==> is_green(
                    #[trigger] backwards@[j],
                    from[from.len() - 1 - j],
                    given[from.len() - 1 - j]->Ok_0,
                    root_leaf_id@,
                ),
        decreases rest@.len(),
    {
        let at: usize = rest.len() - 1;
        let ghost before = rest@;
        match rest.pop() {
            Some(observation) => {
                assert(observation == from[at as int]);
                assert(rest@ =~= from.take(at as int));
                assert(given[at as int] is Ok);
                match &transforms[at] {
                    Ok(transform) => {
                        backwards.push(green_observation(observation, transform, root_leaf_id));
                    },
                    Err(_) => {},
                }
            },
            None => {},
        }
    }
    let ghost reversed = backwards@;
    let mut greens: Vec<(Observation, NewObservationRow)> = Vec::new();
    while backwards.len() > 0
        invariant
            reversed.len() == from.len(),
            from.len() == given.len(),
            greens@.len() + backwards@.len() == from.len(),
            backwards@ == reversed.take(backwards@.len() as int),
            forall|j: int| 0 <= j < given.len() ==> (#[trigger] given[j]) is Ok,
            forall|j: int|
                0 <= j < reversed.len() ==> is_green(
                    #[trigger] reversed[j],
                    from[from.len() - 1 - j],
                    given[from.len() - 1 - j]->Ok_0,
                    root_leaf_id@,
                ),
            forall|j: int|
                0 <= j < greens@.len() ==> is_green(
                    #[trigger] greens@[j],
                    from[j],
                    given[j]->Ok_0,
                    root_leaf_id@,
                ),
        decreases backwards@.len(),
    {
        let ghost at = backwards@.len() - 1;
        match backwards.pop() {
            Some(green) => {
                assert(green == reversed[at]);
                assert(backwards@ =~= reversed.take(at));
                greens.push(green);
            },
            None => {},
        }
    }
    Ok(greens)
}

/// The log of a migrated lake builds a tree of the new root alone.
pub proof fn migrated_logs_start_at_the_new_root(
    root: Seq<char>,
    routing_version: Seq<char>,
    identity_version: Seq<char>,
)
    requires
        crate::runtime::partition::valid_leaf_id(root),
    ensures
        crate::runtime::partition::tree_of_log(
            seq![EventView::Initialize { root, routing_version, identity_version }],
        ) == Ok::<TreeView, PartitionErrorView>(TreeView::Leaf { id: root }),
{
    let event = EventView::Initialize { root, routing_version, identity_version };
    assert(seq![event].drop_last() =~= Seq::empty());
    reveal_with_fuel(crate::runtime::partition::replayed, 2);
}

} // verus!
