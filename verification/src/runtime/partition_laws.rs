//! Laws of keys, splits and entries of the partition log.

use vstd::prelude::*;
use vstd::string::*;

use crate::domain::Observation;
use crate::json::JsonView;
use crate::runtime::keyspec_migration::{MigrationError, MigrationPhase, MigrationView};
use crate::runtime::partition::{
    CapacitySplitPlan, EventView, PartitionErrorView, RoutedObservation, SplitCutoverStep,
};
use crate::runtime::tree::TreeView;

verus! {

/// Every refusal of the partition tree is told in words of its own, with the name it is about.
pub proof fn refusals_are_told_in_words(t: Seq<char>, u: Seq<char>)
    ensures
        crate::runtime::partition::partition_message(PartitionErrorView::InvalidLeafId(t)) == Some(
            "invalid leaf id: "@ + t,
        ),
        crate::runtime::partition::partition_message(PartitionErrorView::EmptyRoutingAxis(t))
            == Some("routing axis "@ + t + " is empty"@),
        crate::runtime::partition::partition_message(
            PartitionErrorView::ReservedRoutingAxisSeparator(t),
        ) == Some("routing axis "@ + t + " contains the reserved separator"@),
        crate::runtime::partition::partition_message(PartitionErrorView::InvalidRoutingAxisCount)
            == Some("routing key requires exactly 5 axes"@),
        crate::runtime::partition::partition_message(
            PartitionErrorView::InvalidRoutingPrefixAxisCount,
        ) == Some("routing prefix cannot contain more than 5 axes"@),
        crate::runtime::partition::partition_message(PartitionErrorView::MissingInitialize)
            == Some("partition log has no initialize event"@),
        crate::runtime::partition::partition_message(PartitionErrorView::DuplicateInitialize)
            == Some("partition log has more than one initialize event"@),
        crate::runtime::partition::partition_message(PartitionErrorView::SplitParentNotFound(t))
            == Some("split parent leaf not found: "@ + t),
        crate::runtime::partition::partition_message(
            PartitionErrorView::SplitParentAlreadyRetired(t),
        ) == Some("split parent is already retired: "@ + t),
        crate::runtime::partition::partition_message(PartitionErrorView::DuplicateLeafId(t))
            == Some("split child leaf id already exists: "@ + t),
        crate::runtime::partition::partition_message(PartitionErrorView::InvalidSplitReason)
            == Some("split_commit reason must be capacity"@),
        crate::runtime::partition::partition_message(PartitionErrorView::InvalidSplitCapacity)
            == Some("split capacity must be greater than zero"@),
        crate::runtime::partition::partition_message(PartitionErrorView::InsufficientSplitInput)
            == Some("capacity split requires at least two routed observations"@),
        crate::runtime::partition::partition_message(PartitionErrorView::NoDiscriminatingBit)
            == Some("routing keys have no discriminating bit"@),
        crate::runtime::partition::partition_message(
            (PartitionErrorView::SplitCutoverOutOfOrder { expected: t, actual: u }),
        ) == Some("split cutover step out of order: expected "@ + t + ", actual "@ + u),
        crate::runtime::partition::partition_message(PartitionErrorView::UnknownEventType(t))
            == Some("unknown partition event type: "@ + t),
{
}

/// A split is between three valid and different leaves; else the first invalid one is told, or the
/// child that is another of the three.
pub proof fn splits_are_between_three_leaves(
    parent: Seq<char>,
    left: Seq<char>,
    right: Seq<char>,
)
    ensures
        ({
            let fault = crate::runtime::partition::split_ids_error(parent, left, right);
            let p = crate::runtime::partition::valid_leaf_id(parent);
            let l = crate::runtime::partition::valid_leaf_id(left);
            let r = crate::runtime::partition::valid_leaf_id(right);
            &&& fault is None <==> p && l && r && parent != left && parent != right && left != right
            &&& !p ==> fault == Some(PartitionErrorView::InvalidLeafId(parent))
            &&& p && !l ==> fault == Some(PartitionErrorView::InvalidLeafId(left))
            &&& p && l && !r ==> fault == Some(PartitionErrorView::InvalidLeafId(right))
            &&& p && l && r && parent == left ==> fault == Some(
                PartitionErrorView::DuplicateLeafId(left),
            )
            &&& p && l && r && parent != left && (parent == right || left == right) ==> fault
                == Some(PartitionErrorView::DuplicateLeafId(right))
        }),
{
}

/// The name of a leaf is `lake:` before a UUID, and that of a spool `spool:` before one.
pub proof fn leaves_and_spools_are_named_by_a_uuid(uuid: Seq<char>)
    ensures
        crate::runtime::partition::valid_leaf_id("lake:"@ + uuid)
            <==> crate::runtime::partition::uuid_text(uuid),
        crate::runtime::partition::valid_failover_id("spool:"@ + uuid)
            <==> crate::runtime::partition::uuid_text(uuid),
        !crate::runtime::partition::valid_leaf_id("spool:"@ + uuid),
        !crate::runtime::partition::valid_failover_id("lake:"@ + uuid),
{
    reveal_strlit("lake:");
    reveal_strlit("spool:");
    let leaf = "lake:"@ + uuid;
    let spool = "spool:"@ + uuid;
    assert(leaf.take(5) =~= "lake:"@);
    assert(leaf.skip(5) =~= uuid);
    assert(spool.take(6) =~= "spool:"@);
    assert(spool.skip(6) =~= uuid);
    assert(spool.take(5)[0] == 's' && "lake:"@[0] == 'l');
    if leaf.len() >= 6 {
        assert(leaf.take(6)[0] == 'l' && "spool:"@[0] == 's');
    }
}

/// A handover to a spool is between a valid leaf and a valid spool; else the first invalid one of
/// the two is told.
pub proof fn handovers_are_between_leaf_and_spool(leaf: Seq<char>, spool: Seq<char>)
    ensures
        ({
            let fault = crate::runtime::partition::failover_fault(leaf, spool);
            let l = crate::runtime::partition::valid_leaf_id(leaf);
            let s = crate::runtime::partition::valid_failover_id(spool);
            &&& fault is None <==> l && s
            &&& !l ==> fault == Some(PartitionErrorView::InvalidLeafId(leaf))
            &&& l && !s ==> fault == Some(PartitionErrorView::InvalidLeafId(spool))
        }),
{
}

/// Whether a value may stand on an axis.
pub open spec fn axis_in_order(value: Seq<char>) -> bool {
    value.len() > 0 && forall|k: int| 0 <= k < value.len() ==> #[trigger] value[k] != '\u{1f}'
}

proof fn axis_rule(value: Seq<char>)
    ensures
        axis_in_order(value) <==> value.len() > 0 && !value.contains('\u{1f}'),
        axis_in_order(value) <==> crate::runtime::partition::valid_axis(value),
{
    if value.contains('\u{1f}') {
        let k = choose|k: int| 0 <= k < value.len() && value[k] == '\u{1f}';
        assert(value[k] == '\u{1f}');
    }
}

proof fn axes_from(axes: Seq<Seq<char>>, from: int)
    requires
        0 <= from <= axes.len(),
    ensures
        crate::runtime::partition::axes_error(axes, from) is None <==> forall|i: int|
            from <= i < axes.len() ==> axis_in_order(#[trigger] axes[i]),
    decreases axes.len() - from,
{
    if from < axes.len() {
        axes_from(axes, from + 1);
        axis_rule(axes[from]);
        if crate::runtime::partition::axes_error(axes, from) is None {
            assert forall|i: int| from <= i < axes.len() implies axis_in_order(#[trigger] axes[i]) by {
                if i > from {
                    assert(axis_in_order(axes[i]));
                }
            }
        }
    }
}

proof fn first_axis_fault(axes: Seq<Seq<char>>, from: int, n: int)
    requires
        0 <= from <= n < axes.len(),
        forall|i: int| from <= i < n ==> axis_in_order(#[trigger] axes[i]),
        !axis_in_order(axes[n]),
    ensures
        crate::runtime::partition::axes_error(axes, from) == Some(
            if axes[n].len() == 0 {
                PartitionErrorView::EmptyRoutingAxis(crate::runtime::partition::axis_name(n))
            } else {
                PartitionErrorView::ReservedRoutingAxisSeparator(
                    crate::runtime::partition::axis_name(n),
                )
            },
        ),
    decreases n - from,
{
    axis_rule(axes[from]);
    if from < n {
        first_axis_fault(axes, from + 1, n);
    }
}

/// A routing key is made of just five values that are not empty and free of the separator, which it
/// keeps as they are; another number of values is refused.
pub proof fn routing_keys_have_five_axes(axes: Seq<Seq<char>>)
    ensures
        axes.len() != 5 ==> crate::runtime::partition::routing_key_of(axes) == Err::<
            Seq<Seq<char>>,
            PartitionErrorView,
        >(PartitionErrorView::InvalidRoutingAxisCount),
        crate::runtime::partition::routing_key_of(axes) is Ok <==> axes.len() == 5 && forall|i: int|
            0 <= i < 5 ==> axis_in_order(#[trigger] axes[i]),
        crate::runtime::partition::routing_key_of(axes) matches Ok(key) ==> key == axes,
{
    axes_from(axes, 0);
}

/// Of five values the first one that is empty or holds the separator decides what is told, with the
/// name of its axis.
pub proof fn the_first_faulty_axis_is_told(axes: Seq<Seq<char>>, n: int)
    requires
        axes.len() == 5,
        0 <= n < 5,
        forall|i: int| 0 <= i < n ==> axis_in_order(#[trigger] axes[i]),
        !axis_in_order(axes[n]),
    ensures
        ({
            let names = seq![
                "coarse_month"@,
                "coarse_year"@,
                "source"@,
                "container"@,
                "fine_published"@,
            ];
            crate::runtime::partition::routing_key_of(axes) == Err::<
                Seq<Seq<char>>,
                PartitionErrorView,
            >(
                if axes[n].len() == 0 {
                    PartitionErrorView::EmptyRoutingAxis(names[n])
                } else {
                    PartitionErrorView::ReservedRoutingAxisSeparator(names[n])
                },
            )
        }),
{
    first_axis_fault(axes, 0, n);
}

/// A routing key is written as its five values with the separator between each two.
pub proof fn routing_keys_are_written_with_separators(
    a: Seq<char>,
    b: Seq<char>,
    c: Seq<char>,
    d: Seq<char>,
    e: Seq<char>,
)
    ensures
        ({
            let sep = seq!['\u{1f}'];
            &&& crate::runtime::partition::encoded_axes(seq![a, b, c, d, e]) == a + sep + b + sep
                + c + sep + d + sep + e
            &&& crate::runtime::partition::key_bytes(seq![a, b, c, d, e])
                == vstd::utf8::encode_utf8(a + sep + b + sep + c + sep + d + sep + e)
            &&& crate::runtime::partition::prefix_bytes(seq![a, b, c, d, e])
                == vstd::utf8::encode_utf8(a + sep + b + sep + c + sep + d + sep + e)
            &&& crate::runtime::partition::prefix_bytes(seq![a]) == vstd::utf8::encode_utf8(a + sep)
            &&& crate::runtime::partition::prefix_bytes(seq![a, b]) == vstd::utf8::encode_utf8(
                a + sep + b + sep,
            )
        }),
{
    let sep = seq!['\u{1f}'];
    let five = seq![a, b, c, d, e];
    let four = seq![a, b, c, d];
    let three = seq![a, b, c];
    let two = seq![a, b];
    let one = seq![a];
    assert(five.drop_last() =~= four);
    assert(four.drop_last() =~= three);
    assert(three.drop_last() =~= two);
    assert(two.drop_last() =~= one);
    assert(crate::text::join(one, sep) == a);
    assert(crate::text::join(two, sep) == a + sep + b);
    assert(crate::text::join(three, sep) == a + sep + b + sep + c);
    assert(crate::text::join(four, sep) == a + sep + b + sep + c + sep + d);
    assert(a.push('\u{1f}') =~= a + sep);
    assert((a + sep + b).push('\u{1f}') =~= a + sep + b + sep);
}

/// The axes of an observation are the month and the year of its instant, its source, its container
/// and the instant itself, in this order.
pub proof fn axes_stand_in_order(published: (i64, u32), source: Seq<char>, container: Seq<char>)
    ensures
        ({
            let axes = crate::runtime::partition::routing_axes(published, source, container);
            &&& axes.len() == 5
            &&& axes[0] == crate::text::padded(
                crate::time::month_of(published.0 as int) as nat,
                2,
            )
            &&& axes[1] == crate::text::padded_signed(crate::time::year_of(published.0 as int), 4)
            &&& axes[2] == source
            &&& axes[3] == container
            &&& axes[4] == crate::time::rfc3339_nanos(published.0, published.1)
        }),
{
}

/// An observation is routed by its source system and the container that its metadata name; what is
/// missing is told, the source before the container.
pub proof fn observations_name_source_and_container(observation: Observation)
    ensures
        ({
            let named = crate::runtime::partition::routing_source(observation);
            let container = crate::json::member(observation.meta@, "source_container"@);
            &&& observation.source_system is None ==> named == Err::<
                (Seq<char>, Seq<char>),
                PartitionErrorView,
            >(PartitionErrorView::EmptyRoutingAxis("source"@))
            &&& observation.source_system is Some && !(container matches Some(JsonView::Str(_)))
                ==> named == Err::<(Seq<char>, Seq<char>), PartitionErrorView>(
                PartitionErrorView::EmptyRoutingAxis("container"@),
            )
            &&& observation.source_system is Some && container is Some && container->0 is Str
                ==> named == Ok::<(Seq<char>, Seq<char>), PartitionErrorView>(
                (observation.source_system->0@, container->0->Str_0),
            )
        }),
{
}

/// The bit that parts keys is one in which two of them differ, and before it they all agree.
pub proof fn keys_are_parted_by_their_first_difference(keys: Seq<Seq<u8>>, bit: u32)
    ensures
        crate::runtime::partition::first_discriminating(keys, bit) <==> (exists|i: int, j: int|
            0 <= i < keys.len() && 0 <= j < keys.len() && crate::runtime::tree::bit_of(
                #[trigger] keys[i],
                bit,
            ) != crate::runtime::tree::bit_of(#[trigger] keys[j], bit)) && forall|
            b: u32,
            i: int,
            j: int,
        |
            b < bit && 0 <= i < keys.len() && 0 <= j < keys.len()
                ==> #[trigger] crate::runtime::tree::bit_of(keys[i], b)
                == #[trigger] crate::runtime::tree::bit_of(keys[j], b),
{
    if exists|i: int, j: int|
        0 <= i < keys.len() && 0 <= j < keys.len() && crate::runtime::tree::bit_of(
            #[trigger] keys[i],
            bit,
        ) != crate::runtime::tree::bit_of(#[trigger] keys[j], bit) {
        let (i, j) = choose|i: int, j: int|
            0 <= i < keys.len() && 0 <= j < keys.len() && crate::runtime::tree::bit_of(
                #[trigger] keys[i],
                bit,
            ) != crate::runtime::tree::bit_of(#[trigger] keys[j], bit);
        if crate::runtime::tree::bit_of(keys[i], bit) != crate::runtime::tree::bit_of(keys[0], bit) {
            assert(crate::runtime::partition::discriminates(keys, bit));
        } else {
            assert(crate::runtime::tree::bit_of(keys[j], bit) != crate::runtime::tree::bit_of(
                keys[0],
                bit,
            ));
            assert(crate::runtime::partition::discriminates(keys, bit));
        }
    }
    if crate::runtime::partition::first_discriminating(keys, bit) {
        assert(crate::runtime::partition::discriminates(keys, bit));
        let i = choose|i: int|
            0 <= i < keys.len() && crate::runtime::tree::bit_of(#[trigger] keys[i], bit)
                != crate::runtime::tree::bit_of(keys[0], bit);
        assert(crate::runtime::tree::bit_of(keys[i], bit) != crate::runtime::tree::bit_of(
            keys[0],
            bit,
        ));
        assert forall|b: u32, i: int, j: int|
            b < bit && 0 <= i < keys.len() && 0 <= j < keys.len()
                implies #[trigger] crate::runtime::tree::bit_of(keys[i], b)
            == #[trigger] crate::runtime::tree::bit_of(keys[j], b) by {
            assert(!crate::runtime::partition::discriminates(keys, b));
            if crate::runtime::tree::bit_of(keys[i], b) != crate::runtime::tree::bit_of(keys[0], b) {
                assert(crate::runtime::partition::discriminates(keys, b));
            }
            if crate::runtime::tree::bit_of(keys[j], b) != crate::runtime::tree::bit_of(keys[0], b) {
                assert(crate::runtime::partition::discriminates(keys, b));
            }
        }
    } else if (exists|i: int, j: int|
        0 <= i < keys.len() && 0 <= j < keys.len() && crate::runtime::tree::bit_of(
            #[trigger] keys[i],
            bit,
        ) != crate::runtime::tree::bit_of(#[trigger] keys[j], bit)) && forall|b: u32, i: int, j: int|
        b < bit && 0 <= i < keys.len() && 0 <= j < keys.len()
            ==> #[trigger] crate::runtime::tree::bit_of(keys[i], b)
            == #[trigger] crate::runtime::tree::bit_of(keys[j], b) {
        assert forall|b: u32| b < bit implies !#[trigger] crate::runtime::partition::discriminates(
            keys,
            b,
        ) by {
            if crate::runtime::partition::discriminates(keys, b) {
                let i = choose|i: int|
                    0 <= i < keys.len() && crate::runtime::tree::bit_of(#[trigger] keys[i], b)
                        != crate::runtime::tree::bit_of(keys[0], b);
                assert(crate::runtime::tree::bit_of(keys[i], b) == crate::runtime::tree::bit_of(
                    keys[0],
                    b,
                ));
            }
        }
    }
}

/// The first bit of a byte is its highest one, the eighth its lowest; behind the last byte no bit is
/// set.
pub proof fn bits_are_read_from_the_highest(bytes: Seq<u8>, k: int)
    requires
        0 <= k < bytes.len() <= 0x1000_0000,
    ensures
        crate::runtime::tree::bit_of(bytes, (8 * k) as u32) <==> bytes[k] >= 128,
        crate::runtime::tree::bit_of(bytes, (8 * k + 7) as u32) <==> bytes[k] % 2 == 1,
        crate::runtime::tree::bit_of(bytes, (8 * k + 1) as u32) <==> bytes[k] % 128 >= 64,
        crate::runtime::tree::bit_of(bytes, (8 * k + 2) as u32) <==> bytes[k] % 64 >= 32,
        crate::runtime::tree::bit_of(bytes, (8 * k + 3) as u32) <==> bytes[k] % 32 >= 16,
        crate::runtime::tree::bit_of(bytes, (8 * k + 4) as u32) <==> bytes[k] % 16 >= 8,
        crate::runtime::tree::bit_of(bytes, (8 * k + 5) as u32) <==> bytes[k] % 8 >= 4,
        crate::runtime::tree::bit_of(bytes, (8 * k + 6) as u32) <==> bytes[k] % 4 >= 2,
        !crate::runtime::tree::bit_of(bytes, (8 * bytes.len()) as u32),
{
    let b = bytes[k];
    assert((b & (1u8 << 7u32) != 0) == (b >= 128)) by (bit_vector);
    assert((b & (1u8 << 6u32) != 0) == (b % 128 >= 64)) by (bit_vector);
    assert((b & (1u8 << 5u32) != 0) == (b % 64 >= 32)) by (bit_vector);
    assert((b & (1u8 << 4u32) != 0) == (b % 32 >= 16)) by (bit_vector);
    assert((b & (1u8 << 3u32) != 0) == (b % 16 >= 8)) by (bit_vector);
    assert((b & (1u8 << 2u32) != 0) == (b % 8 >= 4)) by (bit_vector);
    assert((b & (1u8 << 1u32) != 0) == (b % 4 >= 2)) by (bit_vector);
    assert((b & (1u8 << 0u32) != 0) == (b % 2 == 1)) by (bit_vector);
}

/// In a split tree the keys whose bit is set belong to the right part and the others to the left
/// one; its leaves are those of the left part before those of the right one, and a leaf that was
/// split is no longer one of its own accord.
pub proof fn set_bits_lead_to_the_right(
    parent: Seq<char>,
    bit: u32,
    left: TreeView,
    right: TreeView,
    key: Seq<u8>,
    id: Seq<char>,
)
    ensures
        ({
            let tree = TreeView::Split { parent, bit, left: Box::new(left), right: Box::new(right) };
            &&& crate::runtime::tree::bit_of(key, bit) ==> crate::runtime::tree::route(tree, key)
                == crate::runtime::tree::route(right, key)
            &&& !crate::runtime::tree::bit_of(key, bit) ==> crate::runtime::tree::route(tree, key)
                == crate::runtime::tree::route(left, key)
            &&& crate::runtime::tree::leaves(tree) == crate::runtime::tree::leaves(left)
                + crate::runtime::tree::leaves(right)
            &&& crate::runtime::tree::retired(tree, id) <==> id == parent
                || crate::runtime::tree::retired(left, id) || crate::runtime::tree::retired(
                right,
                id,
            )
        }),
        crate::runtime::tree::route((TreeView::Leaf { id }), key) == id,
        crate::runtime::tree::leaves((TreeView::Leaf { id })) == seq![id],
        !crate::runtime::tree::retired((TreeView::Leaf { id: parent }), id),
{
}

/// A plan names the three leaves and the bit that it was made for, and gives each observation, in
/// its order, to the right child where that bit of its key is set and to the left one where it is
/// not.
pub proof fn plans_give_each_observation_its_child(
    plan: CapacitySplitPlan,
    parent: Seq<char>,
    left: Seq<char>,
    right: Seq<char>,
    bit: u32,
    routed: Seq<RoutedObservation>,
    i: int,
)
    requires
        crate::runtime::partition::plan_splits(plan, parent, left, right, bit, routed),
        0 <= i < routed.len(),
    ensures
        plan.parent_leaf_id@ == parent,
        plan.left_child_leaf_id@ == left,
        plan.right_child_leaf_id@ == right,
        plan.bit_index == bit,
        plan.rehome_targets@.len() == routed.len(),
        plan.rehome_targets@[i].observation_id@ == routed[i].observation_id@,
        crate::runtime::tree::bit_of(
            vstd::utf8::encode_utf8(
                crate::text::join(routed[i].routing_key@, seq!['\u{1f}']),
            ),
            bit,
        ) ==> plan.rehome_targets@[i].target_leaf_id@ == right,
        !crate::runtime::tree::bit_of(
            vstd::utf8::encode_utf8(
                crate::text::join(routed[i].routing_key@, seq!['\u{1f}']),
            ),
            bit,
        ) ==> plan.rehome_targets@[i].target_leaf_id@ == left,
{
}

/// The entry that commits a planned split says just what the plan says, and that the leaf was full.
pub proof fn plans_are_committed_as_they_are(plan: CapacitySplitPlan)
    ensures
        crate::runtime::partition::committed_split(plan) == (EventView::SplitCommit {
            parent: plan.parent_leaf_id@,
            left: plan.left_child_leaf_id@,
            right: plan.right_child_leaf_id@,
            bit: plan.bit_index,
            reason: "capacity"@,
        }),
{
}

/// A commit is applied just where its reason is that the leaf was full, its three leaves are valid
/// and different, neither child is a leaf already, and the parent is a leaf and was not split; it
/// then replaces the parent by the two children at the bit. What forbids it is told, in this order.
pub proof fn commits_are_applied_or_refused_for_a_reason(
    tree: TreeView,
    parent: Seq<char>,
    left: Seq<char>,
    right: Seq<char>,
    bit: u32,
    reason: Seq<char>,
)
    ensures
        ({
            let commit = EventView::SplitCommit { parent, left, right, bit, reason };
            let after = crate::runtime::partition::applied_commit(tree, commit);
            let full = reason == "capacity"@;
            let names = crate::runtime::partition::split_ids_error(parent, left, right);
            let here = crate::runtime::tree::leaves(tree);
            let gone = crate::runtime::tree::retired(tree, parent);
            &&& after is Ok <==> full && names is None && !here.contains(left) && !here.contains(
                right,
            ) && !gone && here.contains(parent)
            &&& after matches Ok(t) ==> t == crate::runtime::tree::split_leaf(
                tree,
                parent,
                left,
                right,
                bit,
            )
            &&& !full ==> after == Err::<TreeView, PartitionErrorView>(
                PartitionErrorView::InvalidSplitReason,
            )
            &&& full && names is Some ==> after == Err::<TreeView, PartitionErrorView>(names->0)
            &&& full && names is None && here.contains(left) ==> after == Err::<
                TreeView,
                PartitionErrorView,
            >(PartitionErrorView::DuplicateLeafId(left))
            &&& full && names is None && !here.contains(left) && here.contains(right) ==> after
                == Err::<TreeView, PartitionErrorView>(PartitionErrorView::DuplicateLeafId(right))
            &&& full && names is None && !here.contains(left) && !here.contains(right) && gone
                ==> after == Err::<TreeView, PartitionErrorView>(
                PartitionErrorView::SplitParentAlreadyRetired(parent),
            )
            &&& full && names is None && !here.contains(left) && !here.contains(right) && !gone
                && !here.contains(parent) ==> after == Err::<TreeView, PartitionErrorView>(
                PartitionErrorView::SplitParentNotFound(parent),
            )
        }),
{
}

/// How many entries of a log open it.
pub open spec fn openings(events: Seq<EventView>) -> nat
    decreases events.len(),
{
    if events.len() == 0 {
        0
    } else {
        openings(events.drop_last()) + if events.last() is Initialize {
            1nat
        } else {
            0nat
        }
    }
}

proof fn opened_once(events: Seq<EventView>)
    ensures
        crate::runtime::partition::replayed(events) matches Ok(None) ==> openings(events) == 0,
        crate::runtime::partition::replayed(events) matches Ok(Some(_)) ==> openings(events) == 1,
    decreases events.len(),
{
    if events.len() > 0 {
        opened_once(events.drop_last());
    }
}

/// A log that builds a tree was opened just once; the tree of a log that was only opened is the root
/// leaf; a log without an opening builds none, and one that is opened again is refused.
pub proof fn logs_are_opened_once(
    events: Seq<EventView>,
    root: Seq<char>,
    routing_version: Seq<char>,
    identity_version: Seq<char>,
)
    ensures
        crate::runtime::partition::tree_of_log(events) is Ok ==> openings(events) == 1,
        crate::runtime::partition::tree_of_log(Seq::empty()) == Err::<TreeView, PartitionErrorView>(
            PartitionErrorView::MissingInitialize,
        ),
        ({
            let opening = EventView::Initialize { root, routing_version, identity_version };
            let alone = crate::runtime::partition::tree_of_log(seq![opening]);
            &&& crate::runtime::partition::valid_leaf_id(root) ==> alone == Ok::<
                TreeView,
                PartitionErrorView,
            >(TreeView::Leaf { id: root })
            &&& !crate::runtime::partition::valid_leaf_id(root) ==> alone == Err::<
                TreeView,
                PartitionErrorView,
            >(PartitionErrorView::InvalidLeafId(root))
            &&& crate::runtime::partition::tree_of_log(events) is Ok
                ==> crate::runtime::partition::tree_of_log(events.push(opening)) == Err::<
                TreeView,
                PartitionErrorView,
            >(PartitionErrorView::DuplicateInitialize)
        }),
{
    opened_once(events);
    let opening = EventView::Initialize { root, routing_version, identity_version };
    assert(seq![opening].drop_last() =~= Seq::<EventView>::empty());
    assert(events.push(opening).drop_last() =~= events);
    reveal_with_fuel(crate::runtime::partition::replayed, 2);
}

/// A commit at the end of a log that builds a tree changes that tree as it says or is refused; a
/// commit before the opening is refused.
pub proof fn logs_grow_by_commits(events: Seq<EventView>, commit: EventView)
    requires
        commit is SplitCommit,
    ensures
        crate::runtime::partition::tree_of_log(events) matches Ok(tree)
            ==> crate::runtime::partition::tree_of_log(events.push(commit))
            == crate::runtime::partition::applied_commit(tree, commit),
        crate::runtime::partition::replayed(events) == Ok::<Option<TreeView>, PartitionErrorView>(
            None,
        ) ==> crate::runtime::partition::tree_of_log(events.push(commit)) == Err::<
            TreeView,
            PartitionErrorView,
        >(PartitionErrorView::MissingInitialize),
        crate::runtime::partition::replayed(events) is Err ==> crate::runtime::partition::replayed(
            events.push(commit),
        ) == crate::runtime::partition::replayed(events),
{
    assert(events.push(commit).drop_last() =~= events);
}

/// Leaves are looked for by at most five leading axes that are in order; without any, all leaves are
/// found.
pub proof fn leaves_are_looked_for_by_leading_axes(tree: TreeView, axes: Seq<Seq<char>>)
    ensures
        ({
            let found = crate::runtime::partition::candidate_leaf_ids(tree, axes);
            &&& found is Ok <==> axes.len() <= 5 && forall|i: int|
                0 <= i < axes.len() ==> axis_in_order(#[trigger] axes[i])
            &&& axes.len() > 5 ==> found == Err::<Seq<Seq<char>>, PartitionErrorView>(
                PartitionErrorView::InvalidRoutingPrefixAxisCount,
            )
            &&& axes.len() == 0 ==> found == Ok::<Seq<Seq<char>>, PartitionErrorView>(
                crate::runtime::tree::leaves(tree),
            )
            &&& found is Ok && axes.len() > 0 ==> found == Ok::<
                Seq<Seq<char>>,
                PartitionErrorView,
            >(
                crate::runtime::tree::candidates(
                    tree,
                    crate::runtime::partition::prefix_bytes(axes),
                ),
            )
        }),
{
    axes_from(axes, 0);
}

/// A search goes to the side of the bit where the prefix has that bit, and to both sides where it
/// ends before it.
pub proof fn searches_follow_the_bits_of_the_prefix(
    parent: Seq<char>,
    bit: u32,
    left: TreeView,
    right: TreeView,
    prefix: Seq<u8>,
)
    ensures
        ({
            let tree = TreeView::Split { parent, bit, left: Box::new(left), right: Box::new(right) };
            let found = crate::runtime::tree::candidates(tree, prefix);
            &&& 8 * prefix.len() <= bit ==> found == crate::runtime::tree::leaves(left)
                + crate::runtime::tree::leaves(right)
            &&& bit < 8 * prefix.len() && crate::runtime::tree::bit_of(prefix, bit) ==> found
                == crate::runtime::tree::candidates(right, prefix)
            &&& bit < 8 * prefix.len() && !crate::runtime::tree::bit_of(prefix, bit) ==> found
                == crate::runtime::tree::candidates(left, prefix)
        }),
{
}

/// An entry is written as an object with one member for each thing it says, under the name of that
/// thing.
pub proof fn entries_are_written_by_name(event: EventView)
    ensures
        ({
            let value = crate::runtime::partition::event_value(event);
            &&& event matches EventView::Initialize { root, routing_version, identity_version }
                ==> value->Object_0 == seq![
                ("root_leaf_id"@, JsonView::Str(root)),
                ("routing_keyspec_version"@, JsonView::Str(routing_version)),
                ("identity_keyspec_version"@, JsonView::Str(identity_version)),
            ]
            &&& event matches EventView::SplitPrepare { parent, left, right, reason }
                ==> value->Object_0 == seq![
                ("parent_leaf_id"@, JsonView::Str(parent)),
                ("left_child_leaf_id"@, JsonView::Str(left)),
                ("right_child_leaf_id"@, JsonView::Str(right)),
                ("reason"@, JsonView::Str(reason)),
            ]
            &&& event matches EventView::SplitCommit { parent, left, right, bit, reason }
                ==> value->Object_0 == seq![
                ("parent_leaf_id"@, JsonView::Str(parent)),
                ("left_child_leaf_id"@, JsonView::Str(left)),
                ("right_child_leaf_id"@, JsonView::Str(right)),
                ("bit_index"@, JsonView::UInt(bit as u64)),
                ("reason"@, JsonView::Str(reason)),
            ]
            &&& event matches EventView::Failover { leaf, spool } ==> value->Object_0 == seq![
                ("leaf_id"@, JsonView::Str(leaf)),
                ("failover_id"@, JsonView::Str(spool)),
            ]
            &&& event matches EventView::Recover { leaf, spool } ==> value->Object_0 == seq![
                ("leaf_id"@, JsonView::Str(leaf)),
                ("failover_id"@, JsonView::Str(spool)),
            ]
            &&& value is Object
        }),
{
}

/// Each entry is recorded under the word for what it does.
pub proof fn entries_are_recorded_under_their_word(event: EventView)
    ensures
        event is Initialize ==> crate::runtime::partition::event_type_of(event) == "initialize"@,
        event is SplitPrepare ==> crate::runtime::partition::event_type_of(event)
            == "split_prepare"@,
        event is SplitCommit ==> crate::runtime::partition::event_type_of(event) == "split_commit"@,
        event is Failover ==> crate::runtime::partition::event_type_of(event) == "failover"@,
        event is Recover ==> crate::runtime::partition::event_type_of(event) == "recover"@,
{
}

/// A text under an unknown word is refused with that word, and one that is no JSON or gives a field
/// twice is refused as such.
pub proof fn entries_are_read_under_a_known_word(kind: Seq<char>, text: Seq<char>)
    ensures
        ({
            let read = crate::runtime::partition::parsed_event(kind, text);
            let known = kind == "initialize"@ || kind == "split_prepare"@ || kind
                == "split_commit"@ || kind == "failover"@ || kind == "recover"@;
            &&& !known ==> read == Err::<EventView, PartitionErrorView>(
                PartitionErrorView::UnknownEventType(kind),
            )
            &&& known && crate::json::json_parse(text) is None ==> read == Err::<
                EventView,
                PartitionErrorView,
            >(PartitionErrorView::Json)
            &&& known && crate::json::json_parse(text) is Some && crate::json::names_any_twice(
                text,
                1,
                crate::runtime::partition::event_fields(kind),
            ) ==> read == Err::<EventView, PartitionErrorView>(PartitionErrorView::Json)
            &&& read matches Ok(event) ==> crate::runtime::partition::event_type_of(event) == kind
                && crate::runtime::partition::recordable(event)
        }),
{
    reveal_strlit("failover");
    reveal_strlit("recover");
    assert("failover"@.len() == 8 && "recover"@.len() == 7);
}

/// A new log starts under the current rules of both keys.
pub proof fn new_logs_start_under_the_current_rules(root: Seq<char>)
    ensures
        crate::runtime::partition::initialize_entry(root) == (EventView::Initialize {
            root,
            routing_version: "routing-keyspec/v1"@,
            identity_version: "identity-keyspec/v1"@,
        }),
{
}

/// An operation on a split that comes at the wrong step names the step that it needs and the one
/// that was reached.
pub proof fn steps_are_told_by_name(expected: SplitCutoverStep, actual: SplitCutoverStep)
    ensures
        crate::runtime::partition::out_of_order(expected, actual) == (
        PartitionErrorView::SplitCutoverOutOfOrder {
            expected: step_word(expected),
            actual: step_word(actual),
        }),
{
}

/// The word for a step of a split.
pub open spec fn step_word(step: SplitCutoverStep) -> Seq<char> {
    if step == SplitCutoverStep::Prepared {
        "prepared"@
    } else if step == SplitCutoverStep::CaughtUp {
        "caught_up"@
    } else if step == SplitCutoverStep::WriteBarrierEntered {
        "write_barrier_entered"@
    } else {
        "committed"@
    }
}

/// The rules of the routing key are written with five axes, each with its name, the field it is read
/// from and how it is written.
pub proof fn routing_rules_are_written_axis_by_axis(i: int)
    requires
        0 <= i < 5,
    ensures
        ({
            let value = crate::runtime::partition::routing_keyspec_value();
            let axes = value->Object_0[1].1->Array_0;
            let names = seq![
                "coarse_month"@,
                "coarse_year"@,
                "source"@,
                "container"@,
                "fine_published"@,
            ];
            let fields = seq![
                "published"@,
                "published"@,
                "source_system"@,
                "source_container"@,
                "published"@,
            ];
            let forms = seq![
                "utc_month_2digit"@,
                "utc_year_4digit"@,
                "stable_source_ref"@,
                "adapter_declared_workspace_or_channel"@,
                "utc_rfc3339_nanos"@,
            ];
            &&& value is Object
            &&& value->Object_0.len() == 2
            &&& value->Object_0[0] == ("version"@, JsonView::Str("routing-keyspec/v1"@))
            &&& value->Object_0[1].0 == "axes"@
            &&& value->Object_0[1].1 is Array
            &&& axes.len() == 5
            &&& axes[i] is Object
            &&& axes[i]->Object_0 == seq![
                ("name"@, JsonView::Str(names[i])),
                ("source_field"@, JsonView::Str(fields[i])),
                ("encoding"@, JsonView::Str(forms[i])),
            ]
        }),
{
}

/// A step of a migration is taken just in the phase that it needs, and then only the phase changes;
/// in any other phase nothing changes and both phases are told.
pub proof fn migration_steps_need_their_phase(
    before: MigrationView,
    after: MigrationView,
    r: Result<(), MigrationError>,
    expected: MigrationPhase,
    next: MigrationPhase,
)
    requires
        crate::runtime::keyspec_migration::advanced(before, after, r, expected, next),
    ensures
        r is Ok <==> before.phase == expected,
        before.phase == expected ==> after.phase == next,
        before.phase != expected ==> after.phase == before.phase && r == Err::<(), MigrationError>(
            MigrationError::PhaseOutOfOrder { expected, actual: before.phase },
        ),
        after.old_versions == before.old_versions,
        after.new_versions == before.new_versions,
        after.old_log == before.old_log,
        after.new_log == before.new_log,
{
}

/// The rules of the identity key are written with their structure, their digest, their rule for
/// objects, and what belongs to the content, what does not, and how it is made comparable.
pub proof fn identity_rules_are_written_by_name()
    ensures
        ({
            let value = crate::runtime::partition::identity_keyspec_value();
            let m = value->Object_0;
            let content = m[4].1->Object_0;
            &&& value is Object
            &&& m.len() == 5
            &&& m[0] == ("version"@, JsonView::Str("identity-keyspec/v1"@))
            &&& m[1] == (
                "structure"@,
                JsonView::Str("source:object_id:sha256(canonical_content)"@),
            )
            &&& m[2] == ("hash"@, JsonView::Str("sha256"@))
            &&& m[3] == (
                "object_id_rule"@,
                JsonView::Str("adapter_declared_source_specific_object_id"@),
            )
            &&& m[4].0 == "canonical_content"@
            &&& m[4].1 is Object
            &&& content.len() == 3
            &&& content[0] == (
                "include"@,
                crate::json::text_list(
                    seq!["sender"@, "body"@, "event_time"@, "attachment_sha256"@],
                ),
            )
            &&& content[1] == (
                "exclude"@,
                crate::json::text_list(seq!["reactions"@, "edit_wrapper"@, "ingestion_meta"@]),
            )
            &&& content[2] == (
                "normalization"@,
                crate::json::text_list(
                    seq![
                        "unicode_nfc"@,
                        "crlf_to_lf"@,
                        "json_canonical"@,
                        "rfc3339_utc_fixed_precision"@,
                    ],
                ),
            )
        }),
{
}

/// An entry can be recorded just where its leaves are valid: the root of an opening, the three
/// leaves of a split that is for a full leaf, and the leaf and the spool of a handover.
pub proof fn entries_can_be_recorded_with_valid_leaves(
    a: Seq<char>,
    b: Seq<char>,
    c: Seq<char>,
    d: Seq<char>,
    bit: u32,
)
    ensures
        crate::runtime::partition::recordable(
            (EventView::Initialize { root: a, routing_version: b, identity_version: c }),
        ) <==> crate::runtime::partition::valid_leaf_id(a),
        crate::runtime::partition::recordable(
            (EventView::SplitPrepare { parent: a, left: b, right: c, reason: d }),
        ) <==> crate::runtime::partition::split_ids_error(a, b, c) is None && d == "capacity"@,
        crate::runtime::partition::recordable(
            (EventView::SplitCommit { parent: a, left: b, right: c, bit, reason: d }),
        ) <==> crate::runtime::partition::split_ids_error(a, b, c) is None && d == "capacity"@,
        crate::runtime::partition::recordable((EventView::Failover { leaf: a, spool: b }))
            <==> crate::runtime::partition::valid_leaf_id(a)
            && crate::runtime::partition::valid_failover_id(b),
        crate::runtime::partition::recordable((EventView::Recover { leaf: a, spool: b }))
            <==> crate::runtime::partition::valid_leaf_id(a)
            && crate::runtime::partition::valid_failover_id(b),
{
}

/// An entry that is read says what its object gives under the names of its kind; a leaf that is not
/// valid is told, and an entry without one of its members is refused.
pub proof fn entries_are_read_by_name(
    root: Seq<char>,
    routing_version: Seq<char>,
    identity_version: Seq<char>,
    value: JsonView,
)
    requires
        crate::json::text_field(value, "root_leaf_id"@, 0, 3) == Some(root),
        crate::json::text_field(value, "routing_keyspec_version"@, 1, 3) == Some(routing_version),
        crate::json::text_field(value, "identity_keyspec_version"@, 2, 3) == Some(identity_version),
    ensures
        crate::runtime::partition::valid_leaf_id(root) ==> crate::runtime::partition::decoded_event(
            "initialize"@,
            value,
        ) == Ok::<EventView, PartitionErrorView>(
            EventView::Initialize { root, routing_version, identity_version },
        ),
        !crate::runtime::partition::valid_leaf_id(root)
            ==> crate::runtime::partition::decoded_event("initialize"@, value) == Err::<
            EventView,
            PartitionErrorView,
        >(PartitionErrorView::InvalidLeafId(root)),
{
}

/// Four ways to write a UUID are read: its 32 digits, these with hyphens behind the eighth, the
/// twelfth, the sixteenth and the twentieth digit, and the latter in braces or as a URN.
pub proof fn uuids_are_read_in_four_forms(s: Seq<char>)
    ensures
        s.len() != 32 && s.len() != 36 && s.len() != 38 && s.len() != 45
            ==> !crate::runtime::partition::uuid_text(s),
        s.len() == 32 ==> (crate::runtime::partition::uuid_text(s) <==> forall|i: int|
            0 <= i < 32 ==> crate::runtime::partition::is_hex_digit(#[trigger] s[i])),
        s.len() == 36 ==> (crate::runtime::partition::uuid_text(s) <==> s[8] == '-' && s[13] == '-'
            && s[18] == '-' && s[23] == '-' && forall|i: int|
            0 <= i < 36 && i != 8 && i != 13 && i != 18 && i != 23
                ==> crate::runtime::partition::is_hex_digit(#[trigger] s[i])),
        s.len() == 38 ==> (crate::runtime::partition::uuid_text(s) <==> s[0] == '{' && s[37] == '}'
            && crate::runtime::partition::uuid_text(s.subrange(1, 37))),
{
    if s.len() == 36 && s[8] == '-' && s[13] == '-' && s[18] == '-' && s[23] == '-' && (forall|i: int|
        0 <= i < 36 && i != 8 && i != 13 && i != 18 && i != 23
            ==> crate::runtime::partition::is_hex_digit(#[trigger] s[i])) {
        assert(crate::runtime::partition::hyphenated_uuid(s));
    }
    if s.len() == 36 && crate::runtime::partition::hyphenated_uuid(s) {
        assert(s[8] == '-' && s[13] == '-' && s[18] == '-' && s[23] == '-');
    }
}

/// The fields that an entry of a kind may give only once are the names that an entry of that kind is
/// written with.
pub proof fn entries_give_their_fields_once(event: EventView, i: int)
    ensures
        ({
            let fields = crate::runtime::partition::event_fields(
                crate::runtime::partition::event_type_of(event),
            );
            let members = crate::runtime::partition::event_value(event)->Object_0;
            &&& fields.len() == members.len()
            &&& 0 <= i < fields.len() ==> fields[i] == members[i].0
        }),
{
    reveal_strlit("initialize");
    reveal_strlit("split_prepare");
    reveal_strlit("split_commit");
    reveal_strlit("failover");
    reveal_strlit("recover");
    assert("initialize"@.len() == 10 && "split_prepare"@.len() == 13 && "split_commit"@.len() == 12
        && "failover"@.len() == 8 && "recover"@.len() == 7);
}

} // verus!
