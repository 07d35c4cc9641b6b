//! The shape of a partition tree and what holds of every such shape.

use vstd::prelude::*;

verus! {

/// A partition tree: current leaves, and below each retired leaf the two that replaced it, told
/// apart by one bit of the routing key.
pub enum TreeView {
    Leaf { id: Seq<char> },
    Split { parent: Seq<char>, bit: u32, left: Box<TreeView>, right: Box<TreeView> },
}

/// The bit of a byte string at a position, counted from the highest bit of the first byte; beyond
/// the end every bit is clear.
pub open spec fn bit_of(bytes: Seq<u8>, bit: u32) -> bool {
    (bit / 8) < bytes.len() && (bytes[(bit / 8) as int] & (1u8 << ((7 - bit % 8) as u32))) != 0
}

/// The leaf that a key belongs to.
pub open spec fn route(tree: TreeView, key: Seq<u8>) -> Seq<char>
    decreases tree,
{
    match tree {
        TreeView::Leaf { id } => id,
        TreeView::Split { parent, bit, left, right } => if bit_of(key, bit) {
            route(*right, key)
        } else {
            route(*left, key)
        },
    }
}

/// The current leaves, from left to right.
pub open spec fn leaves(tree: TreeView) -> Seq<Seq<char>>
    decreases tree,
{
    match tree {
        TreeView::Leaf { id } => seq![id],
        TreeView::Split { parent, bit, left, right } => leaves(*left) + leaves(*right),
    }
}

/// The leaves that can hold a key that begins with `prefix`, as far as the splits above them read
/// bits of the prefix only.
pub open spec fn candidates(tree: TreeView, prefix: Seq<u8>) -> Seq<Seq<char>>
    decreases tree,
{
    match tree {
        TreeView::Leaf { id } => seq![id],
        TreeView::Split { parent, bit, left, right } => if bit / 8 < prefix.len() {
            if bit_of(prefix, bit) {
                candidates(*right, prefix)
            } else {
                candidates(*left, prefix)
            }
        } else {
            leaves(*left) + leaves(*right)
        },
    }
}

/// Whether a leaf has been split.
pub open spec fn retired(tree: TreeView, id: Seq<char>) -> bool
    decreases tree,
{
    match tree {
        TreeView::Leaf { .. } => false,
        TreeView::Split { parent, bit, left, right } => parent == id || retired(*left, id)
            || retired(*right, id),
    }
}

/// The tree in which the leaf `parent` is replaced by two children.
pub open spec fn split_leaf(
    tree: TreeView,
    parent: Seq<char>,
    left_child: Seq<char>,
    right_child: Seq<char>,
    at: u32,
) -> TreeView
    decreases tree,
{
    match tree {
        TreeView::Leaf { id } => if id == parent {
            TreeView::Split {
                parent,
                bit: at,
                left: Box::new(TreeView::Leaf { id: left_child }),
                right: Box::new(TreeView::Leaf { id: right_child }),
            }
        } else {
            tree
        },
        TreeView::Split { parent: own, bit, left, right } => if leaves(*left).contains(parent) {
            TreeView::Split {
                parent: own,
                bit,
                left: Box::new(split_leaf(*left, parent, left_child, right_child, at)),
                right,
            }
        } else {
            TreeView::Split {
                parent: own,
                bit,
                left,
                right: Box::new(split_leaf(*right, parent, left_child, right_child, at)),
            }
        },
    }
}

/// No leaf occurs twice.
pub open spec fn unique_leaves(tree: TreeView) -> bool {
    leaves(tree).no_duplicates()
}

/// A joined sequence holds what its parts hold.
pub proof fn concat_contains<A>(a: Seq<A>, b: Seq<A>, x: A)
    ensures
        (a + b).contains(x) <==> a.contains(x) || b.contains(x),
{
    if a.contains(x) {
        let i = choose|i: int| 0 <= i < a.len() && a[i] == x;
        assert((a + b)[i] == x);
    }
    if b.contains(x) {
        let i = choose|i: int| 0 <= i < b.len() && b[i] == x;
        assert((a + b)[a.len() + i] == x);
    }
}

/// A joined sequence is free of repetition where its parts are and share nothing.
pub proof fn concat_no_duplicates<A>(a: Seq<A>, b: Seq<A>)
    ensures
        (a + b).no_duplicates() <==> a.no_duplicates() && b.no_duplicates() && (forall|x: A|
            !(#[trigger] a.contains(x) && b.contains(x))),
{
    let c = a + b;
    if c.no_duplicates() {
        assert forall|i: int, j: int| 0 <= i < a.len() && 0 <= j < a.len() && i != j implies a[i]
            != a[j] by {
            assert(c[i] == a[i] && c[j] == a[j]);
        }
        assert forall|i: int, j: int| 0 <= i < b.len() && 0 <= j < b.len() && i != j implies b[i]
            != b[j] by {
            assert(c[a.len() + i] == b[i] && c[a.len() + j] == b[j]);
        }
        assert forall|x: A| !(#[trigger] a.contains(x) && b.contains(x)) by {
            if a.contains(x) && b.contains(x) {
                let i = choose|i: int| 0 <= i < a.len() && a[i] == x;
                let j = choose|j: int| 0 <= j < b.len() && b[j] == x;
                assert(c[i] == x && c[a.len() + j] == x);
            }
        }
    }
    if a.no_duplicates() && b.no_duplicates() && (forall|x: A|
        !(#[trigger] a.contains(x) && b.contains(x))) {
        assert forall|i: int, j: int| 0 <= i < c.len() && 0 <= j < c.len() && i != j implies c[i]
            != c[j] by {
            if i < a.len() {
                assert(a.contains(c[i]));
            }
            if j < a.len() {
                assert(a.contains(c[j]));
            }
        }
    }
}

/// Every key is routed to a current leaf.
pub proof fn route_is_a_leaf(tree: TreeView, key: Seq<u8>)
    ensures
        leaves(tree).contains(route(tree, key)),
    decreases tree,
{
    match tree {
        TreeView::Leaf { id } => {
            assert(leaves(tree)[0] == id);
        },
        TreeView::Split { parent, bit, left, right } => {
            route_is_a_leaf(*left, key);
            route_is_a_leaf(*right, key);
            concat_contains(leaves(*left), leaves(*right), route(tree, key));
        },
    }
}

/// Candidate leaves are current leaves.
pub proof fn candidates_are_leaves(tree: TreeView, prefix: Seq<u8>, id: Seq<char>)
    requires
        candidates(tree, prefix).contains(id),
    ensures
        leaves(tree).contains(id),
    decreases tree,
{
    match tree {
        TreeView::Leaf { .. } => {},
        TreeView::Split { parent, bit, left, right } => {
            concat_contains(leaves(*left), leaves(*right), id);
            if bit / 8 < prefix.len() {
                if bit_of(prefix, bit) {
                    candidates_are_leaves(*right, prefix, id);
                } else {
                    candidates_are_leaves(*left, prefix, id);
                }
            }
        },
    }
}

/// The leaf of a key is among the candidates for each byte prefix of the key.
pub proof fn candidates_cover_routes(tree: TreeView, prefix: Seq<u8>, key: Seq<u8>)
    requires
        prefix.is_prefix_of(key),
    ensures
        candidates(tree, prefix).contains(route(tree, key)),
    decreases tree,
{
    match tree {
        TreeView::Leaf { id } => {
            assert(candidates(tree, prefix)[0] == id);
        },
        TreeView::Split { parent, bit, left, right } => {
            if bit / 8 < prefix.len() {
                assert(prefix[(bit / 8) as int] == key[(bit / 8) as int]);
                candidates_cover_routes(*left, prefix, key);
                candidates_cover_routes(*right, prefix, key);
            } else {
                route_is_a_leaf(tree, key);
            }
        },
    }
}

/// The leaves after a split: the parent is gone, its two children have come, nothing else changed.
pub proof fn split_replaces_one_leaf(
    tree: TreeView,
    parent: Seq<char>,
    left_child: Seq<char>,
    right_child: Seq<char>,
    at: u32,
    id: Seq<char>,
)
    requires
        unique_leaves(tree),
        leaves(tree).contains(parent),
    ensures
        leaves(split_leaf(tree, parent, left_child, right_child, at)).contains(id) <==> id
            == left_child || id == right_child || (leaves(tree).contains(id) && id != parent),
    decreases tree,
{
    let after = split_leaf(tree, parent, left_child, right_child, at);
    match tree {
        TreeView::Leaf { id: own } => {
            assert(own == parent);
            let l = TreeView::Leaf { id: left_child };
            let r = TreeView::Leaf { id: right_child };
            assert(leaves(l) =~= seq![left_child]);
            assert(leaves(r) =~= seq![right_child]);
            assert(leaves(after) =~= seq![left_child] + seq![right_child]);
            assert(leaves(after)[0] == left_child && leaves(after)[1] == right_child);
            assert(leaves(tree) =~= seq![own]);
        },
        TreeView::Split { parent: own, bit, left, right } => {
            concat_no_duplicates(leaves(*left), leaves(*right));
            concat_contains(leaves(*left), leaves(*right), id);
            concat_contains(leaves(*left), leaves(*right), parent);
            if leaves(*left).contains(parent) {
                split_replaces_one_leaf(*left, parent, left_child, right_child, at, id);
                let l = split_leaf(*left, parent, left_child, right_child, at);
                concat_contains(leaves(l), leaves(*right), id);
            } else {
                split_replaces_one_leaf(*right, parent, left_child, right_child, at, id);
                let r = split_leaf(*right, parent, left_child, right_child, at);
                concat_contains(leaves(*left), leaves(r), id);
            }
        },
    }
}

/// A split into two fresh children keeps the leaves distinct.
pub proof fn split_keeps_leaves_unique(
    tree: TreeView,
    parent: Seq<char>,
    left_child: Seq<char>,
    right_child: Seq<char>,
    at: u32,
)
    requires
        unique_leaves(tree),
        leaves(tree).contains(parent),
        !leaves(tree).contains(left_child),
        !leaves(tree).contains(right_child),
        left_child != right_child,
    ensures
        unique_leaves(split_leaf(tree, parent, left_child, right_child, at)),
    decreases tree,
{
    let after = split_leaf(tree, parent, left_child, right_child, at);
    match tree {
        TreeView::Leaf { .. } => {
            let l = TreeView::Leaf { id: left_child };
            let r = TreeView::Leaf { id: right_child };
            assert(leaves(l) =~= seq![left_child]);
            assert(leaves(r) =~= seq![right_child]);
            assert(leaves(after) =~= seq![left_child, right_child]);
        },
        TreeView::Split { parent: own, bit, left, right } => {
            concat_no_duplicates(leaves(*left), leaves(*right));
            concat_contains(leaves(*left), leaves(*right), parent);
            concat_contains(leaves(*left), leaves(*right), left_child);
            concat_contains(leaves(*left), leaves(*right), right_child);
            if leaves(*left).contains(parent) {
                split_keeps_leaves_unique(*left, parent, left_child, right_child, at);
                let l = split_leaf(*left, parent, left_child, right_child, at);
                concat_no_duplicates(leaves(l), leaves(*right));
                assert forall|x: Seq<char>|
                    !(#[trigger] leaves(l).contains(x) && leaves(*right).contains(x)) by {
                    split_replaces_one_leaf(*left, parent, left_child, right_child, at, x);
                    assert(!(leaves(*left).contains(x) && leaves(*right).contains(x)));
                }
            } else {
                split_keeps_leaves_unique(*right, parent, left_child, right_child, at);
                let r = split_leaf(*right, parent, left_child, right_child, at);
                concat_no_duplicates(leaves(*left), leaves(r));
                assert forall|x: Seq<char>|
                    !(#[trigger] leaves(*left).contains(x) && leaves(r).contains(x)) by {
                    split_replaces_one_leaf(*right, parent, left_child, right_child, at, x);
                    assert(!(leaves(*left).contains(x) && leaves(*right).contains(x)));
                }
            }
        },
    }
}

/// A split moves the keys of its parent, each to the child that its bit names, and no other key.
pub proof fn split_moves_only_the_parents_keys(
    tree: TreeView,
    parent: Seq<char>,
    left_child: Seq<char>,
    right_child: Seq<char>,
    at: u32,
    key: Seq<u8>,
)
    requires
        unique_leaves(tree),
        leaves(tree).contains(parent),
    ensures
        route(split_leaf(tree, parent, left_child, right_child, at), key) == (if route(tree, key)
            == parent {
            if bit_of(key, at) {
                right_child
            } else {
                left_child
            }
        } else {
            route(tree, key)
        }),
    decreases tree,
{
    let after = split_leaf(tree, parent, left_child, right_child, at);
    match tree {
        TreeView::Leaf { id } => {
            assert(leaves(tree) =~= seq![id]);
            assert(id == parent);
            let l = TreeView::Leaf { id: left_child };
            let r = TreeView::Leaf { id: right_child };
            assert(route(l, key) == left_child);
            assert(route(r, key) == right_child);
        },
        TreeView::Split { parent: own, bit, left, right } => {
            concat_no_duplicates(leaves(*left), leaves(*right));
            concat_contains(leaves(*left), leaves(*right), parent);
            route_is_a_leaf(*left, key);
            route_is_a_leaf(*right, key);
            if leaves(*left).contains(parent) {
                split_moves_only_the_parents_keys(*left, parent, left_child, right_child, at, key);
            } else {
                split_moves_only_the_parents_keys(*right, parent, left_child, right_child, at, key);
            }
        },
    }
}

/// A split retires its parent and leaves every other retired leaf retired.
pub proof fn split_retires_the_parent(
    tree: TreeView,
    parent: Seq<char>,
    left_child: Seq<char>,
    right_child: Seq<char>,
    at: u32,
    id: Seq<char>,
)
    requires
        leaves(tree).contains(parent),
    ensures
        retired(split_leaf(tree, parent, left_child, right_child, at), id) <==> retired(tree, id)
            || id == parent,
    decreases tree,
{
    match tree {
        TreeView::Leaf { id: own } => {
            assert(leaves(tree) =~= seq![own]);
            let l = TreeView::Leaf { id: left_child };
            let r = TreeView::Leaf { id: right_child };
            assert(!retired(l, id));
            assert(!retired(r, id));
        },
        TreeView::Split { parent: own, bit, left, right } => {
            concat_contains(leaves(*left), leaves(*right), parent);
            if leaves(*left).contains(parent) {
                split_retires_the_parent(*left, parent, left_child, right_child, at, id);
            } else {
                split_retires_the_parent(*right, parent, left_child, right_child, at, id);
            }
        },
    }
}

} // verus!
