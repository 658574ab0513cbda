//! What holds of every hierarchy that the builder makes and of every
//! flattened array: proved once, for all inputs.

use vstd::prelude::*;
use crate::geometry::Aabb3;
use crate::scene::TriangleInfo;
use crate::scene::bvh::{
    bounds_of, flatten_spec, lemma_bounds_concat, lemma_bounds_contains, lemma_flatten_len,
    lemma_range_in_list, walk_leaves, BvhNode, BvhTree, MAX_LEAF_TRIANGLES,
};

verus! {

/// Whether `ranges`, each a `(start, count)`, lie end to end from `from` to
/// `to`.
pub open spec fn tiles(ranges: Seq<(u32, u32)>, from: int, to: int) -> bool
    decreases ranges.len(),
{
    if ranges.len() == 0 {
        from == to
    } else {
        ranges[0].0 == from && tiles(ranges.drop_first(), from + ranges[0].1, to)
    }
}

/// Whether the triangle at index `k` belongs to the range `(start, count)`.
pub open spec fn in_range(range: (u32, u32), k: int) -> bool {
    range.0 <= k < range.0 + range.1
}

proof fn lemma_tiles_concat(a: Seq<(u32, u32)>, b: Seq<(u32, u32)>, from: int, mid: int, to: int)
    requires
        tiles(a, from, mid),
        tiles(b, mid, to),
    ensures
        tiles(a + b, from, to),
    decreases a.len(),
{
    if a.len() == 0 {
        assert(a + b =~= b);
    } else {
        lemma_tiles_concat(a.drop_first(), b, from + a[0].1, mid, to);
        assert((a + b).drop_first() =~= a.drop_first() + b);
    }
}

/// The leaves of a well-formed tree lie end to end over the range that the
/// tree covers: no triangle of it is left out and none is named twice.
pub proof fn lemma_leaves_tile(tree: BvhTree, infos: Seq<TriangleInfo>)
    requires
        tree.well_formed(infos),
    ensures
        tiles(tree.leaves(), tree.first(), tree.end()),
    decreases tree,
{
    match tree {
        BvhTree::Leaf { start, count, .. } => {
            let rest = tree.leaves().drop_first();
            assert(rest.len() == 0);
            assert(tiles(rest, start + count, start + count));
        },
        BvhTree::Internal { left, right, .. } => {
            lemma_leaves_tile(*left, infos);
            lemma_leaves_tile(*right, infos);
            lemma_tiles_concat(left.leaves(), right.leaves(), left.first(), left.end(), right.end());
        },
    }
}

/// Ranges that lie end to end hold every index between their ends in
/// exactly one of them. The result is the position of that range.
pub proof fn lemma_tiles_cover_once(ranges: Seq<(u32, u32)>, from: int, to: int, k: int) -> (i: int)
    requires
        tiles(ranges, from, to),
        from <= k < to,
    ensures
        0 <= i < ranges.len(),
        in_range(ranges[i], k),
        forall|j: int| 0 <= j < ranges.len() && j != i ==> !in_range(#[trigger] ranges[j], k),
    decreases ranges.len(),
{
    lemma_tiles_bounds(ranges, from, to);
    let rest = ranges.drop_first();
    if k < from + ranges[0].1 {
        assert forall|j: int| 0 <= j < ranges.len() && j != 0 implies !in_range(
            #[trigger] ranges[j],
            k,
        ) by {
            lemma_tiles_starts(rest, from + ranges[0].1, to, j - 1);
            assert(rest[j - 1] == ranges[j]);
        }
        0
    } else {
        let i = lemma_tiles_cover_once(rest, from + ranges[0].1, to, k);
        assert forall|j: int| 0 <= j < ranges.len() && j != i + 1 implies !in_range(
            #[trigger] ranges[j],
            k,
        ) by {
            if j > 0 {
                assert(rest[j - 1] == ranges[j]);
            }
        }
        assert(rest[i] == ranges[i + 1]);
        i + 1
    }
}

proof fn lemma_tiles_bounds(ranges: Seq<(u32, u32)>, from: int, to: int)
    requires
        tiles(ranges, from, to),
    ensures
        from <= to,
        from < to ==> ranges.len() > 0,
    decreases ranges.len(),
{
    if ranges.len() > 0 {
        lemma_tiles_bounds(ranges.drop_first(), from + ranges[0].1, to);
    }
}

proof fn lemma_tiles_starts(ranges: Seq<(u32, u32)>, from: int, to: int, j: int)
    requires
        tiles(ranges, from, to),
        0 <= j < ranges.len(),
    ensures
        from <= ranges[j].0,
    decreases ranges.len(),
{
    if j > 0 {
        lemma_tiles_starts(ranges.drop_first(), from + ranges[0].1, to, j - 1);
        assert(ranges.drop_first()[j - 1] == ranges[j]);
    }
}

/// Every node of a well-formed tree carries exactly the box around the
/// triangles it covers.
pub proof fn lemma_bounds_exact(tree: BvhTree, infos: Seq<TriangleInfo>)
    requires
        tree.well_formed(infos),
    ensures
        tree.bounds_spec() == bounds_of(infos.subrange(tree.first(), tree.end())),
    decreases tree,
{
    match tree {
        BvhTree::Leaf { .. } => {},
        BvhTree::Internal { left, right, .. } => {
            lemma_bounds_exact(*left, infos);
            lemma_bounds_exact(*right, infos);
            lemma_range_in_list(*left, infos);
            lemma_range_in_list(*right, infos);
            let l = infos.subrange(left.first(), left.end());
            let r = infos.subrange(right.first(), right.end());
            lemma_bounds_concat(l, r);
            assert(l + r =~= infos.subrange(left.first(), right.end()));
        },
    }
}

/// The box of a well-formed tree holds the box of every triangle that the
/// tree covers.
pub proof fn lemma_bounds_hold_triangles(tree: BvhTree, infos: Seq<TriangleInfo>, k: int)
    requires
        tree.well_formed(infos),
        tree.first() <= k < tree.end(),
    ensures
        tree.bounds_spec().contains_box(infos[k].aabb),
{
    lemma_bounds_exact(tree, infos);
    lemma_range_in_list(tree, infos);
    lemma_bounds_contains(infos.subrange(tree.first(), tree.end()), k - tree.first());
}

/// The subtree reached from the root by `path`, where `false` goes left and
/// `true` goes right; `None` where the path leaves the tree.
pub open spec fn descend(tree: BvhTree, path: Seq<bool>) -> Option<BvhTree>
    decreases path.len(),
{
    if path.len() == 0 {
        Some(tree)
    } else {
        match tree {
            BvhTree::Leaf { .. } => None,
            BvhTree::Internal { left, right, .. } => {
                if path[0] {
                    descend(*right, path.drop_first())
                } else {
                    descend(*left, path.drop_first())
                }
            },
        }
    }
}

/// Along every path down a well-formed tree the boxes are nested: the box
/// of each node holds the box of each node below it, down to the leaves.
/// The node below is well formed again and covers part of what the node
/// above covers.
pub proof fn lemma_descendant_contained(tree: BvhTree, infos: Seq<TriangleInfo>, path: Seq<bool>)
    requires
        tree.well_formed(infos),
        descend(tree, path) is Some,
    ensures
        tree.bounds_spec().contains_box(descend(tree, path)->0.bounds_spec()),
        descend(tree, path)->0.well_formed(infos),
        tree.first() <= descend(tree, path)->0.first(),
        descend(tree, path)->0.end() <= tree.end(),
    decreases path.len(),
{
    lemma_range_in_list(tree, infos);
    if path.len() > 0 {
        match tree {
            BvhTree::Leaf { .. } => {},
            BvhTree::Internal { left, right, .. } => {
                lemma_range_in_list(*left, infos);
                lemma_range_in_list(*right, infos);
                if path[0] {
                    lemma_descendant_contained(*right, infos, path.drop_first());
                } else {
                    lemma_descendant_contained(*left, infos, path.drop_first());
                }
            },
        }
    }
}

/// A list short enough for one leaf gives exactly that leaf: it names the
/// whole list and carries the box around it. For a single triangle that box
/// is the triangle's own, for no triangle the empty box.
pub proof fn lemma_short_list_is_one_leaf(tree: BvhTree, infos: Seq<TriangleInfo>)
    requires
        tree.well_formed(infos),
        tree.first() == 0,
        tree.end() == infos.len(),
        infos.len() <= MAX_LEAF_TRIANGLES,
    ensures
        tree == (BvhTree::Leaf { aabb: bounds_of(infos), start: 0, count: infos.len() as u32 }),
        infos.len() == 1 ==> tree.bounds_spec() == infos[0].aabb,
        infos.len() == 0 ==> tree.bounds_spec() == Aabb3::empty_spec(),
{
    assert(infos.subrange(0, infos.len() as int) =~= infos);
    if infos.len() == 1 {
        assert(infos.drop_last().len() == 0);
        assert(bounds_of(infos) == bounds_of(infos.drop_last()).union_spec(infos.last().aabb));
    }
}

/// Over a single triangle the builder has nothing to reorder and makes one
/// leaf, which names that triangle and carries its box.
pub proof fn lemma_single_triangle(
    before: Seq<TriangleInfo>,
    after: Seq<TriangleInfo>,
    tree: BvhTree,
)
    requires
        before.len() == 1,
        after.to_multiset() == before.to_multiset(),
        tree.well_formed(after),
        tree.first() == 0,
        tree.end() == after.len(),
    ensures
        after == before,
        tree == (BvhTree::Leaf { aabb: before[0].aabb, start: 0, count: 1 }),
{
    assert(after.len() == 1) by {
        vstd::seq_lib::to_multiset_len(after);
        vstd::seq_lib::to_multiset_len(before);
    }
    assert(after.contains(after[0]));
    assert(before.contains(after[0])) by {
        vstd::seq_lib::to_multiset_contains(after, after[0]);
        vstd::seq_lib::to_multiset_contains(before, after[0]);
    }
    assert(after =~= before);
    lemma_short_list_is_one_leaf(tree, after);
}

/// In a flattened tree every internal node names two different slots of
/// the array, both after its own.
pub proof fn lemma_flatten_children(tree: BvhTree, base: int, i: int)
    requires
        0 <= base,
        base + tree.node_count() <= u32::MAX,
        0 <= i < tree.node_count(),
    ensures
        flatten_spec(tree, base).len() == tree.node_count(),
        flatten_spec(tree, base)[i] matches BvhNode::Internal { left, right, .. } ==> base + i
            < left < right < base + tree.node_count(),
    decreases tree,
{
    lemma_flatten_len(tree, base);
    match tree {
        BvhTree::Leaf { .. } => {},
        BvhTree::Internal { left, right, .. } => {
            let nl = left.node_count() as int;
            lemma_flatten_len(*left, base + 1);
            lemma_flatten_len(*right, base + 1 + nl);
            if i == 0 {
            } else if i <= nl {
                lemma_flatten_children(*left, base + 1, i - 1);
                assert(flatten_spec(tree, base)[i] == flatten_spec(*left, base + 1)[i - 1]);
            } else {
                lemma_flatten_children(*right, base + 1 + nl, i - 1 - nl);
                assert(flatten_spec(tree, base)[i] == flatten_spec(*right, base + 1 + nl)[i - 1
                    - nl]);
            }
        },
    }
}

/// Whether the node `child` is named as a child by the node `parent`.
pub open spec fn is_child(nodes: Seq<BvhNode>, parent: int, child: int) -> bool {
    &&& 0 <= parent < nodes.len()
    &&& nodes[parent] matches BvhNode::Internal { left, right, .. }
    &&& (child == left || child == right)
}

/// Whether each node of `chain` after the first is a child of the one
/// before it.
pub open spec fn is_descent(nodes: Seq<BvhNode>, chain: Seq<int>) -> bool {
    forall|k: int| 0 <= k < chain.len() - 1 ==> is_child(nodes, #[trigger] chain[k], chain[k + 1])
}

/// Following child ids through a flattened tree never comes back: the
/// node at the end of a descent of one step or more lies after the node it
/// started from, and inside the array. No node is its own ancestor.
pub proof fn lemma_flatten_acyclic(tree: BvhTree, chain: Seq<int>)
    requires
        tree.node_count() <= u32::MAX,
        chain.len() >= 2,
        is_descent(flatten_spec(tree, 0), chain),
    ensures
        chain.first() < chain.last() < tree.node_count(),
    decreases chain.len(),
{
    let nodes = flatten_spec(tree, 0);
    lemma_flatten_len(tree, 0);
    let n = chain.len() as int;
    assert(is_child(nodes, chain[n - 2], chain[n - 1]));
    lemma_flatten_children(tree, 0, chain[n - 2]);
    if chain.len() > 2 {
        let shorter = chain.drop_last();
        assert forall|k: int| 0 <= k < shorter.len() - 1 implies is_child(
            nodes,
            #[trigger] shorter[k],
            shorter[k + 1],
        ) by {
            assert(is_child(nodes, chain[k], chain[k + 1]));
        }
        lemma_flatten_acyclic(tree, shorter);
    }
}

proof fn lemma_walk_embedded(tree: BvhTree, base: int, nodes: Seq<BvhNode>)
    requires
        0 <= base,
        base + tree.node_count() <= nodes.len() <= u32::MAX,
        nodes.subrange(base, base + tree.node_count()) == flatten_spec(tree, base),
    ensures
        walk_leaves(nodes, base) == tree.leaves(),
    decreases tree,
{
    let flat = flatten_spec(tree, base);
    lemma_flatten_len(tree, base);
    assert(nodes[base] == nodes.subrange(base, base + tree.node_count())[0]);
    match tree {
        BvhTree::Leaf { .. } => {},
        BvhTree::Internal { left, right, .. } => {
            let nl = left.node_count() as int;
            let nr = right.node_count() as int;
            lemma_flatten_len(*left, base + 1);
            lemma_flatten_len(*right, base + 1 + nl);
            let whole = nodes.subrange(base, base + tree.node_count());
            let lf = flatten_spec(*left, base + 1);
            let rf = flatten_spec(*right, base + 1 + nl);
            assert(nodes.subrange(base + 1, base + 1 + nl) =~= lf) by {
                assert forall|k: int| 0 <= k < nl implies nodes[base + 1 + k] == #[trigger] lf[k] by {
                    assert(nodes[base + 1 + k] == whole[1 + k]);
                }
            }
            assert(nodes.subrange(base + 1 + nl, base + 1 + nl + nr) =~= rf) by {
                assert forall|k: int| 0 <= k < nr implies nodes[base + 1 + nl + k]
                    == #[trigger] rf[k] by {
                    assert(nodes[base + 1 + nl + k] == whole[1 + nl + k]);
                }
            }
            lemma_walk_embedded(*left, base + 1, nodes);
            lemma_walk_embedded(*right, base + 1 + nl, nodes);
        },
    }
}

/// Walking a flattened tree from its root by child ids meets the same leaf
/// ranges, in the same order, as walking the tree itself.
pub proof fn lemma_flatten_round_trip(tree: BvhTree)
    requires
        tree.node_count() <= u32::MAX,
    ensures
        walk_leaves(flatten_spec(tree, 0), 0) == tree.leaves(),
{
    let nodes = flatten_spec(tree, 0);
    lemma_flatten_len(tree, 0);
    assert(nodes.subrange(0, tree.node_count() as int) =~= nodes);
    lemma_walk_embedded(tree, 0, nodes);
}

} // verus!
