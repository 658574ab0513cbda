//! Bounding volume hierarchy: top-down construction over a triangle list and
//! the pointer-free layout that the device traverses.

use vstd::prelude::*;
use vstd::seq_lib::*;
use crate::geometry::{Aabb3, Axis};
use crate::scene::TriangleInfo;

verus! {

/// A range of at most this many triangles becomes a leaf.
pub const MAX_LEAF_TRIANGLES: usize = 4;

/// The largest triangle list a hierarchy is built over: every node of the
/// tree must have an id that fits 32 bits.
pub const MAX_TRIANGLES: usize = 0x7fff_ffff;

/// One step of folding triangles into the box around their boxes.
pub open spec fn union_step() -> spec_fn(Aabb3, TriangleInfo) -> Aabb3 {
    |acc: Aabb3, t: TriangleInfo| acc.union_spec(t.aabb)
}

/// One step of folding triangles into the box around their centroids.
pub open spec fn centroid_step() -> spec_fn(Aabb3, TriangleInfo) -> Aabb3 {
    |acc: Aabb3, t: TriangleInfo| acc.grow_spec(t.centroid)
}

/// The smallest box around the boxes of all triangles of `s`.
pub open spec fn bounds_of(s: Seq<TriangleInfo>) -> Aabb3 {
    s.fold_left(Aabb3::empty_spec(), union_step())
}

/// The smallest box around the centroids of all triangles of `s`.
pub open spec fn centroid_bounds_of(s: Seq<TriangleInfo>) -> Aabb3 {
    s.fold_left(Aabb3::empty_spec(), centroid_step())
}

/// Whether the centroid of `t` lies strictly below the plane at
/// `twice_pivot / 2` across `axis`.
pub open spec fn is_below(t: TriangleInfo, axis: Axis, twice_pivot: int) -> bool {
    2 * t.centroid.coord(axis) < twice_pivot
}

/// The axis across which a range is split: the longest side of the box
/// around its centroids.
pub open spec fn split_axis(s: Seq<TriangleInfo>) -> Axis {
    centroid_bounds_of(s).longest_axis_spec()
}

/// Twice the coordinate of the splitting plane: the middle of the centroid
/// box along the split axis, kept doubled so that nothing is rounded.
pub open spec fn split_twice_pivot(s: Seq<TriangleInfo>) -> int {
    let cb = centroid_bounds_of(s);
    cb.min.coord(split_axis(s)) + cb.max.coord(split_axis(s))
}

/// Whether the splitting plane of `s` has triangles of `s` on both sides.
pub open spec fn plane_separates(s: Seq<TriangleInfo>) -> bool {
    let axis = split_axis(s);
    let twice_pivot = split_twice_pivot(s);
    &&& exists|i: int| 0 <= i < s.len() && is_below(#[trigger] s[i], axis, twice_pivot)
    &&& exists|j: int| 0 <= j < s.len() && !is_below(#[trigger] s[j], axis, twice_pivot)
}

/// The rule by which a range, laid out as `left` followed by `right`, is
/// divided. Where the splitting plane has triangles on both sides, `left`
/// holds exactly those below it. Otherwise the range is cut at its middle
/// index.
pub open spec fn split_rule(left: Seq<TriangleInfo>, right: Seq<TriangleInfo>) -> bool {
    let all = left + right;
    let axis = split_axis(all);
    let twice_pivot = split_twice_pivot(all);
    if plane_separates(all) {
        &&& forall|i: int| 0 <= i < left.len() ==> is_below(#[trigger] left[i], axis, twice_pivot)
        &&& forall|j: int|
            0 <= j < right.len() ==> !is_below(#[trigger] right[j], axis, twice_pivot)
    } else {
        left.len() == all.len() / 2
    }
}

/// Both boxes grow by one triangle as the fold says.
pub proof fn lemma_bounds_push(s: Seq<TriangleInfo>, t: TriangleInfo)
    ensures
        bounds_of(s.push(t)) == bounds_of(s).union_spec(t.aabb),
        centroid_bounds_of(s.push(t)) == centroid_bounds_of(s).grow_spec(t.centroid),
{
    assert(s.push(t).drop_last() =~= s);
}

/// Neither box depends on the order of the triangles.
pub proof fn lemma_bounds_permutation(a: Seq<TriangleInfo>, b: Seq<TriangleInfo>)
    requires
        a.to_multiset() == b.to_multiset(),
    ensures
        bounds_of(a) == bounds_of(b),
        centroid_bounds_of(a) == centroid_bounds_of(b),
{
    assert(commutative_foldl(union_step()));
    assert(commutative_foldl(centroid_step()));
    lemma_fold_left_permutation(a, b, union_step(), Aabb3::empty_spec());
    lemma_fold_left_permutation(a, b, centroid_step(), Aabb3::empty_spec());
}

proof fn lemma_fold_union_from(s: Seq<TriangleInfo>, acc: Aabb3)
    ensures
        s.fold_left(acc, union_step()) == acc.union_spec(bounds_of(s)),
    decreases s.len(),
{
    if s.len() > 0 {
        lemma_fold_union_from(s.drop_last(), acc);
    }
}

/// The box around a concatenation is the union of the boxes around its
/// parts.
pub proof fn lemma_bounds_concat(a: Seq<TriangleInfo>, b: Seq<TriangleInfo>)
    ensures
        bounds_of(a + b) == bounds_of(a).union_spec(bounds_of(b)),
{
    (a + b).lemma_fold_left_split(Aabb3::empty_spec(), union_step(), a.len() as int);
    assert((a + b).subrange(0, a.len() as int) =~= a);
    assert((a + b).subrange(a.len() as int, (a + b).len() as int) =~= b);
    lemma_fold_union_from(b, bounds_of(a));
}

/// The box around a range holds the box of each of its triangles.
pub proof fn lemma_bounds_contains(s: Seq<TriangleInfo>, i: int)
    requires
        0 <= i < s.len(),
    ensures
        bounds_of(s).contains_box(s[i].aabb),
        centroid_bounds_of(s).contains_point(s[i].centroid),
    decreases s.len(),
{
    if i < s.len() - 1 {
        lemma_bounds_contains(s.drop_last(), i);
    }
}

/// The box around a range is the smallest that holds the box of each of
/// its triangles: every box that holds them all holds it too.
pub proof fn lemma_bounds_least(s: Seq<TriangleInfo>, outer: Aabb3)
    requires
        forall|i: int| 0 <= i < s.len() ==> outer.contains_box(#[trigger] s[i].aabb),
    ensures
        outer.contains_box(bounds_of(s)),
    decreases s.len(),
{
    if s.len() > 0 {
        assert forall|i: int| 0 <= i < s.drop_last().len() implies outer.contains_box(
            #[trigger] s.drop_last()[i].aabb,
        ) by {
            assert(s.drop_last()[i] == s[i]);
        }
        lemma_bounds_least(s.drop_last(), outer);
        assert(outer.contains_box(s[s.len() - 1].aabb));
    }
}

/// Every element of a sequence occurs in each of its permutations.
proof fn lemma_permutation_member(a: Seq<TriangleInfo>, b: Seq<TriangleInfo>, i: int) -> (j: int)
    requires
        a.to_multiset() == b.to_multiset(),
        0 <= i < a.len(),
    ensures
        0 <= j < b.len(),
        b[j] == a[i],
{
    broadcast use group_to_multiset_ensures;

    assert(a.contains(a[i]));
    assert(b.to_multiset().count(a[i]) > 0);
    assert(b.contains(a[i]));
    b.index_of(a[i])
}

/// A range that is cut in two has the triangles of both parts.
proof fn lemma_subrange_split(s: Seq<TriangleInfo>, start: int, mid: int, end: int)
    requires
        0 <= start <= mid <= end <= s.len(),
    ensures
        s.subrange(start, end) == s.subrange(start, mid) + s.subrange(mid, end),
        s.subrange(start, end).to_multiset() == s.subrange(start, mid).to_multiset().add(
            s.subrange(mid, end).to_multiset(),
        ),
{
    assert(s.subrange(start, end) =~= s.subrange(start, mid) + s.subrange(mid, end));
    lemma_multiset_commutative(s.subrange(start, mid), s.subrange(mid, end));
}

/// Exchanging two triangles of a range keeps the triangles of the range.
proof fn lemma_swap_keeps_multiset(s: Seq<TriangleInfo>, start: int, end: int, i: int, j: int)
    requires
        0 <= start <= i < end <= s.len(),
        start <= j < end,
    ensures
        s.update(i, s[j]).update(j, s[i]).subrange(start, end).to_multiset() == s.subrange(
            start,
            end,
        ).to_multiset(),
{
    broadcast use vstd::multiset::group_multiset_axioms;

    let sub = s.subrange(start, end);
    let once = sub.update(i - start, s[j]);
    let twice = once.update(j - start, s[i]);
    assert(s.update(i, s[j]).update(j, s[i]).subrange(start, end) =~= twice);
    to_multiset_update(sub, i - start, s[j]);
    to_multiset_update(once, j - start, s[i]);
    assert(sub[i - start] == s[i]);
    assert(once[j - start] == s[j]);
    assert(sub.to_multiset().count(s[i]) > 0) by {
        to_multiset_contains(sub, s[i]);
        assert(sub.contains(sub[i - start]));
    }
    assert(twice.to_multiset() =~= sub.to_multiset());
}

/// The box around the triangles of `infos[start..end]`.
fn range_bounds(infos: &Vec<TriangleInfo>, start: usize, end: usize) -> (aabb: Aabb3)
    requires
        start <= end <= infos.len(),
    ensures
        aabb == bounds_of(infos@.subrange(start as int, end as int)),
{
    let mut aabb = Aabb3::empty();
    let mut i: usize = start;
    while i < end
        invariant
            start <= i <= end <= infos.len(),
            aabb == bounds_of(infos@.subrange(start as int, i as int)),
        decreases end - i,
    {
        proof {
            lemma_bounds_push(infos@.subrange(start as int, i as int), infos@[i as int]);
            assert(infos@.subrange(start as int, i as int).push(infos@[i as int])
                =~= infos@.subrange(start as int, i + 1));
        }
        aabb = aabb.union(&infos[i].aabb);
        i += 1;
    }
    aabb
}

/// The box around the centroids of `infos[start..end]`.
fn range_centroid_bounds(infos: &Vec<TriangleInfo>, start: usize, end: usize) -> (aabb: Aabb3)
    requires
        start <= end <= infos.len(),
    ensures
        aabb == centroid_bounds_of(infos@.subrange(start as int, end as int)),
{
    let mut aabb = Aabb3::empty();
    let mut i: usize = start;
    while i < end
        invariant
            start <= i <= end <= infos.len(),
            aabb == centroid_bounds_of(infos@.subrange(start as int, i as int)),
        decreases end - i,
    {
        proof {
            lemma_bounds_push(infos@.subrange(start as int, i as int), infos@[i as int]);
            assert(infos@.subrange(start as int, i as int).push(infos@[i as int])
                =~= infos@.subrange(start as int, i + 1));
        }
        aabb = aabb.grow(&infos[i].centroid);
        i += 1;
    }
    aabb
}

/// Reorders `infos[start..end]` so that the triangles below the plane come
/// first, and returns where the others begin.
fn partition(
    infos: &mut Vec<TriangleInfo>,
    start: usize,
    end: usize,
    axis: Axis,
    twice_pivot: i64,
) -> (mid: usize)
    requires
        start <= end <= old(infos).len(),
    ensures
        final(infos)@.len() == old(infos)@.len(),
        start <= mid <= end,
        forall|k: int|
            0 <= k < start || end <= k < old(infos)@.len() ==> final(infos)@[k] == old(infos)@[k],
        final(infos)@.subrange(start as int, end as int).to_multiset() == old(infos)@.subrange(
            start as int,
            end as int,
        ).to_multiset(),
        forall|k: int| start <= k < mid ==> is_below(final(infos)@[k], axis, twice_pivot as int),
        forall|k: int| mid <= k < end ==> !is_below(final(infos)@[k], axis, twice_pivot as int),
{
    let ghost before = infos@;
    let mut store: usize = start;
    let mut i: usize = start;
    while i < end
        invariant
            start <= store <= i <= end <= infos.len(),
            infos@.len() == before.len(),
            forall|k: int| 0 <= k < start || end <= k < before.len() ==> infos@[k] == before[k],
            infos@.subrange(start as int, end as int).to_multiset() == before.subrange(
                start as int,
                end as int,
            ).to_multiset(),
            forall|k: int| start <= k < store ==> is_below(infos@[k], axis, twice_pivot as int),
            forall|k: int| store <= k < i ==> !is_below(infos@[k], axis, twice_pivot as int),
        decreases end - i,
    {
        let current = infos[i];
        if 2 * (current.centroid.get(axis) as i64) < twice_pivot {
            let displaced = infos[store];
            proof {
                lemma_swap_keeps_multiset(infos@, start as int, end as int, store as int, i as int);
            }
            infos.set(store, current);
            infos.set(i, displaced);
            store += 1;
        }
        i += 1;
    }
    store
}

/// A hierarchy as the builder leaves it: every node owns its children.
///
/// A leaf names the triangles `start .. start + count` of the reordered
/// list. An internal node covers what its two children cover, the left
/// child's range followed by the right child's.
#[derive(Debug, PartialEq, Eq)]
pub enum BvhTree {
    Leaf { aabb: Aabb3, start: u32, count: u32 },
    Internal { aabb: Aabb3, left: Box<BvhTree>, right: Box<BvhTree> },
}

impl BvhTree {
    /// The box recorded at the root of this tree.
    pub open spec fn bounds_spec(self) -> Aabb3 {
        match self {
            BvhTree::Leaf { aabb, .. } => aabb,
            BvhTree::Internal { aabb, .. } => aabb,
        }
    }

    /// Index of the first triangle that the tree covers.
    pub open spec fn first(self) -> int
        decreases self,
    {
        match self {
            BvhTree::Leaf { start, .. } => start as int,
            BvhTree::Internal { left, .. } => left.first(),
        }
    }

    /// Index one past the last triangle that the tree covers.
    pub open spec fn end(self) -> int
        decreases self,
    {
        match self {
            BvhTree::Leaf { start, count, .. } => start + count,
            BvhTree::Internal { right, .. } => right.end(),
        }
    }

    /// Number of nodes, leaves and internal nodes alike.
    pub open spec fn node_count(self) -> nat
        decreases self,
    {
        match self {
            BvhTree::Leaf { .. } => 1,
            BvhTree::Internal { left, right, .. } => 1 + left.node_count() + right.node_count(),
        }
    }

    /// The triangle ranges of the leaves, from left to right, each as
    /// `(start, count)`.
    pub open spec fn leaves(self) -> Seq<(u32, u32)>
        decreases self,
    {
        match self {
            BvhTree::Leaf { start, count, .. } => seq![(start, count)],
            BvhTree::Internal { left, right, .. } => left.leaves() + right.leaves(),
        }
    }

    /// Whether the tree is a hierarchy over `infos` as the builder makes it:
    /// leaves are small and carry the exact box of their triangles, an
    /// internal node covers more triangles than fit a leaf, joins two
    /// adjacent non-empty ranges divided by the split rule, and carries the
    /// union of its children's boxes.
    pub open spec fn well_formed(self, infos: Seq<TriangleInfo>) -> bool
        decreases self,
    {
        match self {
            BvhTree::Leaf { aabb, start, count } => {
                &&& start + count <= infos.len()
                &&& count <= MAX_LEAF_TRIANGLES
                &&& aabb == bounds_of(infos.subrange(start as int, start + count))
            },
            BvhTree::Internal { aabb, left, right } => {
                &&& left.well_formed(infos)
                &&& right.well_formed(infos)
                &&& left.first() < left.end()
                &&& left.end() == right.first()
                &&& right.first() < right.end()
                &&& right.end() - left.first() > MAX_LEAF_TRIANGLES
                &&& aabb == left.bounds_spec().union_spec(right.bounds_spec())
                &&& split_rule(
                    infos.subrange(left.first(), left.end()),
                    infos.subrange(right.first(), right.end()),
                )
            },
        }
    }

    /// The box recorded at the root of this tree.
    pub fn bounds(&self) -> (aabb: Aabb3)
        ensures
            aabb == self.bounds_spec(),
    {
        match self {
            BvhTree::Leaf { aabb, .. } => *aabb,
            BvhTree::Internal { aabb, .. } => *aabb,
        }
    }
}

/// A well-formed tree covers a range that lies within the list.
pub proof fn lemma_range_in_list(tree: BvhTree, infos: Seq<TriangleInfo>)
    requires
        tree.well_formed(infos),
    ensures
        0 <= tree.first() <= tree.end() <= infos.len(),
    decreases tree,
{
    match tree {
        BvhTree::Leaf { .. } => {},
        BvhTree::Internal { left, right, .. } => {
            lemma_range_in_list(*left, infos);
            lemma_range_in_list(*right, infos);
        },
    }
}

/// Whether a tree is well formed depends only on the triangles it covers.
proof fn lemma_well_formed_frame(tree: BvhTree, a: Seq<TriangleInfo>, b: Seq<TriangleInfo>)
    requires
        tree.well_formed(a),
        a.len() == b.len(),
        forall|k: int| tree.first() <= k < tree.end() ==> a[k] == b[k],
    ensures
        tree.well_formed(b),
    decreases tree,
{
    lemma_range_in_list(tree, a);
    match tree {
        BvhTree::Leaf { start, count, .. } => {
            assert(a.subrange(start as int, start + count) =~= b.subrange(
                start as int,
                start + count,
            ));
        },
        BvhTree::Internal { left, right, .. } => {
            lemma_range_in_list(*left, a);
            lemma_range_in_list(*right, a);
            lemma_well_formed_frame(*left, a, b);
            lemma_well_formed_frame(*right, a, b);
            assert(a.subrange(left.first(), left.end()) =~= b.subrange(left.first(), left.end()));
            assert(a.subrange(right.first(), right.end()) =~= b.subrange(
                right.first(),
                right.end(),
            ));
        },
    }
}

/// The split rule holds of a range that was partitioned by its splitting
/// plane, cut at the partition point or, where one side came out empty, at
/// the middle, and then permuted within each half.
proof fn lemma_split_rule_after_partition(
    orig: Seq<TriangleInfo>,
    parted: Seq<TriangleInfo>,
    left: Seq<TriangleInfo>,
    right: Seq<TriangleInfo>,
    cut: int,
)
    requires
        parted.to_multiset() == orig.to_multiset(),
        0 <= cut <= parted.len(),
        forall|k: int|
            0 <= k < cut ==> is_below(parted[k], split_axis(orig), split_twice_pivot(orig)),
        forall|k: int|
            cut <= k < parted.len() ==> !is_below(
                parted[k],
                split_axis(orig),
                split_twice_pivot(orig),
            ),
        left.len() + right.len() == parted.len(),
        left.len() == (if cut == 0 || cut == parted.len() {
            parted.len() as int / 2
        } else {
            cut
        }),
        left.to_multiset() == parted.subrange(0, left.len() as int).to_multiset(),
        right.to_multiset() == parted.subrange(left.len() as int, parted.len() as int).to_multiset(),
    ensures
        (left + right).to_multiset() == orig.to_multiset(),
        split_rule(left, right),
{
    let all = left + right;
    let m = left.len() as int;
    let axis = split_axis(orig);
    let tp = split_twice_pivot(orig);
    lemma_multiset_commutative(left, right);
    lemma_subrange_split(parted, 0, m, parted.len() as int);
    assert(parted.subrange(0, parted.len() as int) =~= parted);
    assert(all.to_multiset() == orig.to_multiset());
    lemma_bounds_permutation(all, orig);
    assert(split_axis(all) == axis);
    assert(split_twice_pivot(all) == tp);
    if 0 < cut < parted.len() {
        assert forall|i: int| 0 <= i < left.len() implies is_below(#[trigger] left[i], axis, tp) by {
            let j = lemma_permutation_member(left, parted.subrange(0, m), i);
            assert(parted.subrange(0, m)[j] == parted[j]);
        }
        assert forall|i: int| 0 <= i < right.len() implies !is_below(
            #[trigger] right[i],
            axis,
            tp,
        ) by {
            let j = lemma_permutation_member(right, parted.subrange(m, parted.len() as int), i);
            assert(parted.subrange(m, parted.len() as int)[j] == parted[m + j]);
        }
        assert(is_below(all[0], axis, tp)) by {
            assert(all[0] == left[0]);
        }
        assert(!is_below(all[m], axis, tp)) by {
            assert(all[m] == right[0]);
        }
        assert(plane_separates(all));
    } else {
        if plane_separates(all) {
            let i = choose|i: int| 0 <= i < all.len() && is_below(#[trigger] all[i], axis, tp);
            let j = choose|j: int| 0 <= j < all.len() && !is_below(#[trigger] all[j], axis, tp);
            let pi = lemma_permutation_member(all, parted, i);
            let pj = lemma_permutation_member(all, parted, j);
            assert(false);
        }
    }
}

/// A well-formed tree over a non-empty range has fewer than twice as many
/// nodes as it covers triangles.
pub proof fn lemma_node_count_bound(tree: BvhTree, infos: Seq<TriangleInfo>)
    requires
        tree.well_formed(infos),
    ensures
        tree.first() < tree.end() ==> tree.node_count() <= 2 * (tree.end() - tree.first()) - 1,
        tree.first() == tree.end() ==> tree.node_count() == 1,
    decreases tree,
{
    match tree {
        BvhTree::Leaf { .. } => {},
        BvhTree::Internal { left, right, .. } => {
            lemma_node_count_bound(*left, infos);
            lemma_node_count_bound(*right, infos);
        },
    }
}

/// Builds the subtree over `infos[start..end]`, reordering that range.
fn build_range(infos: &mut Vec<TriangleInfo>, start: usize, end: usize) -> (tree: BvhTree)
    requires
        start <= end <= old(infos).len() <= u32::MAX,
    ensures
        final(infos)@.len() == old(infos)@.len(),
        forall|k: int|
            0 <= k < start || end <= k < old(infos)@.len() ==> final(infos)@[k] == old(infos)@[k],
        final(infos)@.subrange(start as int, end as int).to_multiset() == old(infos)@.subrange(
            start as int,
            end as int,
        ).to_multiset(),
        tree.well_formed(final(infos)@),
        tree.first() == start,
        tree.end() == end,
    decreases end - start,
{
    let count = end - start;
    if count <= MAX_LEAF_TRIANGLES {
        let aabb = range_bounds(infos, start, end);
        return BvhTree::Leaf { aabb, start: start as u32, count: count as u32 };
    }
    let ghost s0 = infos@;
    let centroids = range_centroid_bounds(infos, start, end);
    let axis = centroids.longest_axis();
    let twice_pivot: i64 = centroids.min.get(axis) as i64 + centroids.max.get(axis) as i64;
    let cut = partition(infos, start, end, axis, twice_pivot);
    let ghost s1 = infos@;
    let mid = if cut == start || cut == end {
        start + count / 2
    } else {
        cut
    };
    let left = build_range(infos, start, mid);
    let ghost s2 = infos@;
    let right = build_range(infos, mid, end);
    let ghost s3 = infos@;
    proof {
        let (a, m, e) = (start as int, mid as int, end as int);
        assert(s2.subrange(m, e) =~= s1.subrange(m, e));
        assert(s3.subrange(a, m) =~= s2.subrange(a, m));
        lemma_well_formed_frame(left, s2, s3);
        lemma_subrange_split(s3, a, m, e);
        assert(s1.subrange(a, e).subrange(0, m - a) =~= s1.subrange(a, m));
        assert(s1.subrange(a, e).subrange(m - a, e - a) =~= s1.subrange(m, e));
        lemma_split_rule_after_partition(
            s0.subrange(a, e),
            s1.subrange(a, e),
            s3.subrange(a, m),
            s3.subrange(m, e),
            cut - a,
        );
    }
    let aabb = left.bounds().union(&right.bounds());
    BvhTree::Internal { aabb, left: Box::new(left), right: Box::new(right) }
}

/// One node of the flattened hierarchy. Children and triangles are named
/// by index, never by address, so the array can be copied anywhere.
#[derive(Clone, Copy, Debug, PartialEq, Eq, Structural)]
pub enum BvhNode {
    Internal { aabb: Aabb3, left: u32, right: u32 },
    Leaf { aabb: Aabb3, start: u32, count: u32 },
}

/// The nodes of `tree` in depth-first order, parent before children and
/// left before right, where the root takes the id `base`. A node's id is
/// its position in the array that the sequence is part of.
pub open spec fn flatten_spec(tree: BvhTree, base: int) -> Seq<BvhNode>
    decreases tree,
{
    match tree {
        BvhTree::Leaf { aabb, start, count } => seq![BvhNode::Leaf { aabb, start, count }],
        BvhTree::Internal { aabb, left, right } => {
            let left_id = base + 1;
            let right_id = base + 1 + left.node_count();
            seq![BvhNode::Internal { aabb, left: left_id as u32, right: right_id as u32 }]
                + flatten_spec(*left, left_id) + flatten_spec(*right, right_id)
        },
    }
}

/// The leaf ranges met when `nodes` is walked from the node `id` by child
/// ids, left child first. Where a child id does not point forward to a slot
/// of the array the walk ends, so the walk is defined on every array.
pub open spec fn walk_leaves(nodes: Seq<BvhNode>, id: int) -> Seq<(u32, u32)>
    decreases nodes.len() - id,
{
    if 0 <= id < nodes.len() {
        match nodes[id] {
            BvhNode::Leaf { start, count, .. } => seq![(start, count)],
            BvhNode::Internal { left, right, .. } => {
                if id < left < nodes.len() && id < right < nodes.len() {
                    walk_leaves(nodes, left as int) + walk_leaves(nodes, right as int)
                } else {
                    Seq::empty()
                }
            },
        }
    } else {
        Seq::empty()
    }
}

/// Flattening yields one node for each node of the tree.
pub proof fn lemma_flatten_len(tree: BvhTree, base: int)
    ensures
        flatten_spec(tree, base).len() == tree.node_count(),
    decreases tree,
{
    match tree {
        BvhTree::Leaf { .. } => {},
        BvhTree::Internal { left, right, .. } => {
            lemma_flatten_len(*left, base + 1);
            lemma_flatten_len(*right, base + 1 + left.node_count());
        },
    }
}

/// Appends the nodes of `tree` to `out`. A parent takes its slot before its
/// children are laid out; the id of its right child is filled in once the
/// left subtree has been written.
fn flatten_into(tree: &BvhTree, out: &mut Vec<BvhNode>)
    requires
        old(out)@.len() + tree.node_count() <= u32::MAX,
    ensures
        final(out)@ == old(out)@ + flatten_spec(*tree, old(out)@.len() as int),
    decreases tree,
{
    match tree {
        BvhTree::Leaf { aabb, start, count } => {
            out.push(BvhNode::Leaf { aabb: *aabb, start: *start, count: *count });
        },
        BvhTree::Internal { aabb, left, right } => {
            let ghost before = out@;
            let own = out.len();
            let left_id = (own + 1) as u32;
            out.push(BvhNode::Internal { aabb: *aabb, left: left_id, right: left_id });
            flatten_into(left, out);
            let right_id = out.len() as u32;
            out.set(own, BvhNode::Internal { aabb: *aabb, left: left_id, right: right_id });
            proof {
                lemma_flatten_len(**left, own + 1);
                assert(out@ =~= before + seq![
                    BvhNode::Internal { aabb: *aabb, left: left_id, right: right_id },
                ] + flatten_spec(**left, own + 1));
            }
            flatten_into(right, out);
        },
    }
}

/// A bounding volume hierarchy over a triangle list.
pub struct Bvh {
    root: BvhTree,
}

impl Bvh {
    #[verifier::type_invariant]
    spec fn ids_fit(self) -> bool {
        self.root.node_count() <= u32::MAX
    }

    /// The tree that this hierarchy holds.
    pub closed spec fn tree(self) -> BvhTree {
        self.root
    }

    /// Builds the hierarchy over `triangle_infos` and reorders the list so
    /// that every leaf names one contiguous run of it.
    ///
    /// A list of at most `MAX_LEAF_TRIANGLES` triangles, the empty list
    /// among them, gives a single leaf. A longer range is divided across the
    /// longest axis of the box around its centroids, at the middle of that
    /// box; where that leaves one side empty it is cut at its middle index.
    pub fn new(triangle_infos: &mut Vec<TriangleInfo>) -> (bvh: Bvh)
        requires
            old(triangle_infos)@.len() <= MAX_TRIANGLES,
        ensures
            final(triangle_infos)@.len() == old(triangle_infos)@.len(),
            final(triangle_infos)@.to_multiset() == old(triangle_infos)@.to_multiset(),
            bvh.tree().well_formed(final(triangle_infos)@),
            bvh.tree().first() == 0,
            bvh.tree().end() == final(triangle_infos)@.len(),
    {
        let ghost before = triangle_infos@;
        let len = triangle_infos.len();
        let root = build_range(triangle_infos, 0, len);
        proof {
            assert(before.subrange(0, len as int) =~= before);
            assert(triangle_infos@.subrange(0, len as int) =~= triangle_infos@);
            lemma_node_count_bound(root, triangle_infos@);
        }
        Bvh { root }
    }

    /// The root of the tree, for a direct traversal.
    pub fn root(&self) -> (root: &BvhTree)
        ensures
            *root == self.tree(),
    {
        &self.root
    }

    /// Lays the tree out as an array in which index 0 is the root and every
    /// node names its children by their index.
    pub fn flatten(&self) -> (nodes: Vec<BvhNode>)
        ensures
            nodes@ == flatten_spec(self.tree(), 0),
    {
        proof {
            use_type_invariant(self);
        }
        let mut nodes: Vec<BvhNode> = Vec::new();
        flatten_into(&self.root, &mut nodes);
        nodes
    }
}

} // verus!
