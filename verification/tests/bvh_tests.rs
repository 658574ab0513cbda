use prisma::geometry::{Aabb3, Axis, Point3};
use prisma::scene::bvh::{Bvh, BvhNode, BvhTree, MAX_LEAF_TRIANGLES};
use prisma::scene::{Triangle, TriangleInfo};

fn point(x: i32, y: i32, z: i32) -> Point3 {
    Point3 { x, y, z }
}

/// A triangle in a unit box whose low corner and centroid are both `at`.
fn info(index: u32, at: (i32, i32, i32)) -> TriangleInfo {
    TriangleInfo {
        triangle: Triangle { index, material: 0 },
        aabb: Aabb3 { min: point(at.0, at.1, at.2), max: point(at.0 + 1, at.1 + 1, at.2 + 1) },
        centroid: point(at.0, at.1, at.2),
    }
}

fn along_x(count: u32) -> Vec<TriangleInfo> {
    (0..count).map(|i| info(i, (10 * i as i32, 0, 0))).collect()
}

fn scattered(count: u32) -> Vec<TriangleInfo> {
    let mut seed: u64 = 0x2545_f491_4f6c_dd1d;
    let mut next = move || {
        seed ^= seed << 13;
        seed ^= seed >> 7;
        seed ^= seed << 17;
        (seed % 2001) as i32 - 1000
    };
    (0..count).map(|i| info(i, (next(), next(), next()))).collect()
}

fn bounds(tree: &BvhTree) -> Aabb3 {
    match tree {
        BvhTree::Leaf { aabb, .. } => *aabb,
        BvhTree::Internal { aabb, .. } => *aabb,
    }
}

fn leaves(tree: &BvhTree, out: &mut Vec<(u32, u32)>) {
    match tree {
        BvhTree::Leaf { start, count, .. } => out.push((*start, *count)),
        BvhTree::Internal { left, right, .. } => {
            leaves(left, out);
            leaves(right, out);
        }
    }
}

fn node_count(tree: &BvhTree) -> usize {
    match tree {
        BvhTree::Leaf { .. } => 1,
        BvhTree::Internal { left, right, .. } => 1 + node_count(left) + node_count(right),
    }
}

fn walk(nodes: &[BvhNode], id: usize, out: &mut Vec<(u32, u32)>) {
    match nodes[id] {
        BvhNode::Leaf { start, count, .. } => out.push((start, count)),
        BvhNode::Internal { left, right, .. } => {
            walk(nodes, left as usize, out);
            walk(nodes, right as usize, out);
        }
    }
}

fn union_of(infos: &[TriangleInfo]) -> Aabb3 {
    infos.iter().fold(Aabb3::empty(), |acc, t| acc.union(&t.aabb))
}

/// Checks the tree below `tree` against the reordered list and returns the
/// range that it covers.
fn check(tree: &BvhTree, infos: &[TriangleInfo]) -> (usize, usize) {
    match tree {
        BvhTree::Leaf { aabb, start, count } => {
            let (start, count) = (*start as usize, *count as usize);
            assert!(count <= MAX_LEAF_TRIANGLES);
            assert!(start + count <= infos.len());
            assert_eq!(*aabb, union_of(&infos[start..start + count]));
            (start, start + count)
        }
        BvhTree::Internal { aabb, left, right } => {
            let (first, mid) = check(left, infos);
            let (right_first, end) = check(right, infos);
            assert_eq!(mid, right_first);
            assert!(first < mid && mid < end);
            assert!(end - first > MAX_LEAF_TRIANGLES);
            assert_eq!(*aabb, bounds(left).union(&bounds(right)));
            assert!(aabb.contains(&bounds(left)));
            assert!(aabb.contains(&bounds(right)));
            assert_eq!(*aabb, union_of(&infos[first..end]));
            let centroids =
                infos[first..end].iter().fold(Aabb3::empty(), |acc, t| acc.grow(&t.centroid));
            let axis = centroids.longest_axis();
            let twice_pivot = centroids.min.get(axis) as i64 + centroids.max.get(axis) as i64;
            let below = |t: &TriangleInfo| 2 * (t.centroid.get(axis) as i64) < twice_pivot;
            let any_below = infos[first..end].iter().any(|t| below(t));
            let any_above = infos[first..end].iter().any(|t| !below(t));
            if any_below && any_above {
                assert!(infos[first..mid].iter().all(|t| below(t)));
                assert!(infos[mid..end].iter().all(|t| !below(t)));
            } else {
                assert_eq!(mid - first, (end - first) / 2);
            }
            (first, end)
        }
    }
}

fn sorted_ids(infos: &[TriangleInfo]) -> Vec<u32> {
    let mut ids: Vec<u32> = infos.iter().map(|t| t.triangle.index).collect();
    ids.sort();
    ids
}

#[test]
fn empty_list_gives_one_empty_leaf() {
    let mut infos: Vec<TriangleInfo> = Vec::new();
    let bvh = Bvh::new(&mut infos);
    assert_eq!(*bvh.root(), BvhTree::Leaf { aabb: Aabb3::empty(), start: 0, count: 0 });
    assert_eq!(bvh.flatten(), vec![BvhNode::Leaf { aabb: Aabb3::empty(), start: 0, count: 0 }]);
    assert!(infos.is_empty());
}

#[test]
fn single_triangle_gives_one_leaf_with_its_box() {
    let only = TriangleInfo {
        triangle: Triangle { index: 17, material: 3 },
        aabb: Aabb3 { min: point(-4, 2, 0), max: point(9, 3, 5) },
        centroid: point(2, 2, 2),
    };
    let mut infos = vec![only];
    let bvh = Bvh::new(&mut infos);
    assert_eq!(*bvh.root(), BvhTree::Leaf { aabb: only.aabb, start: 0, count: 1 });
    assert_eq!(infos, vec![only]);
    assert_eq!(bvh.flatten(), vec![BvhNode::Leaf { aabb: only.aabb, start: 0, count: 1 }]);
}

#[test]
fn list_that_fits_a_leaf_is_not_split() {
    assert_eq!(MAX_LEAF_TRIANGLES, 4);
    let mut infos = along_x(4);
    let before = infos.clone();
    let bvh = Bvh::new(&mut infos);
    assert_eq!(
        *bvh.root(),
        BvhTree::Leaf {
            aabb: Aabb3 { min: point(0, 0, 0), max: point(31, 1, 1) },
            start: 0,
            count: 4
        }
    );
    assert_eq!(infos, before);
}

#[test]
fn five_triangles_are_split_at_the_middle_of_their_centroids() {
    let mut infos = along_x(5);
    let bvh = Bvh::new(&mut infos);
    // Centroids lie at x = 0, 10, 20, 30, 40: those below 20 go left.
    match bvh.root() {
        BvhTree::Internal { aabb, left, right } => {
            assert_eq!(*aabb, Aabb3 { min: point(0, 0, 0), max: point(41, 1, 1) });
            assert_eq!(
                **left,
                BvhTree::Leaf {
                    aabb: Aabb3 { min: point(0, 0, 0), max: point(11, 1, 1) },
                    start: 0,
                    count: 2
                }
            );
            assert_eq!(
                **right,
                BvhTree::Leaf {
                    aabb: Aabb3 { min: point(20, 0, 0), max: point(41, 1, 1) },
                    start: 2,
                    count: 3
                }
            );
        }
        other => panic!("expected an internal node, got {:?}", other),
    }
    assert_eq!(sorted_ids(&infos[0..2]), vec![0, 1]);
    assert_eq!(sorted_ids(&infos[2..5]), vec![2, 3, 4]);
}

#[test]
fn split_goes_across_the_longest_axis() {
    let mut infos: Vec<TriangleInfo> =
        (0..6).map(|i| info(i, (i as i32 % 2, 100 * i as i32, 0))).collect();
    let bvh = Bvh::new(&mut infos);
    assert_eq!(
        infos.iter().fold(Aabb3::empty(), |acc, t| acc.grow(&t.centroid)).longest_axis(),
        Axis::Y
    );
    match bvh.root() {
        BvhTree::Internal { left, right, .. } => {
            // Centroids lie at y = 0 .. 500, the plane at 250.
            assert_eq!(bounds(left), Aabb3 { min: point(0, 0, 0), max: point(2, 201, 1) });
            assert_eq!(bounds(right), Aabb3 { min: point(0, 300, 0), max: point(2, 501, 1) });
        }
        other => panic!("expected an internal node, got {:?}", other),
    }
    check(bvh.root(), &infos);
}

#[test]
fn equal_centroids_are_cut_at_the_middle_index() {
    let mut infos: Vec<TriangleInfo> = (0..11).map(|i| info(i, (3, 3, 3))).collect();
    let bvh = Bvh::new(&mut infos);
    let mut ranges = Vec::new();
    leaves(bvh.root(), &mut ranges);
    // 11 = 5 + 6, 5 = 2 + 3, 6 = 3 + 3.
    assert_eq!(ranges, vec![(0, 2), (2, 3), (5, 3), (8, 3)]);
    check(bvh.root(), &infos);
    assert_eq!(sorted_ids(&infos), (0..11).collect::<Vec<u32>>());
}

#[test]
fn build_keeps_every_triangle_exactly_once() {
    for count in [0u32, 1, 2, 4, 5, 6, 9, 17, 64, 257, 1000] {
        let mut infos = scattered(count);
        let mut before = infos.clone();
        let _bvh = Bvh::new(&mut infos);
        assert_eq!(infos.len(), before.len());
        assert_eq!(sorted_ids(&infos), (0..count).collect::<Vec<u32>>());
        let key = |t: &TriangleInfo| t.triangle.index;
        let mut after = infos.clone();
        after.sort_by_key(key);
        before.sort_by_key(key);
        assert_eq!(after, before);
    }
}

#[test]
fn leaves_lie_end_to_end_over_the_list() {
    for count in [0u32, 1, 5, 33, 500] {
        let mut infos = scattered(count);
        let bvh = Bvh::new(&mut infos);
        let mut ranges = Vec::new();
        leaves(bvh.root(), &mut ranges);
        let mut next = 0u32;
        for (start, len) in ranges {
            assert_eq!(start, next);
            next = start + len;
        }
        assert_eq!(next, count);
    }
}

#[test]
fn boxes_are_nested_and_exact_down_to_the_leaves() {
    for count in [5u32, 6, 9, 40, 333, 2000] {
        let mut infos = scattered(count);
        let bvh = Bvh::new(&mut infos);
        assert_eq!(check(bvh.root(), &infos), (0, count as usize));
        assert_eq!(bounds(bvh.root()), union_of(&infos));
    }
}

#[test]
fn leaf_boxes_hold_the_boxes_of_their_triangles() {
    let mut infos = scattered(300);
    let bvh = Bvh::new(&mut infos);
    let nodes = bvh.flatten();
    for node in &nodes {
        if let BvhNode::Leaf { aabb, start, count } = node {
            for t in &infos[*start as usize..(*start + *count) as usize] {
                assert!(aabb.contains(&t.aabb));
                assert!(bounds(bvh.root()).contains(&t.aabb));
            }
        }
    }
}

#[test]
fn flatten_has_one_slot_for_each_node() {
    for count in [0u32, 1, 5, 12, 100, 999] {
        let mut infos = scattered(count);
        let bvh = Bvh::new(&mut infos);
        assert_eq!(bvh.flatten().len(), node_count(bvh.root()));
    }
}

#[test]
fn flattened_children_point_forward_to_different_slots() {
    let mut infos = scattered(777);
    let bvh = Bvh::new(&mut infos);
    let nodes = bvh.flatten();
    let mut named = vec![0u32; nodes.len()];
    for (id, node) in nodes.iter().enumerate() {
        if let BvhNode::Internal { left, right, .. } = node {
            assert!(id < *left as usize);
            assert!(left < right);
            assert!((*right as usize) < nodes.len());
            assert_eq!(*left as usize, id + 1);
            named[*left as usize] += 1;
            named[*right as usize] += 1;
        }
    }
    // The root has no parent, every other node exactly one.
    assert_eq!(named[0], 0);
    assert!(named[1..].iter().all(|&n| n == 1));
}

#[test]
fn flatten_of_five_triangles_is_root_then_left_then_right() {
    let mut infos = along_x(5);
    let bvh = Bvh::new(&mut infos);
    assert_eq!(
        bvh.flatten(),
        vec![
            BvhNode::Internal {
                aabb: Aabb3 { min: point(0, 0, 0), max: point(41, 1, 1) },
                left: 1,
                right: 2
            },
            BvhNode::Leaf {
                aabb: Aabb3 { min: point(0, 0, 0), max: point(11, 1, 1) },
                start: 0,
                count: 2
            },
            BvhNode::Leaf {
                aabb: Aabb3 { min: point(20, 0, 0), max: point(41, 1, 1) },
                start: 2,
                count: 3
            },
        ]
    );
}

#[test]
fn flatten_puts_the_right_child_after_the_left_subtree() {
    let mut infos = along_x(16);
    let bvh = Bvh::new(&mut infos);
    let nodes = bvh.flatten();
    // 16 triangles at x = 0 .. 150 split 8 + 8, each half 4 + 4.
    assert_eq!(nodes.len(), 7);
    assert!(matches!(nodes[0], BvhNode::Internal { left: 1, right: 4, .. }));
    assert!(matches!(nodes[1], BvhNode::Internal { left: 2, right: 3, .. }));
    assert!(matches!(nodes[2], BvhNode::Leaf { start: 0, count: 4, .. }));
    assert!(matches!(nodes[3], BvhNode::Leaf { start: 4, count: 4, .. }));
    assert!(matches!(nodes[4], BvhNode::Internal { left: 5, right: 6, .. }));
    assert!(matches!(nodes[5], BvhNode::Leaf { start: 8, count: 4, .. }));
    assert!(matches!(nodes[6], BvhNode::Leaf { start: 12, count: 4, .. }));
}

#[test]
fn walking_the_flat_array_meets_the_leaves_of_the_tree() {
    for count in [0u32, 1, 5, 23, 410, 3000] {
        let mut infos = scattered(count);
        let bvh = Bvh::new(&mut infos);
        let nodes = bvh.flatten();
        let mut direct = Vec::new();
        leaves(bvh.root(), &mut direct);
        let mut by_id = Vec::new();
        walk(&nodes, 0, &mut by_id);
        assert_eq!(by_id, direct);
    }
}

#[test]
fn flat_nodes_carry_the_boxes_of_the_tree() {
    let mut infos = scattered(50);
    let bvh = Bvh::new(&mut infos);
    let nodes = bvh.flatten();
    match nodes[0] {
        BvhNode::Internal { aabb, .. } => assert_eq!(aabb, bounds(bvh.root())),
        BvhNode::Leaf { .. } => panic!("fifty triangles do not fit a leaf"),
    }
    assert_eq!(bvh.root().bounds(), bounds(bvh.root()));
}

#[test]
fn one_sided_partition_falls_back_to_the_middle_index() {
    // All centroids on one plane across every axis but one triangle box is
    // large: the boxes differ, the centroids do not.
    let mut infos: Vec<TriangleInfo> = (0..5)
        .map(|i| TriangleInfo {
            triangle: Triangle { index: i, material: 0 },
            aabb: Aabb3 { min: point(-(i as i32), 0, 0), max: point(i as i32, 1, 1) },
            centroid: point(0, 0, 0),
        })
        .collect();
    let bvh = Bvh::new(&mut infos);
    let mut ranges = Vec::new();
    leaves(bvh.root(), &mut ranges);
    assert_eq!(ranges, vec![(0, 2), (2, 3)]);
    assert_eq!(bounds(bvh.root()), Aabb3 { min: point(-4, 0, 0), max: point(4, 1, 1) });
}

#[test]
fn extreme_coordinates_do_not_overflow() {
    let mut infos: Vec<TriangleInfo> = (0..8)
        .map(|i| {
            let x = if i % 2 == 0 { i32::MIN } else { i32::MAX };
            TriangleInfo {
                triangle: Triangle { index: i, material: 0 },
                aabb: Aabb3 { min: point(x, x, x), max: point(x, x, x) },
                centroid: point(x, 0, 0),
            }
        })
        .collect();
    let bvh = Bvh::new(&mut infos);
    check(bvh.root(), &infos);
    match bvh.root() {
        BvhTree::Internal { left, right, .. } => {
            assert_eq!(
                bounds(left),
                Aabb3 {
                    min: point(i32::MIN, i32::MIN, i32::MIN),
                    max: point(i32::MIN, i32::MIN, i32::MIN)
                }
            );
            assert_eq!(
                bounds(right),
                Aabb3 {
                    min: point(i32::MAX, i32::MAX, i32::MAX),
                    max: point(i32::MAX, i32::MAX, i32::MAX)
                }
            );
        }
        other => panic!("expected an internal node, got {:?}", other),
    }
}
