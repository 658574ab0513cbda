//! What holds of everything that is gathered from a scene graph: proved
//! once, for all lists of nodes.

use vstd::prelude::*;
use crate::materials::{lemma_push_keeps_distinct, MAX_MATERIALS};
use crate::scene::bvh::MAX_TRIANGLES;
use crate::scene::{
    add_primitive_spec, add_primitives_spec, load_nodes_spec, placed, Gathered, Node, Primitive,
    Projection, TriangleInfo,
};

verus! {

/// Whether what has been gathered hangs together: the materials are
/// distinct, the triangles are numbered by their position, and each names a
/// material of the registry.
pub open spec fn orderly(gathered: Gathered) -> bool {
    &&& gathered.materials.no_duplicates()
    &&& gathered.materials.len() <= MAX_MATERIALS
    &&& gathered.triangles.len() <= MAX_TRIANGLES
    &&& forall|i: int|
        0 <= i < gathered.triangles.len() ==> {
            &&& (#[trigger] gathered.triangles[i]).triangle.index == i
            &&& gathered.triangles[i].triangle.material < gathered.materials.len()
        }
}

/// Gathering a primitive keeps what was gathered in order, keeps the
/// materials and triangles that were there where they were, and gives the
/// new triangles the index of the primitive's material.
pub proof fn lemma_add_primitive_keeps_order(state: Gathered, primitive: Primitive)
    requires
        orderly(state),
        add_primitive_spec(state, primitive) is Ok,
    ensures
        orderly(add_primitive_spec(state, primitive)->Ok_0),
        state.materials.is_prefix_of(add_primitive_spec(state, primitive)->Ok_0.materials),
        state.triangles.is_prefix_of(add_primitive_spec(state, primitive)->Ok_0.triangles),
        add_primitive_spec(state, primitive)->Ok_0.camera == state.camera,
        forall|i: int|
            state.triangles.len() <= i < add_primitive_spec(state, primitive)->Ok_0.triangles.len()
                ==> add_primitive_spec(state, primitive)->Ok_0.materials[(
            #[trigger] add_primitive_spec(state, primitive)->Ok_0.triangles[i]).triangle.material as int]
                == primitive.material,
{
    let after = add_primitive_spec(state, primitive)->Ok_0;
    let key = primitive.material;
    if !state.materials.contains(key) {
        lemma_push_keeps_distinct(state.materials, key);
        assert(after.materials[state.materials.len() as int] == key);
    }
    assert(after.materials.contains(key));
    let material = after.materials.index_of(key);
    assert(0 <= material < after.materials.len() && after.materials[material] == key);
    let base = state.triangles.len() as int;
    assert forall|i: int| 0 <= i < after.triangles.len() implies {
        &&& (#[trigger] after.triangles[i]).triangle.index == i
        &&& after.triangles[i].triangle.material < after.materials.len()
    } by {
        if i < base {
            assert(after.triangles[i] == state.triangles[i]);
        } else {
            assert(after.triangles[i] == placed(primitive, material as u32, base)[i - base]);
        }
    }
    assert forall|i: int| base <= i < after.triangles.len() implies after.materials[(
    #[trigger] after.triangles[i]).triangle.material as int] == key by {
        assert(after.triangles[i] == placed(primitive, material as u32, base)[i - base]);
    }
}

/// Gathering the primitives of a node keeps order, keeps what was there,
/// and does not touch the camera.
pub proof fn lemma_add_primitives_keeps_order(state: Gathered, primitives: Seq<Primitive>)
    requires
        orderly(state),
        add_primitives_spec(state, primitives) is Ok,
    ensures
        orderly(add_primitives_spec(state, primitives)->Ok_0),
        state.materials.is_prefix_of(add_primitives_spec(state, primitives)->Ok_0.materials),
        state.triangles.is_prefix_of(add_primitives_spec(state, primitives)->Ok_0.triangles),
        add_primitives_spec(state, primitives)->Ok_0.camera == state.camera,
    decreases primitives.len(),
{
    if primitives.len() > 0 {
        let before = add_primitives_spec(state, primitives.drop_last())->Ok_0;
        lemma_add_primitives_keeps_order(state, primitives.drop_last());
        lemma_add_primitive_keeps_order(before, primitives.last());
    }
}

/// Whatever is gathered from a list of nodes is in order: the materials
/// are distinct, triangle number `i` stands at position `i` before the
/// hierarchy reorders the list, and every triangle names a material that
/// the registry holds. What the earlier nodes gave stays in place.
pub proof fn lemma_load_nodes_keeps_order(state: Gathered, nodes: Seq<Node>)
    requires
        orderly(state),
        load_nodes_spec(state, nodes) is Ok,
    ensures
        orderly(load_nodes_spec(state, nodes)->Ok_0),
        state.materials.is_prefix_of(load_nodes_spec(state, nodes)->Ok_0.materials),
        state.triangles.is_prefix_of(load_nodes_spec(state, nodes)->Ok_0.triangles),
    decreases nodes.len(),
{
    if nodes.len() > 0 {
        let before = load_nodes_spec(state, nodes.drop_last())->Ok_0;
        lemma_load_nodes_keeps_order(state, nodes.drop_last());
        lemma_add_primitives_keeps_order(before, nodes.last().primitives@);
    }
}

/// In a list of nodes that is accepted no node holds a camera that is not
/// a perspective camera, and every beginning of the list is accepted too.
pub proof fn lemma_accepted_nodes_have_supported_cameras(state: Gathered, nodes: Seq<Node>, k: int)
    requires
        load_nodes_spec(state, nodes) is Ok,
        0 <= k < nodes.len(),
    ensures
        nodes[k].camera != Some(Projection::Orthographic),
        load_nodes_spec(state, nodes.take(k)) is Ok,
    decreases nodes.len(),
{
    if k < nodes.len() - 1 {
        lemma_accepted_nodes_have_supported_cameras(state, nodes.drop_last(), k);
        assert(nodes.drop_last().take(k) =~= nodes.take(k));
    } else {
        assert(nodes.drop_last() =~= nodes.take(k));
    }
}

/// The camera of the scene is the camera of the first node that has one:
/// a camera once chosen stays, whatever follows, and where no node has a
/// camera the scene has none.
pub proof fn lemma_first_camera_is_chosen(state: Gathered, nodes: Seq<Node>)
    requires
        load_nodes_spec(state, nodes) is Ok,
    ensures
        state.camera is Some ==> load_nodes_spec(state, nodes)->Ok_0.camera == state.camera,
        state.camera is None && (forall|j: int| 0 <= j < nodes.len() ==> (
        #[trigger] nodes[j]).camera is None) ==> load_nodes_spec(state, nodes)->Ok_0.camera is None,
        forall|k: int|
            state.camera is None && 0 <= k < nodes.len() && (#[trigger] nodes[k]).camera is Some
                && (forall|j: int| 0 <= j < k ==> (#[trigger] nodes[j]).camera is None)
                ==> load_nodes_spec(state, nodes)->Ok_0.camera == Some(nodes[k].id),
    decreases nodes.len(),
{
    if nodes.len() > 0 {
        let rest = nodes.drop_last();
        let before = load_nodes_spec(state, rest)->Ok_0;
        lemma_first_camera_is_chosen(state, rest);
        if add_primitives_spec(before, nodes.last().primitives@) is Ok {
            lemma_primitives_keep_camera(before, nodes.last().primitives@);
        }
        let after = load_nodes_spec(state, nodes)->Ok_0;
        if state.camera is None {
            assert forall|k: int|
                0 <= k < nodes.len() && (#[trigger] nodes[k]).camera is Some && (forall|j: int|
                    0 <= j < k ==> (#[trigger] nodes[j]).camera is None) implies after.camera
                == Some(nodes[k].id) by {
                if k < rest.len() {
                    assert(rest[k] == nodes[k]);
                    assert forall|j: int| 0 <= j < k implies (#[trigger] rest[j]).camera is None by {
                        assert(rest[j] == nodes[j]);
                    }
                } else {
                    assert forall|j: int| 0 <= j < rest.len() implies (
                    #[trigger] rest[j]).camera is None by {
                        assert(rest[j] == nodes[j]);
                    }
                }
            }
            if forall|j: int| 0 <= j < nodes.len() ==> (#[trigger] nodes[j]).camera is None {
                assert forall|j: int| 0 <= j < rest.len() implies (
                #[trigger] rest[j]).camera is None by {
                    assert(rest[j] == nodes[j]);
                }
                assert(nodes[nodes.len() - 1].camera is None);
            }
        }
    }
}

proof fn lemma_primitives_keep_camera(state: Gathered, primitives: Seq<Primitive>)
    requires
        add_primitives_spec(state, primitives) is Ok,
    ensures
        add_primitives_spec(state, primitives)->Ok_0.camera == state.camera,
    decreases primitives.len(),
{
    if primitives.len() > 0 {
        lemma_primitives_keep_camera(state, primitives.drop_last());
    }
}

/// Reordering keeps what the numbering is for: in every arrangement of
/// triangles that were gathered in order each triangle has a number of its
/// own below the number of triangles, and names a material of the
/// registry.
pub proof fn lemma_reordered_triangles_keep_their_numbers(
    gathered: Gathered,
    reordered: Seq<TriangleInfo>,
)
    requires
        orderly(gathered),
        reordered.to_multiset() == gathered.triangles.to_multiset(),
    ensures
        reordered.len() == gathered.triangles.len(),
        forall|i: int|
            0 <= i < reordered.len() ==> {
                &&& (#[trigger] reordered[i]).triangle.index < reordered.len()
                &&& reordered[i].triangle.material < gathered.materials.len()
                &&& gathered.triangles[reordered[i].triangle.index as int] == reordered[i]
            },
        forall|i: int, j: int|
            0 <= i < j < reordered.len() ==> (#[trigger] reordered[i]).triangle.index != (
            #[trigger] reordered[j]).triangle.index,
{
    let before = gathered.triangles;
    vstd::seq_lib::to_multiset_len(reordered);
    vstd::seq_lib::to_multiset_len(before);
    assert forall|i: int| 0 <= i < reordered.len() implies {
        &&& (#[trigger] reordered[i]).triangle.index < reordered.len()
        &&& reordered[i].triangle.material < gathered.materials.len()
        &&& before[reordered[i].triangle.index as int] == reordered[i]
    } by {
        let at = lemma_stands_where_it_is_numbered(gathered, reordered, i);
    }
    assert(before.no_duplicates()) by {
        assert forall|p: int, q: int| 0 <= p < before.len() && 0 <= q < before.len() && p
            != q implies before[p] != before[q] by {
            assert(before[p].triangle.index == p);
            assert(before[q].triangle.index == q);
        }
    }
    before.lemma_multiset_has_no_duplicates();
    reordered.lemma_multiset_has_no_duplicates_conv();
    assert forall|i: int, j: int| 0 <= i < j < reordered.len() implies (
    #[trigger] reordered[i]).triangle.index != (#[trigger] reordered[j]).triangle.index by {
        let p = lemma_stands_where_it_is_numbered(gathered, reordered, i);
        let q = lemma_stands_where_it_is_numbered(gathered, reordered, j);
        assert(reordered[i] != reordered[j]);
    }
}

/// A triangle of a reordered list is the one that was gathered under its
/// number. The result is that number.
proof fn lemma_stands_where_it_is_numbered(
    gathered: Gathered,
    reordered: Seq<TriangleInfo>,
    i: int,
) -> (at: int)
    requires
        orderly(gathered),
        reordered.to_multiset() == gathered.triangles.to_multiset(),
        0 <= i < reordered.len(),
    ensures
        0 <= at < gathered.triangles.len(),
        at == reordered[i].triangle.index,
        gathered.triangles[at] == reordered[i],
{
    let before = gathered.triangles;
    assert(reordered.contains(reordered[i]));
    vstd::seq_lib::to_multiset_contains(reordered, reordered[i]);
    vstd::seq_lib::to_multiset_contains(before, reordered[i]);
    let at = before.index_of(reordered[i]);
    assert(before[at].triangle.index == at);
    at
}

} // verus!
