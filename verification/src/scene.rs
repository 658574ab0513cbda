//! Gathering the geometry of a scene and packing it for the trace pass.
//!
//! The scene graph comes in as a list of nodes in the order in which a
//! depth-first walk meets them, parent before children, each with its
//! geometry already in world space. Triangles are numbered in the order in
//! which they are met.

use vstd::prelude::*;
use crate::geometry::{Aabb3, Point3};
use crate::materials::{registered, Materials, MAX_MATERIALS};
use crate::scene::bvh::{flatten_spec, Bvh, BvhNode, MAX_TRIANGLES};

pub mod bvh;
pub mod bvh_laws;
pub mod gather_laws;
pub mod mesh;

verus! {

/// A triangle as the hierarchy and the registry know it: which one it is
/// and which material it has. Its vertices stay with the caller.
#[derive(Clone, Copy, Debug, PartialEq, Eq, Structural)]
pub struct Triangle {
    /// The number of the triangle in the order of collection.
    pub index: u32,
    /// The index of its material in the registry.
    pub material: u32,
}

/// What the hierarchy builder knows of one triangle: the triangle, the
/// box around it and the point by which it is sorted.
#[derive(Clone, Copy, Debug, PartialEq, Eq, Structural)]
pub struct TriangleInfo {
    pub triangle: Triangle,
    pub aabb: Aabb3,
    pub centroid: Point3,
}

/// The kind of projection of a camera.
#[derive(Clone, Copy, Debug, PartialEq, Eq, Structural)]
pub enum Projection {
    Perspective,
    Orthographic,
}

/// Why a scene could not be put together.
#[derive(Clone, Copy, Debug, PartialEq, Eq, Structural)]
pub enum SceneError {
    /// A camera that is not a perspective camera.
    UnsupportedCamera,
    /// A primitive that is not a list of triangles.
    UnsupportedTopology,
    /// An index of a primitive that names none of its vertices.
    IndexOutOfRange,
    /// More distinct materials than an index can number.
    TooManyMaterials,
    /// More triangles than a hierarchy can be built over.
    TooManyTriangles,
}

/// The box and the centroid of one triangle in world space.
#[derive(Clone, Copy, Debug, PartialEq, Eq, Structural)]
pub struct TriangleBounds {
    pub aabb: Aabb3,
    pub centroid: Point3,
}

/// One mesh primitive: triangles that share a material.
#[derive(Debug)]
pub struct Primitive {
    /// The key by which the material is known to the registry.
    pub material: u64,
    pub triangles: Vec<TriangleBounds>,
}

/// One node of the scene graph.
#[derive(Debug)]
pub struct Node {
    /// The name by which the caller knows the node.
    pub id: u32,
    pub primitives: Vec<Primitive>,
    pub camera: Option<Projection>,
}

/// What has been gathered from the nodes seen so far.
pub struct Gathered {
    pub materials: Seq<u64>,
    pub triangles: Seq<TriangleInfo>,
    /// The node whose camera the scene is seen through.
    pub camera: Option<u32>,
}

/// The triangles of `primitive` as they are collected: numbered from
/// `base` on, all with the material index `material`.
pub open spec fn placed(primitive: Primitive, material: u32, base: int) -> Seq<TriangleInfo> {
    Seq::new(
        primitive.triangles@.len(),
        |i: int|
            TriangleInfo {
                triangle: Triangle { index: (base + i) as u32, material },
                aabb: primitive.triangles@[i].aabb,
                centroid: primitive.triangles@[i].centroid,
            },
    )
}

/// Gathering one primitive: its material is registered, its triangles are
/// appended. A material for which no index is left and triangles beyond
/// the limit are refused, in this order.
pub open spec fn add_primitive_spec(state: Gathered, primitive: Primitive) -> Result<
    Gathered,
    SceneError,
> {
    if !state.materials.contains(primitive.material) && state.materials.len() >= MAX_MATERIALS {
        Err(SceneError::TooManyMaterials)
    } else if state.triangles.len() + primitive.triangles@.len() > MAX_TRIANGLES {
        Err(SceneError::TooManyTriangles)
    } else {
        let materials = registered(state.materials, primitive.material);
        let material = materials.index_of(primitive.material) as u32;
        Ok(
            Gathered {
                materials,
                triangles: state.triangles + placed(
                    primitive,
                    material,
                    state.triangles.len() as int,
                ),
                camera: state.camera,
            },
        )
    }
}

/// Gathering primitives one after the other, up to the first that is
/// refused.
pub open spec fn add_primitives_spec(state: Gathered, primitives: Seq<Primitive>) -> Result<
    Gathered,
    SceneError,
>
    decreases primitives.len(),
{
    if primitives.len() == 0 {
        Ok(state)
    } else {
        match add_primitives_spec(state, primitives.drop_last()) {
            Ok(before) => add_primitive_spec(before, primitives.last()),
            Err(e) => Err(e),
        }
    }
}

/// Gathering one node. A camera that is not a perspective camera is
/// refused before anything else, wherever it stands. The first perspective
/// camera is the camera of the scene; later ones are passed over.
pub open spec fn load_node_spec(state: Gathered, node: Node) -> Result<Gathered, SceneError> {
    if node.camera == Some(Projection::Orthographic) {
        Err(SceneError::UnsupportedCamera)
    } else {
        match add_primitives_spec(state, node.primitives@) {
            Ok(with_mesh) => Ok(
                Gathered {
                    camera: if with_mesh.camera is None && node.camera is Some {
                        Some(node.id)
                    } else {
                        with_mesh.camera
                    },
                    ..with_mesh
                },
            ),
            Err(e) => Err(e),
        }
    }
}

/// Gathering nodes one after the other, up to the first that is refused.
pub open spec fn load_nodes_spec(state: Gathered, nodes: Seq<Node>) -> Result<Gathered, SceneError>
    decreases nodes.len(),
{
    if nodes.len() == 0 {
        Ok(state)
    } else {
        match load_nodes_spec(state, nodes.drop_last()) {
            Ok(before) => load_node_spec(before, nodes.last()),
            Err(e) => Err(e),
        }
    }
}

/// Nothing gathered yet.
pub open spec fn nothing_gathered() -> Gathered {
    Gathered { materials: Seq::empty(), triangles: Seq::empty(), camera: None }
}

/// The triangles of `infos`, in their order.
pub open spec fn triangles_of(infos: Seq<TriangleInfo>) -> Seq<Triangle> {
    Seq::new(infos.len(), |i: int| infos[i].triangle)
}

/// What the trace pass reads of the geometry: the triangles in the order
/// that the leaves of the hierarchy refer to, and the flattened hierarchy.
pub struct SceneBuffers {
    pub bvh: Bvh,
    pub triangles: Vec<Triangle>,
    pub nodes: Vec<BvhNode>,
}

/// A scene ready for the trace pass.
pub struct Scene {
    pub materials: Materials,
    /// The node whose camera the scene is seen through, if it has one.
    pub camera: Option<u32>,
    /// The triangles in the order that the hierarchy left them in.
    pub triangle_infos: Vec<TriangleInfo>,
    pub buffers: SceneBuffers,
}

impl Scene {
    /// Gathers the nodes and builds the hierarchy over their triangles.
    pub fn new(nodes: &Vec<Node>) -> (scene: Result<Scene, SceneError>)
        ensures
            match load_nodes_spec(nothing_gathered(), nodes@) {
                Ok(gathered) => {
                    &&& scene matches Ok(made)
                    &&& made.materials@ == gathered.materials
                    &&& made.camera == gathered.camera
                    &&& made.triangle_infos@.to_multiset() == gathered.triangles.to_multiset()
                    &&& made.buffers.bvh.tree().well_formed(made.triangle_infos@)
                    &&& made.buffers.bvh.tree().first() == 0
                    &&& made.buffers.bvh.tree().end() == made.triangle_infos@.len()
                    &&& made.buffers.triangles@ == triangles_of(made.triangle_infos@)
                    &&& made.buffers.nodes@ == flatten_spec(made.buffers.bvh.tree(), 0)
                },
                Err(e) => scene matches Err(refused) && refused == e,
            },
    {
        let mut materials = Materials::new();
        let mut triangle_infos: Vec<TriangleInfo> = Vec::new();
        let mut camera: Option<u32> = None;
        let mut i: usize = 0;
        while i < nodes.len()
            invariant
                i <= nodes@.len(),
                triangle_infos@.len() <= MAX_TRIANGLES,
                load_nodes_spec(nothing_gathered(), nodes@.take(i as int)) == Ok::<
                    Gathered,
                    SceneError,
                >(Gathered { materials: materials@, triangles: triangle_infos@, camera }),
            decreases nodes@.len() - i,
        {
            proof {
                assert(nodes@.take(i + 1).drop_last() =~= nodes@.take(i as int));
                lemma_refusal_is_final(nodes@.take(i + 1), nodes@);
            }
            match Self::load_nodes(&mut materials, &mut triangle_infos, &mut camera, &nodes[i]) {
                Ok(()) => {},
                Err(e) => {
                    return Err(e);
                },
            }
            i += 1;
        }
        proof {
            assert(nodes@.take(i as int) =~= nodes@);
        }
        let buffers = Self::build(&mut triangle_infos);
        Ok(Scene { materials, camera, triangle_infos, buffers })
    }

    /// Gathers one node into what has been gathered so far.
    fn load_nodes(
        materials: &mut Materials,
        triangle_infos: &mut Vec<TriangleInfo>,
        camera: &mut Option<u32>,
        node: &Node,
    ) -> (result: Result<(), SceneError>)
        requires
            old(triangle_infos)@.len() <= MAX_TRIANGLES,
        ensures
            final(triangle_infos)@.len() <= MAX_TRIANGLES,
            match load_node_spec(
                Gathered {
                    materials: old(materials)@,
                    triangles: old(triangle_infos)@,
                    camera: *old(camera),
                },
                *node,
            ) {
                Ok(gathered) => {
                    &&& result is Ok
                    &&& gathered == Gathered {
                        materials: final(materials)@,
                        triangles: final(triangle_infos)@,
                        camera: *final(camera),
                    }
                },
                Err(e) => result == Err::<(), SceneError>(e),
            },
    {
        match node.camera {
            Some(Projection::Orthographic) => {
                return Err(SceneError::UnsupportedCamera);
            },
            _ => {},
        }
        let ghost start = Gathered {
            materials: materials@,
            triangles: triangle_infos@,
            camera: *camera,
        };
        let mut i: usize = 0;
        while i < node.primitives.len()
            invariant
                i <= node.primitives@.len(),
                triangle_infos@.len() <= MAX_TRIANGLES,
                node.camera != Some(Projection::Orthographic),
                *camera == *old(camera),
                start == (Gathered {
                    materials: old(materials)@,
                    triangles: old(triangle_infos)@,
                    camera: *old(camera),
                }),
                add_primitives_spec(start, node.primitives@.take(i as int)) == Ok::<
                    Gathered,
                    SceneError,
                >(
                    Gathered {
                        materials: materials@,
                        triangles: triangle_infos@,
                        camera: start.camera,
                    },
                ),
            decreases node.primitives@.len() - i,
        {
            proof {
                assert(node.primitives@.take(i + 1).drop_last() =~= node.primitives@.take(i as int));
                lemma_primitive_refusal_is_final(
                    start,
                    node.primitives@.take(i + 1),
                    node.primitives@,
                );
            }
            let ghost seen = Gathered {
                materials: materials@,
                triangles: triangle_infos@,
                camera: start.camera,
            };
            let added = Self::add_primitive(materials, triangle_infos, &node.primitives[i]);
            proof {
                assert(node.primitives@.take(i + 1).last() == node.primitives@[i as int]);
                assert(add_primitives_spec(start, node.primitives@.take(i + 1))
                    == add_primitive_spec(seen, node.primitives@[i as int]));
            }
            match added {
                Ok(()) => {},
                Err(e) => {
                    return Err(e);
                },
            }
            i += 1;
        }
        proof {
            assert(node.primitives@.take(i as int) =~= node.primitives@);
        }
        if camera.is_none() && node.camera.is_some() {
            *camera = Some(node.id);
        }
        Ok(())
    }

    /// Registers the material of `primitive` and appends its triangles.
    fn add_primitive(
        materials: &mut Materials,
        triangle_infos: &mut Vec<TriangleInfo>,
        primitive: &Primitive,
    ) -> (result: Result<(), SceneError>)
        requires
            old(triangle_infos)@.len() <= MAX_TRIANGLES,
        ensures
            final(triangle_infos)@.len() <= MAX_TRIANGLES,
            forall|camera: Option<u32>|
                match #[trigger] add_primitive_spec(
                    Gathered {
                        materials: old(materials)@,
                        triangles: old(triangle_infos)@,
                        camera,
                    },
                    *primitive,
                ) {
                    Ok(gathered) => {
                        &&& result is Ok
                        &&& gathered == Gathered {
                            materials: final(materials)@,
                            triangles: final(triangle_infos)@,
                            camera,
                        }
                    },
                    Err(e) => result == Err::<(), SceneError>(e),
                },
    {
        let material = match materials.add(primitive.material) {
            Some(index) => index,
            None => {
                return Err(SceneError::TooManyMaterials);
            },
        };
        let base = triangle_infos.len();
        let count = primitive.triangles.len();
        if count > MAX_TRIANGLES - base {
            return Err(SceneError::TooManyTriangles);
        }
        let ghost before = triangle_infos@;
        let mut i: usize = 0;
        while i < count
            invariant
                i <= count == primitive.triangles@.len(),
                base + count <= MAX_TRIANGLES,
                base == before.len(),
                triangle_infos@ == before + placed(*primitive, material, base as int).take(i as int),
            decreases count - i,
        {
            let bounds = primitive.triangles[i];
            triangle_infos.push(
                TriangleInfo {
                    triangle: Triangle { index: (base + i) as u32, material },
                    aabb: bounds.aabb,
                    centroid: bounds.centroid,
                },
            );
            proof {
                let all = placed(*primitive, material, base as int);
                assert(all.take(i + 1) =~= all.take(i as int).push(all[i as int]));
                assert(triangle_infos@ =~= before + all.take(i + 1));
            }
            i += 1;
        }
        proof {
            let all = placed(*primitive, material, base as int);
            assert(all.take(count as int) =~= all);
        }
        Ok(())
    }

    /// Builds the hierarchy over `triangle_infos`, which it reorders, and
    /// lays out what the trace pass reads.
    pub fn build(triangle_infos: &mut Vec<TriangleInfo>) -> (buffers: SceneBuffers)
        requires
            old(triangle_infos)@.len() <= MAX_TRIANGLES,
        ensures
            final(triangle_infos)@.len() == old(triangle_infos)@.len(),
            final(triangle_infos)@.to_multiset() == old(triangle_infos)@.to_multiset(),
            buffers.bvh.tree().well_formed(final(triangle_infos)@),
            buffers.bvh.tree().first() == 0,
            buffers.bvh.tree().end() == final(triangle_infos)@.len(),
            buffers.triangles@ == triangles_of(final(triangle_infos)@),
            buffers.nodes@ == flatten_spec(buffers.bvh.tree(), 0),
    {
        let bvh = Bvh::new(triangle_infos);
        let mut triangles: Vec<Triangle> = Vec::new();
        let mut i: usize = 0;
        while i < triangle_infos.len()
            invariant
                i <= triangle_infos@.len(),
                triangles@ == triangles_of(triangle_infos@).take(i as int),
            decreases triangle_infos@.len() - i,
        {
            triangles.push(triangle_infos[i].triangle);
            proof {
                let all = triangles_of(triangle_infos@);
                assert(all.take(i + 1) =~= all.take(i as int).push(all[i as int]));
            }
            i += 1;
        }
        proof {
            let all = triangles_of(triangle_infos@);
            assert(all.take(i as int) =~= all);
        }
        let nodes = bvh.flatten();
        SceneBuffers { bvh, triangles, nodes }
    }
}

/// Once a primitive has been refused, the refusal stands, whatever
/// follows.
proof fn lemma_primitive_refusal_is_final(
    state: Gathered,
    seen: Seq<Primitive>,
    all: Seq<Primitive>,
)
    requires
        seen.is_prefix_of(all),
    ensures
        add_primitives_spec(state, seen) is Err ==> add_primitives_spec(state, all)
            == add_primitives_spec(state, seen),
    decreases all.len(),
{
    if add_primitives_spec(state, seen) is Err {
        if seen.len() < all.len() {
            assert(seen.is_prefix_of(all.drop_last()));
            lemma_primitive_refusal_is_final(state, seen, all.drop_last());
        } else {
            assert(seen =~= all);
        }
    }
}

/// Once a node has been refused, the refusal stands, whatever follows.
proof fn lemma_refusal_is_final(seen: Seq<Node>, all: Seq<Node>)
    requires
        seen.is_prefix_of(all),
    ensures
        load_nodes_spec(nothing_gathered(), seen) is Err ==> load_nodes_spec(nothing_gathered(), all)
            == load_nodes_spec(nothing_gathered(), seen),
    decreases all.len(),
{
    if load_nodes_spec(nothing_gathered(), seen) is Err {
        if seen.len() < all.len() {
            assert(seen.is_prefix_of(all.drop_last()));
            lemma_refusal_is_final(seen, all.drop_last());
        } else {
            assert(seen =~= all);
        }
    }
}

} // verus!
