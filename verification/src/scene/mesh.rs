//! Expanding the index data of a mesh primitive into triangles.

use vstd::prelude::*;
use crate::scene::SceneError;

verus! {

/// How the vertices of a mesh primitive are joined.
#[derive(Clone, Copy, Debug, PartialEq, Eq, Structural)]
pub enum Topology {
    Points,
    Lines,
    LineLoop,
    LineStrip,
    Triangles,
    TriangleStrip,
    TriangleFan,
}

/// The indices by which a primitive names its vertices: its index list
/// where it has one, else every vertex once in ascending order.
pub open spec fn index_list(indices: Option<Seq<u32>>, vertex_count: u32) -> Seq<u32> {
    match indices {
        Some(list) => list,
        None => Seq::new(vertex_count as nat, |k: int| k as u32),
    }
}

/// The triangles of a triangle list: each three indices in a row give the
/// corners of one. One or two indices left over at the end give none.
pub open spec fn corners_of(list: Seq<u32>) -> Seq<(u32, u32, u32)> {
    Seq::new((list.len() / 3) as nat, |i: int| (list[3 * i], list[3 * i + 1], list[3 * i + 2]))
}

/// Whether every index of `list` names one of `vertex_count` vertices.
pub open spec fn names_vertices(list: Seq<u32>, vertex_count: u32) -> bool {
    forall|k: int| 0 <= k < list.len() ==> list[k] < vertex_count
}

/// The corners of the triangles of a primitive, as indices of its vertices.
///
/// Only triangle lists are expanded; every other topology is refused. An
/// index that names no vertex is refused too.
pub fn triangulate(topology: Topology, indices: Option<&Vec<u32>>, vertex_count: u32) -> (result:
    Result<Vec<(u32, u32, u32)>, SceneError>)
    ensures
        ({
            let list = index_list(
                match indices {
                    Some(given) => Some(given@),
                    None => None,
                },
                vertex_count,
            );
            if topology != Topology::Triangles {
                result == Err::<Vec<(u32, u32, u32)>, SceneError>(SceneError::UnsupportedTopology)
            } else if !names_vertices(list, vertex_count) {
                result == Err::<Vec<(u32, u32, u32)>, SceneError>(SceneError::IndexOutOfRange)
            } else {
                result matches Ok(corners) && corners@ == corners_of(list)
            }
        }),
{
    match topology {
        Topology::Triangles => {},
        _ => {
            return Err(SceneError::UnsupportedTopology);
        },
    }
    let mut corners: Vec<(u32, u32, u32)> = Vec::new();
    match indices {
        Some(given) => {
            let ghost list = given@;
            let mut k: usize = 0;
            while k < given.len()
                invariant
                    k <= given@.len(),
                    list == given@,
                    indices == Some(given),
                    topology == Topology::Triangles,
                    forall|j: int| 0 <= j < k ==> list[j] < vertex_count,
                decreases given@.len() - k,
            {
                if given[k] >= vertex_count {
                    return Err(SceneError::IndexOutOfRange);
                }
                k += 1;
            }
            let len = given.len();
            let count = len / 3;
            let mut i: usize = 0;
            while i < count
                invariant
                    i <= count == len / 3,
                    len == given@.len(),
                    list == given@,
                    corners@ == corners_of(list).take(i as int),
                decreases count - i,
            {
                corners.push((given[3 * i], given[3 * i + 1], given[3 * i + 2]));
                proof {
                    let all = corners_of(list);
                    assert(all.take(i + 1) =~= all.take(i as int).push(all[i as int]));
                }
                i += 1;
            }
            proof {
                assert(corners_of(list).take(count as int) =~= corners_of(list));
            }
        },
        None => {
            let ghost list = index_list(None, vertex_count);
            let count = vertex_count / 3;
            let mut i: u32 = 0;
            while i < count
                invariant
                    i <= count == vertex_count / 3,
                    list == index_list(None, vertex_count),
                    corners@ == corners_of(list).take(i as int),
                decreases count - i,
            {
                corners.push((3 * i, 3 * i + 1, 3 * i + 2));
                proof {
                    let all = corners_of(list);
                    assert(all.take(i + 1) =~= all.take(i as int).push(all[i as int]));
                }
                i += 1;
            }
            proof {
                assert(corners_of(list).take(count as int) =~= corners_of(list));
            }
        },
    }
    Ok(corners)
}

/// Expanding a triangle list uses every index at most once and keeps the
/// order: corner `c` of triangle `i` is index `3 * i + c` of the list.
pub proof fn lemma_corners_follow_the_list(list: Seq<u32>, i: int)
    requires
        0 <= i < corners_of(list).len(),
    ensures
        3 * i + 2 < list.len(),
        corners_of(list)[i] == (list[3 * i], list[3 * i + 1], list[3 * i + 2]),
        corners_of(list).len() == list.len() / 3,
{
}

} // verus!
