//! The fixed cube: eight corners one unit from the center in every
//! coordinate, and twelve edges as index pairs into the corner list.

use vstd::prelude::*;
use crate::fixed::SCALE;
use crate::geom::{V3m, Vector3};

verus! {

/// How many corners the cube has.
pub const CUBE_VERTICES: usize = 8;

/// How many edges the cube has.
pub const CUBE_EDGES: usize = 12;

/// One corner of the canonical cube, in local space.
pub open spec fn cube_vertex_m(i: int) -> V3m {
    let s = SCALE as int;
    if i == 0 {
        V3m { x: -s, y: s, z: s }
    } else if i == 1 {
        V3m { x: s, y: s, z: s }
    } else if i == 2 {
        V3m { x: s, y: s, z: -s }
    } else if i == 3 {
        V3m { x: -s, y: s, z: -s }
    } else if i == 4 {
        V3m { x: -s, y: -s, z: s }
    } else if i == 5 {
        V3m { x: s, y: -s, z: s }
    } else if i == 6 {
        V3m { x: s, y: -s, z: -s }
    } else {
        V3m { x: -s, y: -s, z: -s }
    }
}

/// Endpoint indices of one edge: four around the top face, four around the
/// bottom face, four vertical.
pub open spec fn cube_edge_m(i: int) -> (int, int) {
    if i == 0 {
        (0, 1)
    } else if i == 1 {
        (1, 2)
    } else if i == 2 {
        (2, 3)
    } else if i == 3 {
        (3, 0)
    } else if i == 4 {
        (4, 5)
    } else if i == 5 {
        (5, 6)
    } else if i == 6 {
        (6, 7)
    } else if i == 7 {
        (7, 4)
    } else if i == 8 {
        (0, 4)
    } else if i == 9 {
        (1, 5)
    } else if i == 10 {
        (2, 6)
    } else {
        (3, 7)
    }
}

/// The corner with the given index.
pub fn cube_vertex(i: usize) -> (r: Vector3)
    requires
        i < 8,
    ensures
        r@ == cube_vertex_m(i as int),
{
    if i == 0 {
        Vector3 { x: -SCALE, y: SCALE, z: SCALE }
    } else if i == 1 {
        Vector3 { x: SCALE, y: SCALE, z: SCALE }
    } else if i == 2 {
        Vector3 { x: SCALE, y: SCALE, z: -SCALE }
    } else if i == 3 {
        Vector3 { x: -SCALE, y: SCALE, z: -SCALE }
    } else if i == 4 {
        Vector3 { x: -SCALE, y: -SCALE, z: SCALE }
    } else if i == 5 {
        Vector3 { x: SCALE, y: -SCALE, z: SCALE }
    } else if i == 6 {
        Vector3 { x: SCALE, y: -SCALE, z: -SCALE }
    } else {
        Vector3 { x: -SCALE, y: -SCALE, z: -SCALE }
    }
}

/// The endpoint indices of the edge with the given index.
pub fn cube_edge(i: usize) -> (r: (usize, usize))
    requires
        i < 12,
    ensures
        r.0 as int == cube_edge_m(i as int).0,
        r.1 as int == cube_edge_m(i as int).1,
        r.0 < 8,
        r.1 < 8,
{
    if i == 0 {
        (0, 1)
    } else if i == 1 {
        (1, 2)
    } else if i == 2 {
        (2, 3)
    } else if i == 3 {
        (3, 0)
    } else if i == 4 {
        (4, 5)
    } else if i == 5 {
        (5, 6)
    } else if i == 6 {
        (6, 7)
    } else if i == 7 {
        (7, 4)
    } else if i == 8 {
        (0, 4)
    } else if i == 9 {
        (1, 5)
    } else if i == 10 {
        (2, 6)
    } else {
        (3, 7)
    }
}

/// Every edge joins two distinct corners of the cube.
pub proof fn lemma_edges_well_formed(i: int)
    requires
        0 <= i < 12,
    ensures
        0 <= cube_edge_m(i).0 < 8,
        0 <= cube_edge_m(i).1 < 8,
        cube_edge_m(i).0 != cube_edge_m(i).1,
{
}

} // verus!
