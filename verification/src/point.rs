//! Value types of the kernel: points, edges and triangles over fixed-point
//! integer coordinates.

use vstd::prelude::*;

verus! {

/// Largest coordinate magnitude the kernel accepts.
///
/// Keeping every coordinate and the layer height within this bound lets the
/// interpolation arithmetic run in 128-bit integers without overflow. At a
/// micrometer per unit this still spans about seventy thousand kilometers.
pub const COORD_LIMIT: i64 = 0x4000_0000_0000;

/// An immutable 3-component point. The `y` axis is the build direction:
/// slicing planes are horizontal planes `y = h`.
#[derive(Clone, Copy, PartialEq, Eq, Structural, Debug)]
pub struct Point {
    pub x: i64,
    pub y: i64,
    pub z: i64,
}

/// An ordered pair of points, one side of a triangle. The order matters for
/// the output order of the coplanar case, not for intersection correctness.
#[derive(Clone, Copy, PartialEq, Eq, Structural, Debug)]
pub struct Edge {
    pub start: Point,
    pub end: Point,
}

/// An ordered triple of vertices; edges are `(v0,v1)`, `(v1,v2)`, `(v2,v0)`.
#[derive(Clone, Copy, PartialEq, Eq, Structural, Debug)]
pub struct Triangle {
    pub v0: Point,
    pub v1: Point,
    pub v2: Point,
}

pub open spec fn coord_in_range(c: i64) -> bool {
    -COORD_LIMIT <= c <= COORD_LIMIT
}

pub open spec fn point_in_range(p: Point) -> bool {
    coord_in_range(p.x) && coord_in_range(p.y) && coord_in_range(p.z)
}

pub open spec fn edge_in_range(e: Edge) -> bool {
    point_in_range(e.start) && point_in_range(e.end)
}

pub open spec fn triangle_in_range(t: Triangle) -> bool {
    point_in_range(t.v0) && point_in_range(t.v1) && point_in_range(t.v2)
}

/// `p` with its `y` component replaced by the layer height.
pub open spec fn with_height(p: Point, h: i64) -> Point {
    Point { x: p.x, y: h, z: p.z }
}

impl Point {
    pub fn new(x: i64, y: i64, z: i64) -> (r: Point)
        ensures
            r == (Point { x, y, z }),
    {
        Point { x, y, z }
    }
}

impl Edge {
    pub fn new(start: Point, end: Point) -> (r: Edge)
        ensures
            r == (Edge { start, end }),
    {
        Edge { start, end }
    }
}

impl Triangle {
    pub fn new(v0: Point, v1: Point, v2: Point) -> (r: Triangle)
        ensures
            r == (Triangle { v0, v1, v2 }),
    {
        Triangle { v0, v1, v2 }
    }
}

} // verus!
