//! Tests of the kernel's stated properties on concrete values: the three
//! segment cases, the forced y component, sortedness and deduplication of
//! the triangle output, and behaviour at the coordinate bounds.

use slicer::compare::{approx_equal, compare_by_xyz, Ordering};
use slicer::point::{Edge, Point, Triangle, COORD_LIMIT};
use slicer::segment::slice_segment;
use slicer::triangle::slice_triangle;

const ONE: i64 = 1_000_000;
const TOL: i64 = 1;

#[test]
fn coplanar_edge_returns_endpoints_in_order() {
    // Direction y within tolerance of zero and start y within tolerance of
    // the plane: both endpoints come back, start first, y forced to h.
    let line = Edge::new(Point::new(ONE, 501, 7), Point::new(-ONE, 500, 9));
    let r = slice_segment(&line, 500, TOL);
    assert_eq!(r.len(), 2);
    assert_eq!(r[0], Point::new(ONE, 500, 7));
    assert_eq!(r[1], Point::new(-ONE, 500, 9));
}

#[test]
fn offset_parallel_edge_returns_empty() {
    let line = Edge::new(Point::new(0, 1000, 0), Point::new(ONE, 1000, 0));
    let r = slice_segment(&line, 0, TOL);
    assert_eq!(r.len(), 0);
}

#[test]
fn crossing_parameter_outside_unit_interval_returns_empty() {
    // The segment's line crosses the plane but the segment ends before it.
    let line = Edge::new(Point::new(0, ONE, 0), Point::new(0, 2 * ONE, 0));
    assert_eq!(slice_segment(&line, 0, TOL).len(), 0);
    let line = Edge::new(Point::new(0, 2 * ONE, 0), Point::new(0, ONE, 0));
    assert_eq!(slice_segment(&line, 0, TOL).len(), 0);
}

#[test]
fn crossing_point_interpolates_and_forces_y() {
    // t = 1/4 along the edge; x and z interpolate, y is exactly h.
    let line = Edge::new(Point::new(0, 0, -ONE), Point::new(ONE, 4 * ONE, ONE));
    let r = slice_segment(&line, ONE, TOL);
    assert_eq!(r.len(), 1);
    assert_eq!(r[0], Point::new(ONE / 4, ONE, -ONE / 2));
}

#[test]
fn vertex_touching_plane_is_included() {
    // t = 0 and t = 1 are inside the closed interval.
    let line = Edge::new(Point::new(3, 0, 5), Point::new(7, ONE, 5));
    let r = slice_segment(&line, 0, TOL);
    assert_eq!(r.len(), 1);
    assert_eq!(r[0], Point::new(3, 0, 5));
    let r = slice_segment(&line, ONE, TOL);
    assert_eq!(r.len(), 1);
    assert_eq!(r[0], Point::new(7, ONE, 5));
}

#[test]
fn triangle_output_is_sorted_and_deduplicated() {
    let triangle = Triangle::new(
        Point::new(2 * ONE, -ONE, 0),
        Point::new(-2 * ONE, -ONE, 0),
        Point::new(0, ONE, 0),
    );
    let r = slice_triangle(&triangle, 0, TOL);
    assert_eq!(r.len(), 2);
    for w in r.windows(2) {
        assert_eq!(compare_by_xyz(&w[0], &w[1], TOL), Ordering::Less);
    }
    assert_eq!(r[0], Point::new(-ONE, 0, 0));
    assert_eq!(r[1], Point::new(ONE, 0, 0));
}

#[test]
fn triangle_above_or_below_returns_empty() {
    let triangle = Triangle::new(
        Point::new(0, ONE, 0),
        Point::new(ONE, 2 * ONE, 0),
        Point::new(0, 3 * ONE, ONE),
    );
    assert_eq!(slice_triangle(&triangle, 0, TOL).len(), 0);
    assert_eq!(slice_triangle(&triangle, 4 * ONE, TOL).len(), 0);
}

#[test]
fn triangle_touching_plane_at_one_vertex_returns_that_vertex() {
    let triangle = Triangle::new(
        Point::new(0, 0, 0),
        Point::new(0, ONE, 0),
        Point::new(ONE, ONE, 0),
    );
    let r = slice_triangle(&triangle, 0, TOL);
    assert_eq!(r.len(), 1);
    assert_eq!(r[0], Point::new(0, 0, 0));
}

#[test]
fn nearby_crossings_collapse_through_dedup() {
    // A sliver triangle: the two crossing points land within tolerance of
    // each other and only one survives.
    let triangle = Triangle::new(
        Point::new(0, -ONE, 0),
        Point::new(1, -ONE, 0),
        Point::new(0, ONE, 0),
    );
    let r = slice_triangle(&triangle, 0, 10);
    assert_eq!(r.len(), 1);
    assert_eq!(r[0], Point::new(1, 0, 0));
}

#[test]
fn coplanar_vertices_get_y_forced_to_height() {
    // Vertices within tolerance of the plane but not exactly on it: every
    // returned point carries the queried height, never a recomputed value.
    let triangle = Triangle::new(
        Point::new(0, 501, 0),
        Point::new(ONE, 499, 0),
        Point::new(0, 500, ONE),
    );
    let r = slice_triangle(&triangle, 500, 2);
    assert_eq!(r.len(), 3);
    for p in &r {
        assert_eq!(p.y, 500);
    }
    assert_eq!(r[0], Point::new(0, 500, 0));
    assert_eq!(r[1], Point::new(0, 500, ONE));
    assert_eq!(r[2], Point::new(ONE, 500, 0));
}

#[test]
fn approx_equal_boundary_is_inclusive() {
    assert!(approx_equal(100, 103, 3));
    assert!(!approx_equal(100, 104, 3));
    assert!(approx_equal(-5, 5, 10));
    assert!(!approx_equal(-6, 5, 10));
    assert!(approx_equal(i64::MAX, i64::MIN, -1) == false);
}

#[test]
fn coordinates_at_the_bound_are_accepted() {
    let line = Edge::new(
        Point::new(COORD_LIMIT, -COORD_LIMIT, COORD_LIMIT),
        Point::new(COORD_LIMIT, COORD_LIMIT, -COORD_LIMIT),
    );
    let r = slice_segment(&line, 0, TOL);
    assert_eq!(r.len(), 1);
    assert_eq!(r[0], Point::new(COORD_LIMIT, 0, 0));
}

#[test]
fn interpolation_rounds_toward_the_start() {
    // 1/3 of the way up an edge whose x spans one unit: the offset truncates
    // toward the start from either direction.
    let up = Edge::new(Point::new(0, 0, 0), Point::new(1, 3, 0));
    let r = slice_segment(&up, 1, 0);
    assert_eq!(r[0], Point::new(0, 1, 0));
    let down = Edge::new(Point::new(1, 3, 0), Point::new(0, 0, 0));
    let r = slice_segment(&down, 1, 0);
    assert_eq!(r[0], Point::new(1, 1, 0));
}

#[test]
fn zero_tolerance_compares_exactly() {
    let a = Point::new(0, 0, 0);
    let b = Point::new(0, 0, 1);
    assert_eq!(compare_by_xyz(&a, &b, 0), Ordering::Less);
    assert_eq!(compare_by_xyz(&b, &a, 0), Ordering::Greater);
    assert_eq!(compare_by_xyz(&a, &a, 0), Ordering::Equal);
}
