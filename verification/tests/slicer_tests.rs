//! Tests of the segment and triangle intersectors and of the comparator.
//!
//! Coordinates are fixed-point: one unit is 1e-6 of the original model unit,
//! so 0.5 becomes 500_000 and the customary tolerance 1e-6 becomes 1.

use slicer::compare::{compare_by_xyz, Ordering};
use slicer::point::{Edge, Point, Triangle};
use slicer::segment::slice_segment;
use slicer::triangle::slice_triangle;

/// One model unit in fixed-point coordinates.
const ONE: i64 = 1_000_000;

/// The customary tolerance, 1e-6 model units.
const TOL: i64 = 1;

fn units(v: f64) -> i64 {
    (v * 1_000_000.0).round() as i64
}

#[test]
fn test_slice_segment_orthogonal() {
    let line = Edge::new(Point::new(0, 0, 0), Point::new(0, ONE, 0));
    let current_layer_height = units(0.5);
    let intersections = slice_segment(&line, current_layer_height, TOL);
    assert_eq!(intersections.len(), 1);
    assert_eq!(intersections[0], Point::new(0, units(0.5), 0));
}

#[test]
fn test_slice_segment_parallel() {
    let line = Edge::new(Point::new(0, 0, 0), Point::new(ONE, 0, 0));
    let current_layer_height = 0;
    let intersections = slice_segment(&line, current_layer_height, TOL);
    assert_eq!(intersections.len(), 2);
    assert_eq!(intersections[0], Point::new(0, 0, 0));
    assert_eq!(intersections[1], Point::new(ONE, 0, 0));
}

#[test]
fn test_slice_segment_intersection() {
    let line = Edge::new(Point::new(0, 0, 0), Point::new(ONE, ONE, ONE));
    let current_layer_height = units(0.5);
    let intersections = slice_segment(&line, current_layer_height, TOL);
    assert_eq!(intersections.len(), 1);
    assert_eq!(intersections[0], Point::new(units(0.5), units(0.5), units(0.5)));
}

#[test]
fn test_slice_segment_no_intersection() {
    let line = Edge::new(Point::new(0, 0, 0), Point::new(ONE, 0, 0));
    let current_layer_height = units(1.5);
    let intersections = slice_segment(&line, current_layer_height, TOL);
    assert_eq!(intersections.len(), 0);

    let line = Edge::new(Point::new(0, 0, 0), Point::new(0, ONE, 0));
    let current_layer_height = units(1.5);
    let intersections = slice_segment(&line, current_layer_height, TOL);
    assert_eq!(intersections.len(), 0);
}

#[test]
fn test_slice_triangle_parallel() {
    let triangle = Triangle::new(
        Point::new(0, 0, 0),
        Point::new(ONE, 0, 0),
        Point::new(0, 0, ONE),
    );
    let current_layer_height = 0;
    let intersections = slice_triangle(&triangle, current_layer_height, TOL);
    assert_eq!(intersections.len(), 3);
    assert_eq!(intersections[0], Point::new(0, 0, 0));
    assert_eq!(intersections[1], Point::new(0, 0, ONE));
    assert_eq!(intersections[2], Point::new(ONE, 0, 0));
}

#[test]
fn test_slice_triangle_orthogonal() {
    let triangle = Triangle::new(
        Point::new(0, 0, 0),
        Point::new(ONE, 0, 0),
        Point::new(0, ONE, 0),
    );
    let current_layer_height = units(0.5);
    let intersections = slice_triangle(&triangle, current_layer_height, TOL);
    assert_eq!(intersections.len(), 2);
    assert_eq!(intersections[0], Point::new(0, units(0.5), 0));
    assert_eq!(intersections[1], Point::new(units(0.5), units(0.5), 0));

    let triangle = Triangle::new(
        Point::new(0, 0, 0),
        Point::new(ONE, 0, 0),
        Point::new(units(0.5), ONE, 0),
    );
    let current_layer_height = units(0.5);
    let intersections = slice_triangle(&triangle, current_layer_height, TOL);
    assert_eq!(intersections.len(), 2);
    assert_eq!(intersections[0], Point::new(units(0.25), units(0.5), 0));
    assert_eq!(intersections[1], Point::new(units(0.75), units(0.5), 0));
}

#[test]
fn test_compare_by_xyz() {
    let a = Point::new(0, 0, 0);
    let b = Point::new(0, 0, 0);
    let max_abs_diff = units(0.00001);
    assert_eq!(compare_by_xyz(&a, &b, max_abs_diff), Ordering::Equal);

    let a = Point::new(0, 0, 0);
    let b = Point::new(0, 0, units(0.0001));
    let max_abs_diff = units(0.0001);
    assert_eq!(compare_by_xyz(&a, &b, max_abs_diff), Ordering::Equal);

    let a = Point::new(0, 0, 0);
    let b = Point::new(0, 0, units(0.0001));
    let max_abs_diff = units(0.00001);
    assert_eq!(compare_by_xyz(&a, &b, max_abs_diff), Ordering::Less);

    let a = Point::new(0, 0, ONE);
    let b = Point::new(0, units(0.0001), ONE);
    let max_abs_diff = units(0.00001);
    assert_eq!(compare_by_xyz(&a, &b, max_abs_diff), Ordering::Less);

    let a = Point::new(0, ONE, 0);
    let b = Point::new(0, 0, 0);
    let max_abs_diff = units(0.00001);
    assert_eq!(compare_by_xyz(&a, &b, max_abs_diff), Ordering::Greater);

    let a = Point::new(ONE, ONE, ONE);
    let b = Point::new(0, ONE, ONE);
    let max_abs_diff = units(0.00001);
    assert_eq!(compare_by_xyz(&a, &b, max_abs_diff), Ordering::Greater);
}
