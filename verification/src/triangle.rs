//! Triangle–plane intersector: decomposes a triangle into its three edges in
//! winding order, intersects each with the plane, then sorts and
//! deduplicates the combined result.

use vstd::prelude::*;

use crate::compare::{compare_spec, points_separated, Ordering};
use crate::normalize::{
    all_separated, dedup_points, dedup_spec, lemma_dedup_properties, lemma_dedup_separated,
    lemma_sort_adjacent_sorted, lemma_sort_contains, lemma_strictly_sorted_global, sort_points,
    sort_spec, strictly_sorted,
};
use crate::point::{coord_in_range, point_in_range, triangle_in_range, Edge, Point, Triangle};
use crate::segment::{slice_segment, slice_segment_spec};

verus! {

/// First edge of the winding order, `(v0, v1)`.
pub open spec fn edge01(t: Triangle) -> Edge {
    Edge { start: t.v0, end: t.v1 }
}

/// Second edge of the winding order, `(v1, v2)`.
pub open spec fn edge12(t: Triangle) -> Edge {
    Edge { start: t.v1, end: t.v2 }
}

/// Third edge of the winding order, `(v2, v0)`.
pub open spec fn edge20(t: Triangle) -> Edge {
    Edge { start: t.v2, end: t.v0 }
}

/// The per-edge intersection points, concatenated in winding order before
/// any cross-edge ordering is imposed.
pub open spec fn candidates(t: Triangle, h: i64, tol: i64) -> Seq<Point> {
    slice_segment_spec(edge01(t), h, tol) + slice_segment_spec(edge12(t), h, tol)
        + slice_segment_spec(edge20(t), h, tol)
}

/// What `slice_triangle` returns: the concatenated per-edge points, sorted
/// by the tolerance comparator and deduplicated against the last kept point.
pub open spec fn slice_triangle_spec(t: Triangle, h: i64, tol: i64) -> Seq<Point> {
    dedup_spec(sort_spec(candidates(t, h, tol), tol as int), tol as int)
}

/// The whole triangle lies strictly above the plane, beyond tolerance.
pub open spec fn above_plane(t: Triangle, h: i64, tol: i64) -> bool {
    t.v0.y - h > tol && t.v1.y - h > tol && t.v2.y - h > tol
}

/// The whole triangle lies strictly below the plane, beyond tolerance.
pub open spec fn below_plane(t: Triangle, h: i64, tol: i64) -> bool {
    h - t.v0.y > tol && h - t.v1.y > tol && h - t.v2.y > tol
}

/// An edge both of whose endpoints are beyond tolerance on the same side of
/// the plane contributes no intersection point.
pub proof fn lemma_edge_misses(e: Edge, h: i64, tol: i64)
    requires
        tol >= 0,
        (e.start.y - h > tol && e.end.y - h > tol) || (h - e.start.y > tol && h - e.end.y > tol),
    ensures
        slice_segment_spec(e, h, tol) =~= Seq::<Point>::empty(),
{
}

/// Intersects a triangle with the horizontal plane at the given layer
/// height.
///
/// The result is the concatenation of the three per-edge intersections in
/// winding order, sorted by `compare_spec` and deduplicated: no kept point
/// is within tolerance of the point kept just before it. Every returned
/// point has its y component exactly at the layer height and stays within
/// the coordinate range. A triangle entirely above or entirely below the
/// plane, beyond tolerance, yields no points.
pub fn slice_triangle(triangle: &Triangle, current_layer_height: i64, tol: i64) -> (r: Vec<Point>)
    requires
        tol >= 0,
        triangle_in_range(*triangle),
        coord_in_range(current_layer_height),
    ensures
        r@ == slice_triangle_spec(*triangle, current_layer_height, tol),
        forall|i: int| 0 <= i < r@.len() ==> (#[trigger] r@[i]).y == current_layer_height,
        forall|i: int| 0 <= i < r@.len() ==> point_in_range(#[trigger] r@[i]),
        forall|i: int|
            0 <= i < r@.len() - 1 ==> #[trigger] compare_spec(r@[i], r@[i + 1], tol as int)
                != Ordering::Equal,
        above_plane(*triangle, current_layer_height, tol) ==> r@.len() == 0,
        below_plane(*triangle, current_layer_height, tol) ==> r@.len() == 0,
        all_separated(candidates(*triangle, current_layer_height, tol), tol as int)
            ==> strictly_sorted(r@, tol as int),
        all_separated(candidates(*triangle, current_layer_height, tol), tol as int) ==> (forall|
            i: int,
            j: int,
        |
            0 <= i < j < r@.len() ==> #[trigger] compare_spec(r@[i], r@[j], tol as int)
                == Ordering::Less),
{
    let edge0 = Edge { start: triangle.v0, end: triangle.v1 };
    let edge1 = Edge { start: triangle.v1, end: triangle.v2 };
    let edge2 = Edge { start: triangle.v2, end: triangle.v0 };
    let mut intersections = slice_segment(&edge0, current_layer_height, tol);
    let mut from_edge1 = slice_segment(&edge1, current_layer_height, tol);
    let mut from_edge2 = slice_segment(&edge2, current_layer_height, tol);
    let ghost part0 = intersections@;
    let ghost part1 = from_edge1@;
    let ghost part2 = from_edge2@;
    intersections.append(&mut from_edge1);
    intersections.append(&mut from_edge2);
    let ghost cands = candidates(*triangle, current_layer_height, tol);
    proof {
        assert(intersections@ == cands);
    }
    let sorted = sort_points(intersections, tol);
    let result = dedup_points(&sorted, tol);
    proof {
        let t = tol as int;
        lemma_sort_contains(cands, t);
        lemma_sort_adjacent_sorted(cands, t);
        lemma_dedup_properties(sorted@, t);
        assert forall|i: int| 0 <= i < result@.len() implies (#[trigger] result@[i]).y
            == current_layer_height && point_in_range(result@[i]) by {
            assert(result@.contains(result@[i]));
            assert(sorted@.contains(result@[i]));
            assert(cands.contains(result@[i]));
            let j = choose|j: int| 0 <= j < cands.len() && cands[j] == result@[i];
            if j < part0.len() {
                assert(cands[j] == part0[j]);
            } else if j < part0.len() + part1.len() {
                assert(cands[j] == part1[j - part0.len()]);
            } else {
                assert(cands[j] == part2[j - part0.len() - part1.len()]);
            }
        }
        if all_separated(cands, t) {
            assert(all_separated(sorted@, t)) by {
                assert forall|i: int, j: int|
                    0 <= i < sorted@.len() && 0 <= j < sorted@.len() implies #[trigger]
                    points_separated(sorted@[i], sorted@[j], t) by {
                    assert(sorted@.contains(sorted@[i]));
                    assert(sorted@.contains(sorted@[j]));
                    assert(cands.contains(sorted@[i]));
                    assert(cands.contains(sorted@[j]));
                    let a = choose|a: int| 0 <= a < cands.len() && cands[a] == sorted@[i];
                    let b = choose|b: int| 0 <= b < cands.len() && cands[b] == sorted@[j];
                    assert(points_separated(cands[a], cands[b], t));
                }
            }
            lemma_dedup_separated(sorted@, t);
            assert(all_separated(result@, t)) by {
                assert forall|i: int, j: int|
                    0 <= i < result@.len() && 0 <= j < result@.len() implies #[trigger]
                    points_separated(result@[i], result@[j], t) by {
                    assert(result@.contains(result@[i]));
                    assert(result@.contains(result@[j]));
                    assert(sorted@.contains(result@[i]));
                    assert(sorted@.contains(result@[j]));
                    assert(cands.contains(result@[i]));
                    assert(cands.contains(result@[j]));
                    let a = choose|a: int| 0 <= a < cands.len() && cands[a] == result@[i];
                    let b = choose|b: int| 0 <= b < cands.len() && cands[b] == result@[j];
                    assert(points_separated(cands[a], cands[b], t));
                }
            }
            lemma_strictly_sorted_global(result@, t);
        }
        if above_plane(*triangle, current_layer_height, tol) {
            lemma_edge_misses(edge01(*triangle), current_layer_height, tol);
            lemma_edge_misses(edge12(*triangle), current_layer_height, tol);
            lemma_edge_misses(edge20(*triangle), current_layer_height, tol);
            assert(cands =~= Seq::<Point>::empty());
        }
        if below_plane(*triangle, current_layer_height, tol) {
            lemma_edge_misses(edge01(*triangle), current_layer_height, tol);
            lemma_edge_misses(edge12(*triangle), current_layer_height, tol);
            lemma_edge_misses(edge20(*triangle), current_layer_height, tol);
            assert(cands =~= Seq::<Point>::empty());
        }
    }
    result
}

} // verus!
