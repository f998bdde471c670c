//! Segment–plane intersector: where one triangle edge crosses the horizontal
//! plane `y = h`.

use vstd::prelude::*;

use vstd::arithmetic::div_mod::{
    lemma_div_is_ordered, lemma_div_multiples_vanish, lemma_div_pos_is_pos,
};
use vstd::arithmetic::mul::{lemma_mul_inequality, lemma_mul_nonnegative, lemma_mul_upper_bound};

use crate::compare::{approx, approx_equal};
use crate::point::{
    coord_in_range, edge_in_range, point_in_range, with_height, Edge, Point, COORD_LIMIT,
};

verus! {

/// The `y` component of the edge's direction vector, `end.y - start.y`.
pub open spec fn delta_y(e: Edge) -> int {
    e.end.y - e.start.y
}

/// Numerator of the crossing parameter `t = (h - start.y) / delta_y`, with
/// the sign of the denominator factored out so that `t = t_num / t_den` with
/// `t_den >= 0`.
pub open spec fn t_num(e: Edge, h: i64) -> int {
    if delta_y(e) < 0 {
        e.start.y - h
    } else {
        h - e.start.y
    }
}

/// Denominator of the crossing parameter: `|delta_y|`.
pub open spec fn t_den(e: Edge) -> int {
    if delta_y(e) < 0 {
        -delta_y(e)
    } else {
        delta_y(e)
    }
}

/// The crossing parameter lies in the closed interval `[0, 1]`, endpoints
/// (a vertex touching the plane) included.
pub open spec fn t_in_unit(e: Edge, h: i64) -> bool {
    0 <= t_num(e, h) <= t_den(e)
}

/// Division rounded toward zero, for a positive divisor.
pub open spec fn trunc_div(p: int, d: int) -> int {
    if p >= 0 {
        p / d
    } else {
        -((-p) / d)
    }
}

/// Linear interpolation of one coordinate at `t = num / den`: the offset
/// `t * (e - s)` is rounded toward zero, that is toward the start value `s`.
pub open spec fn lerp_coord(s: int, e: int, num: int, den: int) -> int {
    s + trunc_div(num * (e - s), den)
}

/// The point where the edge crosses the plane: x and z are interpolated at
/// the crossing parameter, y is set to exactly `h`, never recomputed.
pub open spec fn crossing_point(e: Edge, h: i64) -> Point {
    Point {
        x: lerp_coord(e.start.x as int, e.end.x as int, t_num(e, h), t_den(e)) as i64,
        y: h,
        z: lerp_coord(e.start.z as int, e.end.z as int, t_num(e, h), t_den(e)) as i64,
    }
}

/// What `slice_segment` returns, by the three cases: an edge lying in the
/// plane yields both endpoints with y forced to `h`, in (start, end) order;
/// an edge whose direction is not approximately horizontal yields the single
/// crossing point when the parameter lies in `[0, 1]`, nothing otherwise;
/// an edge parallel to but offset from the plane yields nothing.
pub open spec fn slice_segment_spec(e: Edge, h: i64, tol: i64) -> Seq<Point> {
    if approx(delta_y(e), 0, tol as int) {
        if approx(e.start.y as int, h as int, tol as int) {
            seq![with_height(e.start, h), with_height(e.end, h)]
        } else {
            Seq::empty()
        }
    } else {
        if t_in_unit(e, h) {
            seq![crossing_point(e, h)]
        } else {
            Seq::empty()
        }
    }
}

/// One interpolated coordinate, exactly `lerp_coord`, and always between the
/// two endpoint values.
fn lerp_exec(s: i64, e: i64, num: i64, den: i64) -> (r: i64)
    requires
        coord_in_range(s),
        coord_in_range(e),
        0 < den <= 2 * COORD_LIMIT,
        0 <= num <= den,
    ensures
        r as int == lerp_coord(s as int, e as int, num as int, den as int),
        s <= e ==> s <= r <= e,
        e <= s ==> e <= r <= s,
{
    let d: i128 = e as i128 - s as i128;
    proof {
        lemma_mul_inequality(num as int, den as int, if d >= 0 { d as int } else { -(d as int) });
    }
    if d >= 0 {
        proof {
            lemma_mul_nonnegative(num as int, d as int);
            lemma_mul_upper_bound(num as int, 0x8000_0000_0000, d as int, 0x8000_0000_0000);
            lemma_div_pos_is_pos((num as int) * (d as int), den as int);
            lemma_div_is_ordered((num as int) * (d as int), (den as int) * (d as int), den as int);
            lemma_div_multiples_vanish(d as int, den as int);
        }
        let q: i128 = (((num as i128) * d) as u128 / (den as u128)) as i128;
        (s as i128 + q) as i64
    } else {
        proof {
            lemma_mul_nonnegative(num as int, -(d as int));
            lemma_mul_upper_bound(num as int, 0x8000_0000_0000, -(d as int), 0x8000_0000_0000);
            lemma_div_pos_is_pos((num as int) * (-(d as int)), den as int);
            lemma_div_is_ordered(
                (num as int) * (-(d as int)),
                (den as int) * (-(d as int)),
                den as int,
            );
            lemma_div_multiples_vanish(-(d as int), den as int);
            assert((num as int) * (d as int) == -((num as int) * (-(d as int))))
                by (nonlinear_arith);
        }
        let q: i128 = (((num as i128) * (-d)) as u128 / (den as u128)) as i128;
        (s as i128 - q) as i64
    }
}

/// Intersects one edge with the horizontal plane at the given layer height.
///
/// Returns zero, one or two points; the y component of every returned point
/// is exactly the layer height, assigned rather than computed, and every
/// returned point stays within the coordinate range.
pub fn slice_segment(line: &Edge, current_layer_height: i64, tol: i64) -> (r: Vec<Point>)
    requires
        tol >= 0,
        edge_in_range(*line),
        coord_in_range(current_layer_height),
    ensures
        r@ == slice_segment_spec(*line, current_layer_height, tol),
        r@.len() <= 2,
        forall|i: int| 0 <= i < r@.len() ==> (#[trigger] r@[i]).y == current_layer_height,
        forall|i: int| 0 <= i < r@.len() ==> point_in_range(#[trigger] r@[i]),
{
    let start = line.start;
    let end = line.end;
    let dy: i64 = end.y - start.y;
    let mut intersections: Vec<Point> = Vec::new();
    if approx_equal(dy, 0, tol) {
        if approx_equal(start.y, current_layer_height, tol) {
            // The edge lies in the plane: both endpoints, y forced to h.
            intersections.push(Point { x: start.x, y: current_layer_height, z: start.z });
            intersections.push(Point { x: end.x, y: current_layer_height, z: end.z });
        }
    } else {
        let num: i64 = if dy < 0 {
            start.y - current_layer_height
        } else {
            current_layer_height - start.y
        };
        let den: i64 = if dy < 0 {
            -dy
        } else {
            dy
        };
        if num >= 0 && num <= den {
            let x = lerp_exec(start.x, end.x, num, den);
            let z = lerp_exec(start.z, end.z, num, den);
            intersections.push(Point { x, y: current_layer_height, z });
        }
    }
    proof {
        assert(intersections@ =~= slice_segment_spec(*line, current_layer_height, tol));
    }
    intersections
}

} // verus!
