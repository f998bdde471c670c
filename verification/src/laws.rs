//! Shape theorems for `slice_triangle`: the coplanar case yields exactly the
//! three vertices, a straddling triangle yields exactly the chord's two
//! endpoints.

use vstd::prelude::*;

use crate::compare::{
    approx, compare_spec, lemma_compare_flip, points_separated, Ordering,
};
use crate::normalize::{
    all_separated, dedup_from, dedup_spec, insert_sorted, lemma_dedup_separated,
    lemma_sort_adjacent_sorted, lemma_sort_contains, lemma_strictly_sorted_global, sort_spec,
    strictly_sorted,
};
use crate::point::{with_height, Edge, Point, Triangle};
use crate::segment::{crossing_point, delta_y, slice_segment_spec, t_in_unit};
use crate::triangle::{candidates, edge01, edge12, edge20, lemma_edge_misses, slice_triangle_spec};

verus! {

/// The vertex lies above the plane by more than the tolerance.
pub open spec fn vertex_above(v: Point, h: i64, tol: i64) -> bool {
    v.y - h > tol
}

/// The vertex lies below the plane by more than the tolerance.
pub open spec fn vertex_below(v: Point, h: i64, tol: i64) -> bool {
    h - v.y > tol
}

/// One vertex lies beyond tolerance on one side of the plane and the other
/// two beyond tolerance on the other side.
pub open spec fn straddles(t: Triangle, h: i64, tol: i64) -> bool {
    ||| (vertex_above(t.v0, h, tol) && vertex_below(t.v1, h, tol) && vertex_below(t.v2, h, tol))
    ||| (vertex_below(t.v0, h, tol) && vertex_above(t.v1, h, tol) && vertex_above(t.v2, h, tol))
    ||| (vertex_above(t.v1, h, tol) && vertex_below(t.v2, h, tol) && vertex_below(t.v0, h, tol))
    ||| (vertex_below(t.v1, h, tol) && vertex_above(t.v2, h, tol) && vertex_above(t.v0, h, tol))
    ||| (vertex_above(t.v2, h, tol) && vertex_below(t.v0, h, tol) && vertex_below(t.v1, h, tol))
    ||| (vertex_below(t.v2, h, tol) && vertex_above(t.v0, h, tol) && vertex_above(t.v1, h, tol))
}

/// An edge whose endpoints lie beyond tolerance on opposite sides of the
/// plane contributes exactly its crossing point.
proof fn lemma_edge_crosses(e: Edge, h: i64, tol: i64)
    requires
        tol >= 0,
        (vertex_above(e.start, h, tol) && vertex_below(e.end, h, tol)) || (vertex_below(
            e.start,
            h,
            tol,
        ) && vertex_above(e.end, h, tol)),
    ensures
        slice_segment_spec(e, h, tol) =~= seq![crossing_point(e, h)],
{
    assert(!approx(delta_y(e), 0, tol as int));
    assert(t_in_unit(e, h));
}

/// Sorting and deduplicating two points that are not within tolerance of
/// each other keeps both, in ascending order.
proof fn lemma_normalize_pair(a: Point, b: Point, tol: int)
    requires
        tol >= 0,
        compare_spec(a, b, tol) != Ordering::Equal,
    ensures
        dedup_spec(sort_spec(seq![a, b], tol), tol).len() == 2,
        dedup_spec(sort_spec(seq![a, b], tol), tol).to_set() == seq![a, b].to_set(),
{
    lemma_compare_flip(a, b, tol);
    assert(seq![a, b].drop_last() =~= seq![a]);
    assert(seq![a, b].last() == b);
    assert(seq![a].drop_last() =~= Seq::<Point>::empty());
    assert(seq![a].last() == a);
    assert(sort_spec(Seq::<Point>::empty(), tol) == Seq::<Point>::empty());
    assert(dedup_from(a, Seq::<Point>::empty(), tol) == Seq::<Point>::empty());
    assert(dedup_from(b, Seq::<Point>::empty(), tol) == Seq::<Point>::empty());
    assert(seq![a][0] == a && seq![b][0] == b);
    assert(sort_spec(seq![a], tol) == insert_sorted(Seq::<Point>::empty(), a, tol));
    assert(sort_spec(seq![a], tol) =~= seq![a]);
    assert(sort_spec(seq![a, b], tol) == insert_sorted(seq![a], b, tol));
    if compare_spec(a, b, tol) == Ordering::Greater {
        assert(insert_sorted(seq![a], b, tol) =~= seq![b, a]) by {
            assert(insert_sorted(Seq::<Point>::empty(), b, tol) =~= seq![b]);
            assert(seq![b].push(a) =~= seq![b, a]);
        }
        let s = seq![b, a];
        assert(s.skip(1) =~= seq![a]);
        assert(compare_spec(b, a, tol) != Ordering::Equal);
        assert(seq![a].skip(1) =~= Seq::<Point>::empty());
        assert(dedup_from(b, seq![a], tol) =~= seq![a] + Seq::<Point>::empty());
        assert(dedup_from(b, seq![a], tol) =~= seq![a]);
        assert(dedup_spec(s, tol) =~= seq![b, a]);
        assert(seq![b, a].to_set() =~= seq![a, b].to_set()) by {
            assert(seq![b, a][0] == b && seq![b, a][1] == a);
            assert(seq![a, b][0] == a && seq![a, b][1] == b);
        }
    } else {
        assert(insert_sorted(seq![a], b, tol) =~= seq![a].push(b));
        assert(seq![a].push(b) =~= seq![a, b]);
        let s = seq![a, b];
        assert(s.skip(1) =~= seq![b]);
        assert(seq![b].skip(1) =~= Seq::<Point>::empty());
        assert(dedup_from(a, seq![b], tol) =~= seq![b] + Seq::<Point>::empty());
        assert(dedup_from(a, seq![b], tol) =~= seq![b]);
        assert(dedup_spec(s, tol) =~= seq![a, b]);
    }
}

/// A triangle that straddles the plane — one vertex beyond tolerance on one
/// side, the other two beyond tolerance on the other — yields exactly two
/// points: the crossing points of its two crossing edges, provided those two
/// points are not within tolerance of each other.
pub proof fn lemma_straddling_triangle(t: Triangle, h: i64, tol: i64)
    requires
        tol >= 0,
        straddles(t, h, tol),
        compare_spec(
            candidates(t, h, tol)[0],
            candidates(t, h, tol)[1],
            tol as int,
        ) != Ordering::Equal,
    ensures
        candidates(t, h, tol).len() == 2,
        slice_triangle_spec(t, h, tol).len() == 2,
        slice_triangle_spec(t, h, tol).to_set() == candidates(t, h, tol).to_set(),
{
    let e01 = edge01(t);
    let e12 = edge12(t);
    let e20 = edge20(t);
    if vertex_above(t.v0, h, tol) && vertex_below(t.v1, h, tol) && vertex_below(t.v2, h, tol) {
        lemma_edge_crosses(e01, h, tol);
        lemma_edge_misses(e12, h, tol);
        lemma_edge_crosses(e20, h, tol);
        assert(candidates(t, h, tol) =~= seq![crossing_point(e01, h), crossing_point(e20, h)]);
    } else if vertex_below(t.v0, h, tol) && vertex_above(t.v1, h, tol) && vertex_above(
        t.v2,
        h,
        tol,
    ) {
        lemma_edge_crosses(e01, h, tol);
        lemma_edge_misses(e12, h, tol);
        lemma_edge_crosses(e20, h, tol);
        assert(candidates(t, h, tol) =~= seq![crossing_point(e01, h), crossing_point(e20, h)]);
    } else if vertex_above(t.v1, h, tol) && vertex_below(t.v2, h, tol) && vertex_below(
        t.v0,
        h,
        tol,
    ) {
        lemma_edge_crosses(e01, h, tol);
        lemma_edge_crosses(e12, h, tol);
        lemma_edge_misses(e20, h, tol);
        assert(candidates(t, h, tol) =~= seq![crossing_point(e01, h), crossing_point(e12, h)]);
    } else if vertex_below(t.v1, h, tol) && vertex_above(t.v2, h, tol) && vertex_above(
        t.v0,
        h,
        tol,
    ) {
        lemma_edge_crosses(e01, h, tol);
        lemma_edge_crosses(e12, h, tol);
        lemma_edge_misses(e20, h, tol);
        assert(candidates(t, h, tol) =~= seq![crossing_point(e01, h), crossing_point(e12, h)]);
    } else if vertex_above(t.v2, h, tol) && vertex_below(t.v0, h, tol) && vertex_below(
        t.v1,
        h,
        tol,
    ) {
        lemma_edge_misses(e01, h, tol);
        lemma_edge_crosses(e12, h, tol);
        lemma_edge_crosses(e20, h, tol);
        assert(candidates(t, h, tol) =~= seq![crossing_point(e12, h), crossing_point(e20, h)]);
    } else {
        lemma_edge_misses(e01, h, tol);
        lemma_edge_crosses(e12, h, tol);
        lemma_edge_crosses(e20, h, tol);
        assert(candidates(t, h, tol) =~= seq![crossing_point(e12, h), crossing_point(e20, h)]);
    }
    let c = candidates(t, h, tol);
    assert(c =~= seq![c[0], c[1]]);
    lemma_normalize_pair(c[0], c[1], tol as int);
}

/// A triangle lying in the plane — every vertex within tolerance of the
/// layer height and every edge direction approximately horizontal — yields
/// exactly its three vertices with y forced to the layer height, strictly
/// ascending, provided those vertices are pairwise distinct and pairwise
/// separated on every axis.
pub proof fn lemma_coplanar_triangle(t: Triangle, h: i64, tol: i64)
    requires
        tol >= 0,
        approx(t.v0.y as int, h as int, tol as int),
        approx(t.v1.y as int, h as int, tol as int),
        approx(t.v2.y as int, h as int, tol as int),
        approx(delta_y(edge01(t)), 0, tol as int),
        approx(delta_y(edge12(t)), 0, tol as int),
        approx(delta_y(edge20(t)), 0, tol as int),
        points_separated(with_height(t.v0, h), with_height(t.v1, h), tol as int),
        points_separated(with_height(t.v1, h), with_height(t.v2, h), tol as int),
        points_separated(with_height(t.v2, h), with_height(t.v0, h), tol as int),
        with_height(t.v0, h) != with_height(t.v1, h),
        with_height(t.v1, h) != with_height(t.v2, h),
        with_height(t.v2, h) != with_height(t.v0, h),
    ensures
        slice_triangle_spec(t, h, tol).len() == 3,
        slice_triangle_spec(t, h, tol).to_set() == seq![
            with_height(t.v0, h),
            with_height(t.v1, h),
            with_height(t.v2, h),
        ].to_set(),
        strictly_sorted(slice_triangle_spec(t, h, tol), tol as int),
{
    let tl = tol as int;
    let w0 = with_height(t.v0, h);
    let w1 = with_height(t.v1, h);
    let w2 = with_height(t.v2, h);
    let c = candidates(t, h, tol);
    assert(slice_segment_spec(edge01(t), h, tol) =~= seq![w0, w1]);
    assert(slice_segment_spec(edge12(t), h, tol) =~= seq![w1, w2]);
    assert(slice_segment_spec(edge20(t), h, tol) =~= seq![w2, w0]);
    assert(c =~= seq![w0, w1, w1, w2, w2, w0]);
    assert(forall|i: int| 0 <= i < c.len() ==> #[trigger] c[i] == w0 || c[i] == w1 || c[i] == w2)
        by {
        assert(c[0] == w0 && c[1] == w1 && c[2] == w1 && c[3] == w2 && c[4] == w2 && c[5] == w0);
    }
    assert(all_separated(c, tl)) by {
        assert forall|i: int, j: int|
            0 <= i < c.len() && 0 <= j < c.len() implies #[trigger] points_separated(
            c[i],
            c[j],
            tl,
        ) by {
            assert(c[i] == w0 || c[i] == w1 || c[i] == w2);
            assert(c[j] == w0 || c[j] == w1 || c[j] == w2);
            assert(points_separated(w0, w0, tl));
            assert(points_separated(w1, w1, tl));
            assert(points_separated(w2, w2, tl));
            assert(points_separated(w1, w0, tl));
            assert(points_separated(w2, w1, tl));
            assert(points_separated(w0, w2, tl));
        }
    }
    let sorted = sort_spec(c, tl);
    lemma_sort_adjacent_sorted(c, tl);
    lemma_sort_contains(c, tl);
    assert(all_separated(sorted, tl)) by {
        assert forall|i: int, j: int|
            0 <= i < sorted.len() && 0 <= j < sorted.len() implies #[trigger] points_separated(
            sorted[i],
            sorted[j],
            tl,
        ) by {
            assert(sorted.contains(sorted[i]));
            assert(sorted.contains(sorted[j]));
            assert(c.contains(sorted[i]));
            assert(c.contains(sorted[j]));
            let a = choose|a: int| 0 <= a < c.len() && c[a] == sorted[i];
            let b = choose|b: int| 0 <= b < c.len() && c[b] == sorted[j];
            assert(points_separated(c[a], c[b], tl));
        }
    }
    lemma_dedup_separated(sorted, tl);
    let out = slice_triangle_spec(t, h, tol);
    assert(out == dedup_spec(sorted, tl));
    assert(forall|x: Point| #[trigger] out.contains(x) <==> c.contains(x));
    assert(all_separated(out, tl)) by {
        assert forall|i: int, j: int|
            0 <= i < out.len() && 0 <= j < out.len() implies #[trigger] points_separated(
            out[i],
            out[j],
            tl,
        ) by {
            assert(out.contains(out[i]));
            assert(out.contains(out[j]));
            assert(c.contains(out[i]));
            assert(c.contains(out[j]));
            let a = choose|a: int| 0 <= a < c.len() && c[a] == out[i];
            let b = choose|b: int| 0 <= b < c.len() && c[b] == out[j];
            assert(points_separated(c[a], c[b], tl));
        }
    }
    lemma_strictly_sorted_global(out, tl);
    // Membership of each forced vertex, hence the set equality.
    assert(c.contains(w0)) by {
        assert(c[0] == w0);
    }
    assert(c.contains(w1)) by {
        assert(c[1] == w1);
    }
    assert(c.contains(w2)) by {
        assert(c[3] == w2);
    }
    assert(out.to_set() =~= seq![w0, w1, w2].to_set()) by {
        assert forall|x: Point| out.to_set().contains(x) implies seq![
            w0,
            w1,
            w2,
        ].to_set().contains(x) by {
            assert(out.contains(x));
            assert(c.contains(x));
            let a = choose|a: int| 0 <= a < c.len() && c[a] == x;
            if x == w0 {
                assert(seq![w0, w1, w2][0] == x);
            } else if x == w1 {
                assert(seq![w0, w1, w2][1] == x);
            } else {
                assert(seq![w0, w1, w2][2] == x);
            }
        }
        assert forall|x: Point| seq![w0, w1, w2].to_set().contains(x) implies out.to_set().contains(
            x,
        ) by {
            assert(seq![w0, w1, w2].contains(x));
            let a = choose|a: int| 0 <= a < 3 && seq![w0, w1, w2][a] == x;
            assert(x == w0 || x == w1 || x == w2);
            assert(out.contains(x));
        }
    }
    // Each vertex occurs at a distinct index, so there are at least three
    // points; every point is one of the three vertices and none repeats, so
    // there are no more.
    assert(out.len() == 3) by {
        let i0 = choose|i: int| 0 <= i < out.len() && out[i] == w0;
        let i1 = choose|i: int| 0 <= i < out.len() && out[i] == w1;
        let i2 = choose|i: int| 0 <= i < out.len() && out[i] == w2;
        assert(out.contains(w0) && out.contains(w1) && out.contains(w2));
        assert(i0 != i1 && i1 != i2 && i0 != i2);
        assert(out.len() >= 3);
        if out.len() > 3 {
            assert(forall|i: int|
                0 <= i < out.len() ==> #[trigger] out[i] == w0 || out[i] == w1 || out[i] == w2)
                by {
                assert forall|i: int|
                    0 <= i < out.len() implies #[trigger] out[i] == w0 || out[i] == w1 || out[i]
                    == w2 by {
                    assert(out.contains(out[i]));
                    assert(c.contains(out[i]));
                    let a = choose|a: int| 0 <= a < c.len() && c[a] == out[i];
                }
            }
            assert(out[0] != out[1] && out[0] != out[2] && out[0] != out[3] && out[1] != out[2]
                && out[1] != out[3] && out[2] != out[3]);
            assert(false);
        }
    }
}

} // verus!
