//! Tolerance comparator: approximate equality of coordinates and a
//! lexicographic ordering of points mediated by it.

use vstd::prelude::*;

use crate::point::Point;

verus! {

/// Result of comparing two points. Mirrors the three-way ordering of the
/// standard library, as a type of the kernel's own so that contracts can
/// speak of it.
#[derive(Clone, Copy, PartialEq, Eq, Structural, Debug)]
pub enum Ordering {
    Less,
    Equal,
    Greater,
}

/// `|a - b|` over mathematical integers.
pub open spec fn abs_diff(a: int, b: int) -> int {
    if a >= b {
        a - b
    } else {
        b - a
    }
}

/// Approximate equality: the difference is at most `tol`.
pub open spec fn approx(a: int, b: int, tol: int) -> bool {
    abs_diff(a, b) <= tol
}

/// Lexicographic comparison by x, then y, then z: the first axis that is not
/// approximately equal decides by its numeric order; if all three axes are
/// approximately equal the points compare `Equal`.
pub open spec fn compare_spec(a: Point, b: Point, tol: int) -> Ordering {
    if !approx(a.x as int, b.x as int, tol) {
        if a.x < b.x {
            Ordering::Less
        } else {
            Ordering::Greater
        }
    } else if !approx(a.y as int, b.y as int, tol) {
        if a.y < b.y {
            Ordering::Less
        } else {
            Ordering::Greater
        }
    } else if !approx(a.z as int, b.z as int, tol) {
        if a.z < b.z {
            Ordering::Less
        } else {
            Ordering::Greater
        }
    } else {
        Ordering::Equal
    }
}

/// True if the two points are approximately equal on every axis, which is
/// exactly when `compare_spec` returns `Equal`.
pub open spec fn approx_point(a: Point, b: Point, tol: int) -> bool {
    &&& approx(a.x as int, b.x as int, tol)
    &&& approx(a.y as int, b.y as int, tol)
    &&& approx(a.z as int, b.z as int, tol)
}

/// Approximate equality of two coordinates: `|a - b| <= max_abs_diff`.
///
/// Total over all inputs; the subtraction is widened so it cannot overflow.
pub fn approx_equal(a: i64, b: i64, max_abs_diff: i64) -> (r: bool)
    ensures
        r == approx(a as int, b as int, max_abs_diff as int),
{
    let d: i128 = a as i128 - b as i128;
    let m: i128 = if d < 0 {
        -d
    } else {
        d
    };
    m <= max_abs_diff as i128
}

/// Compares two points by x, then y, then z, treating coordinates within
/// `max_abs_diff` of each other as equal.
pub fn compare_by_xyz(a: &Point, b: &Point, max_abs_diff: i64) -> (r: Ordering)
    ensures
        r == compare_spec(*a, *b, max_abs_diff as int),
{
    if !approx_equal(a.x, b.x, max_abs_diff) {
        if a.x < b.x {
            Ordering::Less
        } else {
            Ordering::Greater
        }
    } else if !approx_equal(a.y, b.y, max_abs_diff) {
        if a.y < b.y {
            Ordering::Less
        } else {
            Ordering::Greater
        }
    } else if !approx_equal(a.z, b.z, max_abs_diff) {
        if a.z < b.z {
            Ordering::Less
        } else {
            Ordering::Greater
        }
    } else {
        Ordering::Equal
    }
}

/// The comparator is antisymmetric: swapping the arguments swaps `Less` and
/// `Greater` and keeps `Equal`.
pub proof fn lemma_compare_flip(a: Point, b: Point, tol: int)
    requires
        tol >= 0,
    ensures
        (compare_spec(a, b, tol) == Ordering::Less) == (compare_spec(b, a, tol)
            == Ordering::Greater),
        (compare_spec(a, b, tol) == Ordering::Equal) == (compare_spec(b, a, tol)
            == Ordering::Equal),
{
}

/// `Equal` means approximately equal on every axis.
pub proof fn lemma_compare_equal_is_approx(a: Point, b: Point, tol: int)
    ensures
        (compare_spec(a, b, tol) == Ordering::Equal) == approx_point(a, b, tol),
{
}

/// Two coordinates either coincide or lie farther apart than the tolerance.
///
/// A tolerance comparator is not transitive on arbitrary inputs: chains of
/// points spaced just inside the tolerance can order inconsistently. On
/// inputs whose coordinates are pairwise separated in this sense the
/// comparator behaves as the exact lexicographic order, which is total.
pub open spec fn axis_separated(a: int, b: int, tol: int) -> bool {
    a == b || abs_diff(a, b) > tol
}

/// Separation on every axis.
pub open spec fn points_separated(p: Point, q: Point, tol: int) -> bool {
    &&& axis_separated(p.x as int, q.x as int, tol)
    &&& axis_separated(p.y as int, q.y as int, tol)
    &&& axis_separated(p.z as int, q.z as int, tol)
}

/// Separated points compare `Equal` exactly when they coincide.
pub proof fn lemma_separated_equal(p: Point, q: Point, tol: int)
    requires
        tol >= 0,
        points_separated(p, q, tol),
    ensures
        (compare_spec(p, q, tol) == Ordering::Equal) == (p == q),
{
}

/// On pairwise separated points the comparator is transitive.
pub proof fn lemma_compare_trans_separated(a: Point, b: Point, c: Point, tol: int)
    requires
        tol >= 0,
        points_separated(a, b, tol),
        points_separated(b, c, tol),
        points_separated(a, c, tol),
        compare_spec(a, b, tol) != Ordering::Greater,
        compare_spec(b, c, tol) != Ordering::Greater,
    ensures
        compare_spec(a, c, tol) != Ordering::Greater,
        compare_spec(a, b, tol) == Ordering::Less || compare_spec(b, c, tol) == Ordering::Less
            ==> compare_spec(a, c, tol) == Ordering::Less,
{
}

} // verus!
