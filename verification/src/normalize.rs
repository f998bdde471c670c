//! Normalization of intersection points: sorting by the tolerance comparator
//! and deduplication of entries within tolerance of the last kept point.

use vstd::prelude::*;

use crate::compare::{
    compare_by_xyz, compare_spec, lemma_compare_flip, lemma_compare_trans_separated,
    lemma_separated_equal, points_separated, Ordering,
};
use crate::point::Point;

verus! {

/// `p` inserted into `s` from the right: it moves left past every element
/// that compares `Greater` than it and stops at the first that does not.
pub open spec fn insert_sorted(s: Seq<Point>, p: Point, tol: int) -> Seq<Point>
    decreases s.len(),
{
    if s.len() == 0 {
        seq![p]
    } else if compare_spec(s.last(), p, tol) == Ordering::Greater {
        insert_sorted(s.drop_last(), p, tol).push(s.last())
    } else {
        s.push(p)
    }
}

/// Insertion sort of a sequence of points under the tolerance comparator,
/// taking the elements in their given order.
pub open spec fn sort_spec(s: Seq<Point>, tol: int) -> Seq<Point>
    decreases s.len(),
{
    if s.len() == 0 {
        Seq::empty()
    } else {
        insert_sorted(sort_spec(s.drop_last(), tol), s.last(), tol)
    }
}

/// The tail of deduplication: `prev` is the last point kept; an element is
/// dropped while it compares `Equal` (approximately equal on every axis) to
/// the last kept point, and kept otherwise.
pub open spec fn dedup_from(prev: Point, s: Seq<Point>, tol: int) -> Seq<Point>
    decreases s.len(),
{
    if s.len() == 0 {
        Seq::empty()
    } else if compare_spec(prev, s[0], tol) == Ordering::Equal {
        dedup_from(prev, s.skip(1), tol)
    } else {
        seq![s[0]] + dedup_from(s[0], s.skip(1), tol)
    }
}

/// Deduplication of a sorted sequence: the first element is kept, every
/// later element is dropped exactly when it is within tolerance of the last
/// element kept before it.
pub open spec fn dedup_spec(s: Seq<Point>, tol: int) -> Seq<Point> {
    if s.len() == 0 {
        Seq::empty()
    } else {
        seq![s[0]] + dedup_from(s[0], s.skip(1), tol)
    }
}

/// Every adjacent pair obeys the comparator in ascending order, allowing
/// equal neighbours.
pub open spec fn adjacent_sorted(s: Seq<Point>, tol: int) -> bool {
    forall|i: int|
        0 <= i < s.len() - 1 ==> #[trigger] compare_spec(s[i], s[i + 1], tol) != Ordering::Greater
}

/// Every adjacent pair is strictly ascending, so in particular no two
/// neighbours are within tolerance of each other.
pub open spec fn strictly_sorted(s: Seq<Point>, tol: int) -> bool {
    forall|i: int|
        0 <= i < s.len() - 1 ==> #[trigger] compare_spec(s[i], s[i + 1], tol) == Ordering::Less
}

/// Inserts `p` into the sorted vector `v`, keeping it sorted.
fn insert_point(v: &mut Vec<Point>, p: Point, tol: i64)
    ensures
        final(v)@ == insert_sorted(old(v)@, p, tol as int),
{
    let ghost orig = v@;
    let mut j: usize = v.len();
    v.push(p);
    proof {
        assert(orig.take(orig.len() as int) =~= orig);
        assert(orig.skip(orig.len() as int) =~= Seq::<Point>::empty());
        assert(insert_sorted(orig, p, tol as int) =~= insert_sorted(orig, p, tol as int)
            + orig.skip(orig.len() as int));
    }
    while j > 0 && compare_by_xyz(&v[j - 1], &v[j], tol) == Ordering::Greater
        invariant
            0 <= j <= orig.len(),
            v@.len() == orig.len() + 1,
            v@ =~= orig.take(j as int).push(p) + orig.skip(j as int),
            insert_sorted(orig, p, tol as int) =~= insert_sorted(
                orig.take(j as int),
                p,
                tol as int,
            ) + orig.skip(j as int),
        decreases j,
    {
        proof {
            assert(v@[j - 1] == orig[j as int - 1]);
            assert(v@[j as int] == p);
            assert(orig.take(j as int).last() == orig[j as int - 1]);
            assert(orig.take(j as int).drop_last() =~= orig.take(j as int - 1));
            assert(insert_sorted(orig.take(j as int), p, tol as int) =~= insert_sorted(
                orig.take(j as int - 1),
                p,
                tol as int,
            ).push(orig[j as int - 1]));
            assert(orig.skip(j as int - 1) =~= seq![orig[j as int - 1]] + orig.skip(j as int));
        }
        let a = v[j - 1];
        let b = v[j];
        v.set(j - 1, b);
        v.set(j, a);
        j = j - 1;
        proof {
            assert(v@ =~= orig.take(j as int).push(p) + orig.skip(j as int));
            assert(insert_sorted(orig.take(j as int), p, tol as int) + orig.skip(j as int)
                =~= insert_sorted(orig.take(j as int + 1), p, tol as int) + orig.skip(
                j as int + 1,
            ));
        }
    }
    proof {
        if j == 0 {
            assert(orig.take(0) =~= Seq::<Point>::empty());
            assert(insert_sorted(orig.take(0), p, tol as int) =~= seq![p]);
            assert(v@ =~= insert_sorted(orig, p, tol as int));
        } else {
            assert(compare_spec(orig[j as int - 1], p, tol as int) != Ordering::Greater);
            assert(orig.take(j as int).last() == orig[j as int - 1]);
            assert(insert_sorted(orig.take(j as int), p, tol as int) =~= orig.take(
                j as int,
            ).push(p));
            assert(v@ =~= insert_sorted(orig, p, tol as int));
        }
    }
}

/// Sorts the points with the tolerance comparator, by insertion in order.
pub fn sort_points(points: Vec<Point>, tol: i64) -> (r: Vec<Point>)
    ensures
        r@ == sort_spec(points@, tol as int),
{
    let mut out: Vec<Point> = Vec::new();
    let mut i: usize = 0;
    while i < points.len()
        invariant
            0 <= i <= points@.len(),
            out@ == sort_spec(points@.take(i as int), tol as int),
        decreases points@.len() - i,
    {
        insert_point(&mut out, points[i], tol);
        proof {
            assert(points@.take(i as int + 1).drop_last() =~= points@.take(i as int));
            assert(points@.take(i as int + 1).last() == points@[i as int]);
        }
        i = i + 1;
    }
    proof {
        assert(points@.take(points@.len() as int) =~= points@);
    }
    out
}

/// Drops every point within tolerance of the last point kept before it.
pub fn dedup_points(points: &Vec<Point>, tol: i64) -> (r: Vec<Point>)
    ensures
        r@ == dedup_spec(points@, tol as int),
{
    let mut out: Vec<Point> = Vec::new();
    if points.len() == 0 {
        return out;
    }
    out.push(points[0]);
    let mut i: usize = 1;
    while i < points.len()
        invariant
            1 <= i <= points@.len(),
            out@.len() >= 1,
            dedup_spec(points@, tol as int) =~= out@ + dedup_from(
                out@.last(),
                points@.skip(i as int),
                tol as int,
            ),
        decreases points@.len() - i,
    {
        proof {
            assert(points@.skip(i as int)[0] == points@[i as int]);
            assert(points@.skip(i as int).skip(1) =~= points@.skip(i as int + 1));
        }
        let last = out[out.len() - 1];
        if !(compare_by_xyz(&last, &points[i], tol) == Ordering::Equal) {
            out.push(points[i]);
            proof {
                assert(out@ + dedup_from(out@.last(), points@.skip(i as int + 1), tol as int)
                    =~= out@.drop_last() + (seq![points@[i as int]] + dedup_from(
                    points@[i as int],
                    points@.skip(i as int + 1),
                    tol as int,
                )));
            }
        }
        i = i + 1;
    }
    proof {
        assert(points@.skip(points@.len() as int) =~= Seq::<Point>::empty());
        assert(out@ + Seq::<Point>::empty() =~= out@);
    }
    out
}

/// Every two points of the sequence are separated on every axis: equal or
/// farther apart than the tolerance.
pub open spec fn all_separated(s: Seq<Point>, tol: int) -> bool {
    forall|i: int, j: int|
        0 <= i < s.len() && 0 <= j < s.len() ==> #[trigger] points_separated(s[i], s[j], tol)
}

/// Inserting a point adds it to the sequence's multiset and changes nothing
/// else.
pub proof fn lemma_insert_sorted_multiset(s: Seq<Point>, p: Point, tol: int)
    ensures
        insert_sorted(s, p, tol).to_multiset() == s.to_multiset().insert(p),
        insert_sorted(s, p, tol).len() == s.len() + 1,
    decreases s.len(),
{
    broadcast use vstd::seq_lib::group_to_multiset_ensures;

    if s.len() == 0 {
        assert(seq![p] =~= Seq::<Point>::empty().push(p));
        assert(seq![p].to_multiset() =~= s.to_multiset().insert(p));
    } else if compare_spec(s.last(), p, tol) == Ordering::Greater {
        lemma_insert_sorted_multiset(s.drop_last(), p, tol);
        assert(s =~= s.drop_last().push(s.last()));
        assert(insert_sorted(s.drop_last(), p, tol).push(s.last()).to_multiset()
            =~= insert_sorted(s.drop_last(), p, tol).to_multiset().insert(s.last()));
        assert(s.to_multiset() =~= s.drop_last().to_multiset().insert(s.last()));
        assert(s.drop_last().to_multiset().insert(p).insert(s.last())
            =~= s.drop_last().to_multiset().insert(s.last()).insert(p));
    } else {
        assert(s.push(p).to_multiset() =~= s.to_multiset().insert(p));
    }
}

/// Sorting permutes the sequence: the multiset of points is unchanged.
pub proof fn lemma_sort_multiset(s: Seq<Point>, tol: int)
    ensures
        sort_spec(s, tol).to_multiset() == s.to_multiset(),
        sort_spec(s, tol).len() == s.len(),
    decreases s.len(),
{
    broadcast use vstd::seq_lib::group_to_multiset_ensures;

    if s.len() == 0 {
    } else {
        lemma_sort_multiset(s.drop_last(), tol);
        lemma_insert_sorted_multiset(sort_spec(s.drop_last(), tol), s.last(), tol);
        assert(s =~= s.drop_last().push(s.last()));
        assert(s.to_multiset() =~= s.drop_last().to_multiset().insert(s.last()));
    }
}

/// A point is in the sorted sequence exactly when it is in the input.
pub proof fn lemma_sort_contains(s: Seq<Point>, tol: int)
    ensures
        forall|x: Point| sort_spec(s, tol).contains(x) <==> s.contains(x),
{
    broadcast use vstd::seq_lib::group_to_multiset_ensures;

    lemma_sort_multiset(s, tol);
    assert forall|x: Point| sort_spec(s, tol).contains(x) <==> s.contains(x) by {
        assert(sort_spec(s, tol).contains(x) <==> sort_spec(s, tol).to_multiset().count(x) > 0);
        assert(s.contains(x) <==> s.to_multiset().count(x) > 0);
    }
}

/// Insertion keeps the sequence sorted under the comparator, and the new
/// last element is the inserted point or the old last element.
pub proof fn lemma_insert_adjacent_sorted(s: Seq<Point>, p: Point, tol: int)
    requires
        tol >= 0,
        adjacent_sorted(s, tol),
    ensures
        adjacent_sorted(insert_sorted(s, p, tol), tol),
        insert_sorted(s, p, tol).len() == s.len() + 1,
        insert_sorted(s, p, tol).last() == p || (s.len() > 0 && insert_sorted(s, p, tol).last()
            == s.last()),
    decreases s.len(),
{
    lemma_insert_sorted_multiset(s, p, tol);
    if s.len() == 0 {
    } else if compare_spec(s.last(), p, tol) == Ordering::Greater {
        let inner = insert_sorted(s.drop_last(), p, tol);
        assert(adjacent_sorted(s.drop_last(), tol)) by {
            assert forall|i: int|
                0 <= i < s.drop_last().len() - 1 implies #[trigger] compare_spec(
                s.drop_last()[i],
                s.drop_last()[i + 1],
                tol,
            ) != Ordering::Greater by {
                assert(compare_spec(s[i], s[i + 1], tol) != Ordering::Greater);
            }
        }
        lemma_insert_adjacent_sorted(s.drop_last(), p, tol);
        let r = inner.push(s.last());
        assert(adjacent_sorted(r, tol)) by {
            assert forall|i: int| 0 <= i < r.len() - 1 implies #[trigger] compare_spec(
                r[i],
                r[i + 1],
                tol,
            ) != Ordering::Greater by {
                if i < inner.len() - 1 {
                    assert(r[i] == inner[i] && r[i + 1] == inner[i + 1]);
                    assert(compare_spec(inner[i], inner[i + 1], tol) != Ordering::Greater);
                } else {
                    assert(r[i] == inner.last() && r[i + 1] == s.last());
                    if inner.last() == p {
                        lemma_compare_flip(s.last(), p, tol);
                    } else {
                        assert(inner.last() == s.drop_last().last());
                        assert(s.drop_last().last() == s[s.len() - 2]);
                        assert(compare_spec(s[s.len() - 2], s[s.len() - 2 + 1], tol)
                            != Ordering::Greater);
                    }
                }
            }
        }
    } else {
        let r = s.push(p);
        assert(adjacent_sorted(r, tol)) by {
            assert forall|i: int| 0 <= i < r.len() - 1 implies #[trigger] compare_spec(
                r[i],
                r[i + 1],
                tol,
            ) != Ordering::Greater by {
                if i < s.len() - 1 {
                    assert(r[i] == s[i] && r[i + 1] == s[i + 1]);
                    assert(compare_spec(s[i], s[i + 1], tol) != Ordering::Greater);
                } else {
                    assert(r[i] == s.last() && r[i + 1] == p);
                }
            }
        }
    }
}

/// The sorted sequence is ascending under the comparator, neighbours that
/// compare `Equal` allowed.
pub proof fn lemma_sort_adjacent_sorted(s: Seq<Point>, tol: int)
    requires
        tol >= 0,
    ensures
        adjacent_sorted(sort_spec(s, tol), tol),
    decreases s.len(),
{
    if s.len() == 0 {
    } else {
        lemma_sort_adjacent_sorted(s.drop_last(), tol);
        lemma_insert_adjacent_sorted(sort_spec(s.drop_last(), tol), s.last(), tol);
    }
}

/// No element that deduplication keeps compares `Equal` to the element kept
/// just before it.
pub proof fn lemma_dedup_from_distinct(prev: Point, s: Seq<Point>, tol: int)
    ensures
        dedup_from(prev, s, tol).len() > 0 ==> compare_spec(prev, dedup_from(prev, s, tol)[0], tol)
            != Ordering::Equal,
        forall|i: int|
            0 <= i < dedup_from(prev, s, tol).len() - 1 ==> #[trigger] compare_spec(
                dedup_from(prev, s, tol)[i],
                dedup_from(prev, s, tol)[i + 1],
                tol,
            ) != Ordering::Equal,
    decreases s.len(),
{
    if s.len() == 0 {
    } else if compare_spec(prev, s[0], tol) == Ordering::Equal {
        lemma_dedup_from_distinct(prev, s.skip(1), tol);
    } else {
        let tail = dedup_from(s[0], s.skip(1), tol);
        let d = seq![s[0]] + tail;
        lemma_dedup_from_distinct(s[0], s.skip(1), tol);
        assert forall|i: int| 0 <= i < d.len() - 1 implies #[trigger] compare_spec(
            d[i],
            d[i + 1],
            tol,
        ) != Ordering::Equal by {
            if i == 0 {
                assert(d[0] == s[0] && d[1] == tail[0]);
            } else {
                assert(d[i] == tail[i - 1] && d[i + 1] == tail[i]);
                assert(compare_spec(tail[i - 1], tail[i - 1 + 1], tol) != Ordering::Equal);
            }
        }
    }
}

/// Deduplication keeps only points of the input sequence.
pub proof fn lemma_dedup_from_subset(prev: Point, s: Seq<Point>, tol: int)
    ensures
        forall|x: Point| #[trigger] dedup_from(prev, s, tol).contains(x) ==> s.contains(x),
    decreases s.len(),
{
    if s.len() == 0 {
    } else if compare_spec(prev, s[0], tol) == Ordering::Equal {
        lemma_dedup_from_subset(prev, s.skip(1), tol);
        assert forall|x: Point| #[trigger] dedup_from(prev, s, tol).contains(x) implies s.contains(
            x,
        ) by {
            assert(dedup_from(prev, s, tol) == dedup_from(prev, s.skip(1), tol));
            assert(dedup_from(prev, s.skip(1), tol).contains(x));
            assert(s.skip(1).contains(x));
            let j = choose|j: int| 0 <= j < s.skip(1).len() && s.skip(1)[j] == x;
            assert(s[j + 1] == x);
        }
    } else {
        let tail = dedup_from(s[0], s.skip(1), tol);
        lemma_dedup_from_subset(s[0], s.skip(1), tol);
        assert forall|x: Point| #[trigger] dedup_from(prev, s, tol).contains(x) implies s.contains(
            x,
        ) by {
            let d = seq![s[0]] + tail;
            let j = choose|j: int| 0 <= j < d.len() && d[j] == x;
            if j == 0 {
                assert(s[0] == x);
            } else {
                assert(tail[j - 1] == x);
                assert(tail.contains(x));
                assert(s.skip(1).contains(x));
                let k = choose|k: int| 0 <= k < s.skip(1).len() && s.skip(1)[k] == x;
                assert(s[k + 1] == x);
            }
        }
    }
}

/// Every point of the deduplicated sequence is a point of the input, and no
/// two neighbours of the output compare `Equal`.
pub proof fn lemma_dedup_properties(s: Seq<Point>, tol: int)
    ensures
        forall|x: Point| #[trigger] dedup_spec(s, tol).contains(x) ==> s.contains(x),
        forall|i: int|
            0 <= i < dedup_spec(s, tol).len() - 1 ==> #[trigger] compare_spec(
                dedup_spec(s, tol)[i],
                dedup_spec(s, tol)[i + 1],
                tol,
            ) != Ordering::Equal,
{
    if s.len() == 0 {
    } else {
        let tail = dedup_from(s[0], s.skip(1), tol);
        let d = seq![s[0]] + tail;
        lemma_dedup_from_distinct(s[0], s.skip(1), tol);
        lemma_dedup_from_subset(s[0], s.skip(1), tol);
        assert forall|x: Point| #[trigger] dedup_spec(s, tol).contains(x) implies s.contains(
            x,
        ) by {
            let j = choose|j: int| 0 <= j < d.len() && d[j] == x;
            if j == 0 {
                assert(s[0] == x);
            } else {
                assert(tail[j - 1] == x);
                assert(tail.contains(x));
                assert(s.skip(1).contains(x));
                let k = choose|k: int| 0 <= k < s.skip(1).len() && s.skip(1)[k] == x;
                assert(s[k + 1] == x);
            }
        }
        assert forall|i: int| 0 <= i < d.len() - 1 implies #[trigger] compare_spec(
            d[i],
            d[i + 1],
            tol,
        ) != Ordering::Equal by {
            if i == 0 {
                assert(d[0] == s[0] && d[1] == tail[0]);
            } else {
                assert(d[i] == tail[i - 1] && d[i + 1] == tail[i]);
                assert(compare_spec(tail[i - 1], tail[i - 1 + 1], tol) != Ordering::Equal);
            }
        }
    }
}

/// A point is in `seq![a] + t` exactly when it is `a` or in `t`.
proof fn lemma_cons_contains(a: Point, t: Seq<Point>)
    ensures
        forall|x: Point| #[trigger] (seq![a] + t).contains(x) <==> (x == a || t.contains(x)),
{
    assert forall|x: Point| #[trigger] (seq![a] + t).contains(x) implies (x == a || t.contains(
        x,
    )) by {
        let j = choose|j: int| 0 <= j < (seq![a] + t).len() && (seq![a] + t)[j] == x;
        if j > 0 {
            assert(t[j - 1] == x);
        }
    }
    assert forall|x: Point| (x == a || t.contains(x)) implies #[trigger] (seq![a] + t).contains(
        x,
    ) by {
        if x == a {
            assert((seq![a] + t)[0] == x);
        } else {
            let k = choose|k: int| 0 <= k < t.len() && t[k] == x;
            assert((seq![a] + t)[k + 1] == x);
        }
    }
}

/// On a sorted, pairwise separated sequence, deduplication drops only exact
/// copies of the last kept point: the kept points are strictly ascending and
/// the set of points is unchanged.
proof fn lemma_dedup_from_strict(prev: Point, s: Seq<Point>, tol: int)
    requires
        tol >= 0,
        adjacent_sorted(seq![prev] + s, tol),
        all_separated(seq![prev] + s, tol),
    ensures
        strictly_sorted(seq![prev] + dedup_from(prev, s, tol), tol),
        forall|x: Point| #[trigger]
            (seq![prev] + dedup_from(prev, s, tol)).contains(x) <==> (seq![prev] + s).contains(x),
    decreases s.len(),
{
    let u = seq![prev] + s;
    lemma_cons_contains(prev, s);
    lemma_cons_contains(prev, dedup_from(prev, s, tol));
    if s.len() == 0 {
        assert(dedup_from(prev, s, tol) =~= Seq::<Point>::empty());
        assert(seq![prev] + dedup_from(prev, s, tol) =~= seq![prev]);
    } else if compare_spec(prev, s[0], tol) == Ordering::Equal {
        assert(u[0] == prev && u[1] == s[0]);
        assert(points_separated(u[0], u[1], tol));
        lemma_separated_equal(prev, s[0], tol);
        assert(s[0] == prev);
        let u2 = seq![prev] + s.skip(1);
        assert(adjacent_sorted(u2, tol)) by {
            assert forall|i: int| 0 <= i < u2.len() - 1 implies #[trigger] compare_spec(
                u2[i],
                u2[i + 1],
                tol,
            ) != Ordering::Greater by {
                if i == 0 {
                    assert(u2[0] == prev && u2[1] == s[1]);
                    assert(u[1] == s[0] && u[2] == s[1]);
                    assert(compare_spec(u[1], u[1int + 1], tol) != Ordering::Greater);
                } else {
                    assert(u2[i] == s[i] && u2[i + 1] == s[i + 1]);
                    assert(u[i + 1] == s[i] && u[i + 2] == s[i + 1]);
                    assert(compare_spec(u[i + 1], u[i + 1 + 1], tol) != Ordering::Greater);
                }
            }
        }
        assert(all_separated(u2, tol)) by {
            assert forall|i: int, j: int|
                0 <= i < u2.len() && 0 <= j < u2.len() implies #[trigger] points_separated(
                u2[i],
                u2[j],
                tol,
            ) by {
                let i1: int = if i == 0 {
                    0
                } else {
                    i + 1
                };
                let j1: int = if j == 0 {
                    0
                } else {
                    j + 1
                };
                assert(u2[i] == u[i1] && u2[j] == u[j1]);
                assert(points_separated(u[i1], u[j1], tol));
            }
        }
        lemma_dedup_from_strict(prev, s.skip(1), tol);
        lemma_cons_contains(prev, s.skip(1));
        assert(dedup_from(prev, s, tol) == dedup_from(prev, s.skip(1), tol));
        assert forall|x: Point| #[trigger] (seq![prev] + dedup_from(prev, s, tol)).contains(x)
            <==> (seq![prev] + s).contains(x) by {
            assert((seq![prev] + dedup_from(prev, s.skip(1), tol)).contains(x) <==> (seq![prev]
                + s.skip(1)).contains(x));
            assert(s.contains(x) <==> (x == s[0] || s.skip(1).contains(x))) by {
                if s.contains(x) {
                    let j = choose|j: int| 0 <= j < s.len() && s[j] == x;
                    if j > 0 {
                        assert(s.skip(1)[j - 1] == x);
                    }
                }
                if s.skip(1).contains(x) {
                    let k = choose|k: int| 0 <= k < s.skip(1).len() && s.skip(1)[k] == x;
                    assert(s[k + 1] == x);
                }
                if x == s[0] {
                    assert(s[0] == x);
                }
            }
        }
    } else {
        assert(u[0] == prev && u[1] == s[0]);
        assert(compare_spec(u[0], u[0int + 1], tol) != Ordering::Greater);
        let tail = dedup_from(s[0], s.skip(1), tol);
        assert(seq![s[0]] + s.skip(1) =~= s);
        assert(adjacent_sorted(s, tol)) by {
            assert forall|i: int| 0 <= i < s.len() - 1 implies #[trigger] compare_spec(
                s[i],
                s[i + 1],
                tol,
            ) != Ordering::Greater by {
                assert(u[i + 1] == s[i] && u[i + 2] == s[i + 1]);
                assert(compare_spec(u[i + 1], u[i + 1 + 1], tol) != Ordering::Greater);
            }
        }
        assert(all_separated(s, tol)) by {
            assert forall|i: int, j: int|
                0 <= i < s.len() && 0 <= j < s.len() implies #[trigger] points_separated(
                s[i],
                s[j],
                tol,
            ) by {
                assert(s[i] == u[i + 1] && s[j] == u[j + 1]);
                assert(points_separated(u[i + 1], u[j + 1], tol));
            }
        }
        lemma_dedup_from_strict(s[0], s.skip(1), tol);
        lemma_cons_contains(s[0], tail);
        lemma_cons_contains(s[0], s.skip(1));
        let d = seq![s[0]] + tail;
        assert(dedup_from(prev, s, tol) == d);
        assert(strictly_sorted(seq![prev] + d, tol)) by {
            let w = seq![prev] + d;
            assert forall|i: int| 0 <= i < w.len() - 1 implies #[trigger] compare_spec(
                w[i],
                w[i + 1],
                tol,
            ) == Ordering::Less by {
                if i == 0 {
                    assert(w[0] == prev && w[1] == s[0]);
                } else {
                    assert(w[i] == d[i - 1] && w[i + 1] == d[i]);
                    assert(compare_spec(d[i - 1], d[i - 1 + 1], tol) == Ordering::Less);
                }
            }
        }
        assert forall|x: Point| #[trigger] (seq![prev] + dedup_from(prev, s, tol)).contains(x)
            <==> (seq![prev] + s).contains(x) by {
            assert(d.contains(x) <==> s.contains(x)) by {
                assert((seq![s[0]] + tail).contains(x) <==> (seq![s[0]] + s.skip(1)).contains(x));
            }
        }
    }
}

/// Deduplication of a sorted, pairwise separated sequence keeps the points
/// strictly ascending and keeps exactly the set of input points.
pub proof fn lemma_dedup_separated(s: Seq<Point>, tol: int)
    requires
        tol >= 0,
        adjacent_sorted(s, tol),
        all_separated(s, tol),
    ensures
        strictly_sorted(dedup_spec(s, tol), tol),
        forall|x: Point| #[trigger] dedup_spec(s, tol).contains(x) <==> s.contains(x),
{
    if s.len() == 0 {
    } else {
        assert(seq![s[0]] + s.skip(1) =~= s);
        lemma_dedup_from_strict(s[0], s.skip(1), tol);
        assert(dedup_spec(s, tol) == seq![s[0]] + dedup_from(s[0], s.skip(1), tol));
        assert(strictly_sorted(dedup_spec(s, tol), tol)) by {
            let w = seq![s[0]] + dedup_from(s[0], s.skip(1), tol);
            assert forall|i: int| 0 <= i < dedup_spec(s, tol).len() - 1 implies #[trigger]
                compare_spec(dedup_spec(s, tol)[i], dedup_spec(s, tol)[i + 1], tol)
                == Ordering::Less by {
                assert(compare_spec(w[i], w[i + 1], tol) == Ordering::Less);
            }
        }
    }
}

/// On a strictly sorted, pairwise separated sequence the order is global:
/// any earlier point compares `Less` than any later one, so no point repeats.
pub proof fn lemma_strictly_sorted_global(s: Seq<Point>, tol: int)
    requires
        tol >= 0,
        strictly_sorted(s, tol),
        all_separated(s, tol),
    ensures
        forall|i: int, j: int|
            0 <= i < j < s.len() ==> #[trigger] compare_spec(s[i], s[j], tol) == Ordering::Less,
        s.no_duplicates(),
{
    assert forall|i: int, j: int| 0 <= i < j < s.len() implies #[trigger] compare_spec(
        s[i],
        s[j],
        tol,
    ) == Ordering::Less by {
        lemma_strict_chain(s, tol, i, j);
    }
    assert forall|i: int, j: int| 0 <= i < j < s.len() implies s[i] != s[j] by {
        assert(compare_spec(s[i], s[j], tol) == Ordering::Less);
        if s[i] == s[j] {
            assert(compare_spec(s[i], s[i], tol) == Ordering::Equal);
        }
    }
}

/// Chain step for `lemma_strictly_sorted_global`: strict order propagates
/// from neighbours to arbitrary pairs by transitivity, which separation
/// restores to the comparator.
proof fn lemma_strict_chain(s: Seq<Point>, tol: int, i: int, j: int)
    requires
        tol >= 0,
        strictly_sorted(s, tol),
        all_separated(s, tol),
        0 <= i < j < s.len(),
    ensures
        compare_spec(s[i], s[j], tol) == Ordering::Less,
    decreases j - i,
{
    if j == i + 1 {
        assert(compare_spec(s[i], s[i + 1], tol) == Ordering::Less);
    } else {
        lemma_strict_chain(s, tol, i, j - 1);
        assert(compare_spec(s[j - 1], s[j - 1 + 1], tol) == Ordering::Less);
        assert(points_separated(s[i], s[j - 1], tol));
        assert(points_separated(s[j - 1], s[j], tol));
        assert(points_separated(s[i], s[j], tol));
        lemma_compare_trans_separated(s[i], s[j - 1], s[j], tol);
    }
}

} // verus!
