//! Closed tours, the reversal of a stretch of a tour, and what a reversal
//! does to the points and to the length of the tour.

use vstd::prelude::*;
use vstd::seq_lib::lemma_multiset_commutative;
use crate::point::Point;

verus! {

/// Whether `route` is a round trip from `start` through every one of
/// `waypoints`: it opens and closes with `start`, and what lies between is a
/// rearrangement of `waypoints`, each occurring as often as it was given.
pub open spec fn is_closed_tour(route: Seq<Point>, start: Point, waypoints: Seq<Point>) -> bool {
    &&& route.len() == waypoints.len() + 2
    &&& route.first() == start
    &&& route.last() == start
    &&& route.subrange(1, route.len() - 1).to_multiset() == waypoints.to_multiset()
}

/// `route` with the stretch from position `i` to position `j`, both
/// included, in reverse order.
pub open spec fn reversed_segment(route: Seq<Point>, i: int, j: int) -> Seq<Point> {
    Seq::new(
        route.len(),
        |k: int|
            if i <= k <= j {
                route[i + j - k]
            } else {
                route[k]
            },
    )
}

/// Reverses, in place, the stretch of `route` from position `i` to position
/// `j`, both included. With `i == j + 1` the stretch is empty and nothing
/// changes.
pub fn reverse_segment(route: &mut Vec<Point>, i: usize, j: usize)
    requires
        i <= j + 1,
        j < old(route).len(),
    ensures
        final(route)@ == reversed_segment(old(route)@, i as int, j as int),
    no_unwind
{
    let mut lo: usize = i;
    let mut hi: usize = j;
    while lo < hi
        invariant
            i <= lo,
            hi <= j,
            lo + hi == i + j,
            lo <= hi + 1,
            j < route.len(),
            route.len() == old(route).len(),
            forall|k: int|
                0 <= k < route.len() ==> #[trigger] route[k] == if i <= k < lo || hi < k <= j {
                    old(route)[i + j - k]
                } else {
                    old(route)[k]
                },
        decreases hi + 1 - lo,
    {
        let front = route[lo];
        let back = route[hi];
        route[lo] = back;
        route[hi] = front;
        lo += 1;
        hi -= 1;
    }
}

/// A reversal rearranges the points of a route: none is lost, none is added.
pub proof fn reversal_keeps_points(route: Seq<Point>, i: int, j: int)
    requires
        0 <= i <= j < route.len(),
    ensures
        reversed_segment(route, i, j).len() == route.len(),
        reversed_segment(route, i, j).to_multiset() == route.to_multiset(),
{
    let head = route.subrange(0, i);
    let middle = route.subrange(i, j + 1);
    let tail = route.subrange(j + 1, route.len() as int);
    assert(route =~= head + middle + tail);
    assert(reversed_segment(route, i, j) =~= head + middle.reverse() + tail);
    middle.lemma_reverse_to_multiset();
    lemma_multiset_commutative(head, middle);
    lemma_multiset_commutative(head + middle, tail);
    lemma_multiset_commutative(head, middle.reverse());
    lemma_multiset_commutative(head + middle.reverse(), tail);
}

/// A reversal that leaves both ends of a closed tour in place yields a closed
/// tour of the same waypoints from the same start.
pub proof fn reversal_keeps_tour(
    route: Seq<Point>,
    i: int,
    j: int,
    start: Point,
    waypoints: Seq<Point>,
)
    requires
        is_closed_tour(route, start, waypoints),
        1 <= i <= j <= route.len() - 2,
    ensures
        is_closed_tour(reversed_segment(route, i, j), start, waypoints),
{
    let inner = route.subrange(1, route.len() - 1);
    let after = reversed_segment(route, i, j);
    assert(after.subrange(1, after.len() - 1) =~= reversed_segment(inner, i - 1, j - 1));
    reversal_keeps_points(inner, i - 1, j - 1);
}

/// The length of `route` under `dist`: the sum of the distances of its
/// consecutive pairs of points, in whole units.
pub open spec fn route_length(route: Seq<Point>, dist: spec_fn(Point, Point) -> int) -> int
    decreases route.len(),
{
    if route.len() < 2 {
        0
    } else {
        route_length(route.drop_last(), dist) + dist(route[route.len() - 2], route.last())
    }
}

/// Whether `dist` gives the same distance in both directions.
pub open spec fn is_symmetric(dist: spec_fn(Point, Point) -> int) -> bool {
    forall|a: Point, b: Point| #[trigger] dist(a, b) == dist(b, a)
}

/// Whether `dist` gives no negative distance.
pub open spec fn is_nonnegative(dist: spec_fn(Point, Point) -> int) -> bool {
    forall|a: Point, b: Point| #[trigger] dist(a, b) >= 0
}

/// What replacing the legs `a-b` and `c-d` by the legs `a-c` and `b-d` adds
/// to the length of a tour.
pub open spec fn edge_delta(
    a: Point,
    b: Point,
    c: Point,
    d: Point,
    dist: spec_fn(Point, Point) -> int,
) -> int {
    dist(a, c) + dist(b, d) - dist(a, b) - dist(c, d)
}

/// Without negative distances no route has a negative length.
pub proof fn route_length_is_nonnegative(route: Seq<Point>, dist: spec_fn(Point, Point) -> int)
    requires
        is_nonnegative(dist),
    ensures
        route_length(route, dist) >= 0,
    decreases route.len(),
{
    if route.len() >= 2 {
        route_length_is_nonnegative(route.drop_last(), dist);
    }
}

/// The length of two routes laid end to end is the sum of their lengths and
/// of the leg that joins them.
pub proof fn route_length_of_concat(
    head: Seq<Point>,
    tail: Seq<Point>,
    dist: spec_fn(Point, Point) -> int,
)
    requires
        head.len() > 0,
        tail.len() > 0,
    ensures
        route_length(head + tail, dist) == route_length(head, dist) + dist(
            head.last(),
            tail.first(),
        ) + route_length(tail, dist),
    decreases tail.len(),
{
    let whole = head + tail;
    if tail.len() == 1 {
        assert(whole.drop_last() =~= head);
    } else {
        assert(whole.drop_last() =~= head + tail.drop_last());
        route_length_of_concat(head, tail.drop_last(), dist);
    }
}

/// Under a symmetric distance a route is as long backwards as forwards.
pub proof fn route_length_of_reverse(route: Seq<Point>, dist: spec_fn(Point, Point) -> int)
    requires
        is_symmetric(dist),
    ensures
        route_length(route.reverse(), dist) == route_length(route, dist),
    decreases route.len(),
{
    if route.len() >= 2 {
        let front = route.drop_last();
        let last = route.last();
        assert(route.reverse() =~= seq![last] + front.reverse());
        route_length_of_concat(seq![last], front.reverse(), dist);
        route_length_of_reverse(front, dist);
    }
}

/// Under a symmetric distance, reversing a stretch that leaves both ends of
/// the route in place changes the length of the route by exactly the delta
/// of the four points around the stretch.
pub proof fn reversal_changes_length_by_delta(
    route: Seq<Point>,
    i: int,
    j: int,
    dist: spec_fn(Point, Point) -> int,
)
    requires
        is_symmetric(dist),
        1 <= i <= j <= route.len() - 2,
    ensures
        route_length(reversed_segment(route, i, j), dist) == route_length(route, dist)
            + edge_delta(route[i - 1], route[i], route[j], route[j + 1], dist),
{
    let head = route.subrange(0, i);
    let middle = route.subrange(i, j + 1);
    let tail = route.subrange(j + 1, route.len() as int);
    assert(route =~= head + middle + tail);
    assert(reversed_segment(route, i, j) =~= head + middle.reverse() + tail);
    route_length_of_concat(head, middle, dist);
    route_length_of_concat(head + middle, tail, dist);
    route_length_of_concat(head, middle.reverse(), dist);
    route_length_of_concat(head + middle.reverse(), tail, dist);
    route_length_of_reverse(middle, dist);
}

} // verus!
