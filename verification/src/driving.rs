//! Searches driven by a fixed rule.
//!
//! A caller that judges every candidate by the same rule, a function of the
//! four points around the stretch, drives a search along one path. This
//! module follows that path: it shows that the tour stays a closed tour and
//! never grows longer, that the search comes to an end, and that searching
//! again what a search has left changes nothing.

use vstd::prelude::*;
use crate::point::Point;
use crate::route::{
    edge_delta, is_closed_tour, is_nonnegative, is_symmetric, route_length,
    route_length_is_nonnegative,
};
use crate::two_opt::{
    begin, step, step_changes_length_by_delta, step_keeps_tour, step_keeps_wf, SearchState,
};

verus! {

/// What a rule that judges a candidate by its four points says of the
/// candidate pending in `s`; `false` once the search has ended.
pub open spec fn verdict(
    s: SearchState,
    rule: spec_fn(Point, Point, Point, Point) -> bool,
) -> bool {
    match s.pending_edges() {
        Some((a, b, c, d)) => rule(a, b, c, d),
        None => false,
    }
}

/// The state reached from `s` after `n` candidates have been judged by
/// `rule`.
pub open spec fn drive(
    s: SearchState,
    rule: spec_fn(Point, Point, Point, Point) -> bool,
    n: nat,
) -> SearchState
    decreases n,
{
    if n == 0 {
        s
    } else {
        drive(step(s, verdict(s, rule)), rule, (n - 1) as nat)
    }
}

/// How many stretches are reversed while `n` candidates are judged by `rule`,
/// starting in `s`.
pub open spec fn swaps(
    s: SearchState,
    rule: spec_fn(Point, Point, Point, Point) -> bool,
    n: nat,
) -> nat
    decreases n,
{
    if n == 0 {
        0
    } else {
        let taken: nat = if verdict(s, rule) {
            1
        } else {
            0
        };
        taken + swaps(step(s, verdict(s, rule)), rule, (n - 1) as nat)
    }
}

/// Whether `rule` approves the reversal of the stretch from `i` to `j` of
/// `route`.
pub open spec fn approves(
    rule: spec_fn(Point, Point, Point, Point) -> bool,
    route: Seq<Point>,
    i: int,
    j: int,
) -> bool {
    rule(route[i - 1], route[i], route[j], route[j + 1])
}

/// Whether `rule` approves no candidate of `route`: a search of `route` has
/// nothing to do.
pub open spec fn is_settled(
    route: Seq<Point>,
    rule: spec_fn(Point, Point, Point, Point) -> bool,
) -> bool {
    forall|i: int, j: int| 1 <= i < j <= route.len() - 2 ==> !#[trigger] approves(rule, route, i, j)
}

/// Whether `rule` approves only reversals that do not lengthen a tour
/// measured by `dist`.
pub open spec fn never_lengthens(
    rule: spec_fn(Point, Point, Point, Point) -> bool,
    dist: spec_fn(Point, Point) -> int,
) -> bool {
    forall|a: Point, b: Point, c: Point, d: Point| #[trigger]
        rule(a, b, c, d) ==> edge_delta(a, b, c, d, dist) <= 0
}

/// Whether `rule` approves only reversals that shorten a tour measured by
/// `dist`.
pub open spec fn always_shortens(
    rule: spec_fn(Point, Point, Point, Point) -> bool,
    dist: spec_fn(Point, Point) -> int,
) -> bool {
    forall|a: Point, b: Point, c: Point, d: Point| #[trigger]
        rule(a, b, c, d) ==> edge_delta(a, b, c, d, dist) < 0
}

/// The number of candidates from the pair `(i, j)` to the end of a pass over
/// a route of `len` points, that pair included.
pub open spec fn candidates_left(len: nat, i: int, j: int) -> nat
    decreases len - i, len - j,
{
    if j + 1 <= len - 2 {
        1 + candidates_left(len, i, j + 1)
    } else if i + 2 <= len - 2 {
        1 + candidates_left(len, i + 1, i + 2)
    } else {
        1
    }
}

/// The number of candidates in one pass over a route of `len` points.
pub open spec fn pass_length(len: nat) -> nat {
    if len < 4 {
        0
    } else {
        candidates_left(len, 1, 2)
    }
}

/// Driven by any rule, the tour of a search stays a closed tour of the same
/// waypoints from the same start.
pub proof fn drive_keeps_tour(
    s: SearchState,
    rule: spec_fn(Point, Point, Point, Point) -> bool,
    n: nat,
    start: Point,
    waypoints: Seq<Point>,
)
    requires
        s.wf(),
        is_closed_tour(s.route, start, waypoints),
    ensures
        drive(s, rule, n).wf(),
        is_closed_tour(drive(s, rule, n).route, start, waypoints),
    decreases n,
{
    if n > 0 {
        let v = verdict(s, rule);
        step_keeps_tour(s, v, start, waypoints);
        drive_keeps_tour(step(s, v), rule, (n - 1) as nat, start, waypoints);
    }
}

/// Driven on from any state, a search never lengthens the tour: when the
/// distance is symmetric and the rule approves only reversals whose delta is
/// not positive, the tour is at no time longer than it was in that state.
pub proof fn drive_never_lengthens(
    s: SearchState,
    rule: spec_fn(Point, Point, Point, Point) -> bool,
    dist: spec_fn(Point, Point) -> int,
    n: nat,
)
    requires
        s.wf(),
        is_symmetric(dist),
        never_lengthens(rule, dist),
    ensures
        drive(s, rule, n).wf(),
        route_length(drive(s, rule, n).route, dist) <= route_length(s.route, dist),
    decreases n,
{
    if n > 0 {
        let v = verdict(s, rule);
        step_changes_length_by_delta(s, v, dist);
        drive_never_lengthens(step(s, v), rule, dist, (n - 1) as nat);
    }
}

/// The refined tour is no longer than the tour the search began with: when
/// the distance is symmetric and the rule approves only reversals whose
/// delta is not positive, a search of `route` holds, after any number of
/// verdicts, a tour at most as long as `route`.
pub proof fn search_never_lengthens(
    route: Seq<Point>,
    rule: spec_fn(Point, Point, Point, Point) -> bool,
    dist: spec_fn(Point, Point) -> int,
    n: nat,
)
    requires
        is_symmetric(dist),
        never_lengthens(rule, dist),
    ensures
        route_length(drive(begin(route), rule, n).route, dist) <= route_length(route, dist),
{
    drive_never_lengthens(begin(route), rule, dist, n);
}

/// Whether the pair `(i, j)` comes before the cursor in the order of a pass;
/// every pair does once the search has ended.
spec fn is_behind(cursor: Option<(int, int)>, i: int, j: int) -> bool {
    match cursor {
        Some((ci, cj)) => i < ci || (i == ci && j < cj),
        None => true,
    }
}

/// Whether, in a pass that has reversed nothing so far, `rule` has approved
/// none of the candidates already judged.
spec fn is_quiet(s: SearchState, rule: spec_fn(Point, Point, Point, Point) -> bool) -> bool {
    !s.improved ==> forall|i: int, j: int|
        1 <= i < j <= s.route.len() - 2 && is_behind(s.cursor, i, j) ==> !#[trigger] approves(
            rule,
            s.route,
            i,
            j,
        )
}

/// Driven on by `rule` from a quiet state, a search stays quiet.
proof fn drive_stays_quiet(
    s: SearchState,
    rule: spec_fn(Point, Point, Point, Point) -> bool,
    n: nat,
)
    requires
        s.wf(),
        is_quiet(s, rule),
    ensures
        drive(s, rule, n).wf(),
        is_quiet(drive(s, rule, n), rule),
    decreases n,
{
    if n > 0 {
        let v = verdict(s, rule);
        drive_stays_quiet(step(s, v), rule, (n - 1) as nat);
    }
}

/// A search that has ended leaves a settled tour: the rule that drove it
/// approves no candidate of the tour it ended with.
pub proof fn finished_search_is_settled(
    route: Seq<Point>,
    rule: spec_fn(Point, Point, Point, Point) -> bool,
    n: nat,
)
    requires
        drive(begin(route), rule, n).cursor is None,
    ensures
        is_settled(drive(begin(route), rule, n).route, rule),
{
    drive_stays_quiet(begin(route), rule, n);
}

/// A search of a settled tour reverses nothing: in a pass that has reversed
/// nothing so far, the tour stays as it is for as long as the search is
/// driven, and the search has ended once the candidates left in the pass
/// have been judged.
pub proof fn settled_search_changes_nothing(
    s: SearchState,
    rule: spec_fn(Point, Point, Point, Point) -> bool,
    n: nat,
)
    requires
        s.wf(),
        !s.improved,
        is_settled(s.route, rule),
    ensures
        drive(s, rule, n).route == s.route,
        !drive(s, rule, n).improved,
        swaps(s, rule, n) == 0,
        match s.cursor {
            Some((i, j)) => n >= candidates_left(s.route.len(), i, j) ==> drive(
                s,
                rule,
                n,
            ).cursor is None,
            None => drive(s, rule, n).cursor is None,
        },
    decreases n,
{
    if n > 0 {
        if let Some((i, j)) = s.cursor {
            assert(approves(rule, s.route, i, j) == verdict(s, rule));
        }
        let next = step(s, false);
        settled_search_changes_nothing(next, rule, (n - 1) as nat);
    }
}

/// Searching again what a search has left changes nothing. If a search of
/// `route` driven by `rule` has ended after `n` verdicts, then a second
/// search of the tour it ended with, driven by the same rule, reverses no
/// stretch, holds that same tour after any number `m` of verdicts, and has
/// ended after one pass.
pub proof fn second_search_changes_nothing(
    route: Seq<Point>,
    rule: spec_fn(Point, Point, Point, Point) -> bool,
    n: nat,
    m: nat,
)
    requires
        drive(begin(route), rule, n).cursor is None,
    ensures
        ({
            let settled = drive(begin(route), rule, n).route;
            &&& swaps(begin(settled), rule, m) == 0
            &&& drive(begin(settled), rule, m).route == settled
            &&& m >= pass_length(settled.len()) ==> drive(begin(settled), rule, m).cursor is None
        }),
{
    finished_search_is_settled(route, rule, n);
    settled_search_changes_nothing(begin(drive(begin(route), rule, n).route), rule, m);
}

/// A pass judges every pair of interior positions once: over a route of
/// `len` points, with `len - 2` interior positions, that is
/// `(len - 2) * (len - 3) / 2` candidates.
pub proof fn pass_length_counts_pairs(len: nat)
    requires
        len >= 4,
    ensures
        2 * pass_length(len) == (len - 2) * (len - 3),
{
    candidates_left_counts_pairs(len, 1, 2);
    assert(2 * (len - 3) + (len - 4) * (len - 3) == (len - 2) * (len - 3)) by (nonlinear_arith);
}

/// The candidates left from a pair on are those of its own row from it on
/// and those of all later rows.
proof fn candidates_left_counts_pairs(len: nat, i: int, j: int)
    requires
        1 <= i < j <= len - 2,
    ensures
        2 * candidates_left(len, i, j) == 2 * (len - 1 - j) + (len - 3 - i) * (len - 2 - i),
    decreases len - i, len - j,
{
    if j + 1 <= len - 2 {
        candidates_left_counts_pairs(len, i, j + 1);
    } else if i + 2 <= len - 2 {
        candidates_left_counts_pairs(len, i + 1, i + 2);
        assert(2 + 2 * (len - 3 - i) + (len - 4 - i) * (len - 3 - i) == 2 + (len - 3 - i) * (len
            - 2 - i)) by (nonlinear_arith);
    } else {
        assert((len - 3 - i) * (len - 2 - i) == 0) by (nonlinear_arith)
            requires
                i == len - 3,
        ;
    }
}

/// A number of verdicts after which the search in `s` has ended, if every
/// reversal shortens the tour by at least one unit of `dist`: each pass but
/// the last shortens the tour, so no more passes follow than the tour has
/// units of length.
spec fn verdicts_to_go(s: SearchState, dist: spec_fn(Point, Point) -> int) -> int {
    match s.cursor {
        Some((i, j)) => {
            let pass = pass_length(s.route.len());
            let owed: int = if s.improved {
                pass as int
            } else {
                0
            };
            pass * route_length(s.route, dist) + owed + candidates_left(s.route.len(), i, j)
        },
        None => 0,
    }
}

/// Every verdict takes at least one off the number of verdicts to go.
proof fn step_brings_the_end_nearer(
    s: SearchState,
    rule: spec_fn(Point, Point, Point, Point) -> bool,
    dist: spec_fn(Point, Point) -> int,
)
    requires
        s.wf(),
        s.cursor is Some,
        is_symmetric(dist),
        is_nonnegative(dist),
        always_shortens(rule, dist),
    ensures
        0 <= verdicts_to_go(step(s, verdict(s, rule)), dist) < verdicts_to_go(s, dist),
{
    let v = verdict(s, rule);
    let next = step(s, v);
    let pass = pass_length(s.route.len()) as int;
    let before = route_length(s.route, dist);
    let after = route_length(next.route, dist);
    step_changes_length_by_delta(s, v, dist);
    route_length_is_nonnegative(next.route, dist);
    assert(0 <= pass * after) by (nonlinear_arith)
        requires
            0 <= pass,
            0 <= after,
    ;
    if v {
        assert(pass * after <= pass * before - pass) by (nonlinear_arith)
            requires
                0 <= pass,
                after <= before - 1,
        ;
    }
}

/// Driven on from any state, a search has ended once the verdicts to go
/// have been given.
proof fn drive_reaches_the_end(
    s: SearchState,
    rule: spec_fn(Point, Point, Point, Point) -> bool,
    dist: spec_fn(Point, Point) -> int,
    n: nat,
)
    requires
        s.wf(),
        is_symmetric(dist),
        is_nonnegative(dist),
        always_shortens(rule, dist),
        n >= verdicts_to_go(s, dist),
    ensures
        drive(s, rule, n).cursor is None,
    decreases n,
{
    if n > 0 {
        if s.cursor is Some {
            step_brings_the_end_nearer(s, rule, dist);
        }
        drive_reaches_the_end(step(s, verdict(s, rule)), rule, dist, (n - 1) as nat);
    } else if s.cursor is Some {
        route_length_is_nonnegative(s.route, dist);
        assert(0 <= pass_length(s.route.len()) * route_length(s.route, dist))
            by (nonlinear_arith)
            requires
                0 <= pass_length(s.route.len()),
                0 <= route_length(s.route, dist),
        ;
    }
}

/// A search comes to an end. When the distance is symmetric and never
/// negative and the rule approves only reversals that shorten the tour, a
/// search of `route` has ended once `(length + 1) * pass` candidates have
/// been judged, where `length` is the length of `route` in units of `dist`
/// and `pass` the number of candidates of one pass.
pub proof fn search_ends(
    route: Seq<Point>,
    rule: spec_fn(Point, Point, Point, Point) -> bool,
    dist: spec_fn(Point, Point) -> int,
    n: nat,
)
    requires
        is_symmetric(dist),
        is_nonnegative(dist),
        always_shortens(rule, dist),
        n >= (route_length(route, dist) + 1) * pass_length(route.len()),
    ensures
        drive(begin(route), rule, n).cursor is None,
{
    let pass = pass_length(route.len()) as int;
    let length = route_length(route, dist);
    assert((length + 1) * pass == pass * length + pass) by (nonlinear_arith);
    drive_reaches_the_end(begin(route), rule, dist, n);
}

} // verus!
