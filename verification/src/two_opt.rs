//! 2-opt refinement of a closed tour, one candidate reversal at a time.
//!
//! A search walks over the pairs of positions `(i, j)` with
//! `1 <= i < j <= len - 2`, in passes. For each pair the caller says whether
//! reversing the stretch from `i` to `j` shortens the tour enough; if so the
//! stretch is reversed at once, so that later pairs of the same pass see the
//! changed tour. A pass in which some stretch was reversed is followed by
//! another; the search ends with the first pass that reverses nothing.
//! Whether a reversal shortens the tour is the caller's arithmetic: the
//! search hands out the four points that decide it and takes the verdict.

use vstd::prelude::*;
use crate::point::Point;
use crate::route::{
    edge_delta, is_closed_tour, is_symmetric, reversal_changes_length_by_delta,
    reversal_keeps_tour, reverse_segment, reversed_segment, route_length,
};

verus! {

/// The state of a search, as a mathematical value.
pub struct SearchState {
    /// The tour as it stands.
    pub route: Seq<Point>,
    /// The pair of positions awaiting a verdict, or `None` once the search
    /// has ended.
    pub cursor: Option<(int, int)>,
    /// Whether the current pass has reversed a stretch so far.
    pub improved: bool,
}

impl SearchState {
    /// The cursor, if any, names two interior positions in order, and a
    /// search that has ended is not in the middle of an improving pass.
    pub open spec fn wf(self) -> bool {
        match self.cursor {
            Some((i, j)) => 1 <= i < j <= self.route.len() - 2,
            None => !self.improved,
        }
    }

    /// The four points that decide the pending candidate: the tour runs
    /// `a, b, .., c, d` with `b` at the cursor's first position and `c` at
    /// its second, and the reversal would replace the legs `a-b` and `c-d`
    /// by `a-c` and `b-d`.
    pub open spec fn pending_edges(self) -> Option<(Point, Point, Point, Point)> {
        match self.cursor {
            Some((i, j)) => Some(
                (self.route[i - 1], self.route[i], self.route[j], self.route[j + 1]),
            ),
            None => None,
        }
    }
}

/// The state in which a search of `route` begins. A route of fewer than four
/// points has no candidate, and its search has ended before it began.
pub open spec fn begin(route: Seq<Point>) -> SearchState {
    SearchState {
        route,
        cursor: if route.len() < 4 {
            None
        } else {
            Some((1, 2))
        },
        improved: false,
    }
}

/// The state that follows `s` once the pending candidate has been judged.
///
/// An improving candidate is reversed. The cursor then moves to the next
/// pair of the pass; after the last pair it returns to the first pair if the
/// pass reversed anything, and the search ends if it did not. A search that
/// has ended stays as it is.
pub open spec fn step(s: SearchState, improving: bool) -> SearchState {
    match s.cursor {
        None => s,
        Some((i, j)) => {
            let route = if improving {
                reversed_segment(s.route, i, j)
            } else {
                s.route
            };
            let improved = s.improved || improving;
            if j + 1 <= route.len() - 2 {
                SearchState { route, cursor: Some((i, j + 1)), improved }
            } else if i + 2 <= route.len() - 2 {
                SearchState { route, cursor: Some((i + 1, i + 2)), improved }
            } else if improved {
                SearchState { route, cursor: Some((1, 2)), improved: false }
            } else {
                SearchState { route, cursor: None, improved: false }
            }
        },
    }
}

/// The state reached from `s` when the candidates are judged, one after the
/// other, as `verdicts` says.
pub open spec fn run(s: SearchState, verdicts: Seq<bool>) -> SearchState
    decreases verdicts.len(),
{
    if verdicts.len() == 0 {
        s
    } else {
        run(step(s, verdicts.first()), verdicts.drop_first())
    }
}

/// A search begins in a well-formed state.
pub proof fn begin_is_wf(route: Seq<Point>)
    ensures
        begin(route).wf(),
{
}

/// A step leads from a well-formed state to a well-formed state and keeps
/// the number of points.
pub proof fn step_keeps_wf(s: SearchState, improving: bool)
    requires
        s.wf(),
    ensures
        step(s, improving).wf(),
        step(s, improving).route.len() == s.route.len(),
{
}

/// A step keeps a closed tour a closed tour of the same waypoints from the
/// same start, whatever the verdict.
pub proof fn step_keeps_tour(s: SearchState, improving: bool, start: Point, waypoints: Seq<Point>)
    requires
        s.wf(),
        is_closed_tour(s.route, start, waypoints),
    ensures
        is_closed_tour(step(s, improving).route, start, waypoints),
{
    if let Some((i, j)) = s.cursor {
        if improving {
            reversal_keeps_tour(s.route, i, j, start, waypoints);
        }
    }
}

/// However the candidates are judged, the tour of a search stays a closed
/// tour of the same waypoints from the same start.
pub proof fn run_keeps_tour(
    s: SearchState,
    verdicts: Seq<bool>,
    start: Point,
    waypoints: Seq<Point>,
)
    requires
        s.wf(),
        is_closed_tour(s.route, start, waypoints),
    ensures
        run(s, verdicts).wf(),
        is_closed_tour(run(s, verdicts).route, start, waypoints),
    decreases verdicts.len(),
{
    if verdicts.len() > 0 {
        step_keeps_tour(s, verdicts.first(), start, waypoints);
        run_keeps_tour(step(s, verdicts.first()), verdicts.drop_first(), start, waypoints);
    }
}

/// A route of fewer than four points is left alone: its search has ended
/// before the first verdict, and no verdict changes it.
pub proof fn short_route_is_left_alone(route: Seq<Point>, verdicts: Seq<bool>)
    requires
        route.len() < 4,
    ensures
        begin(route).cursor is None,
        run(begin(route), verdicts) == begin(route),
        run(begin(route), verdicts).route == route,
    decreases verdicts.len(),
{
    if verdicts.len() > 0 {
        short_route_is_left_alone(route, verdicts.drop_first());
    }
}

/// Under a symmetric distance a step changes the length of the tour by the
/// delta of the pending candidate if the candidate is taken, and not at all
/// if it is not.
pub proof fn step_changes_length_by_delta(
    s: SearchState,
    improving: bool,
    dist: spec_fn(Point, Point) -> int,
)
    requires
        s.wf(),
        is_symmetric(dist),
    ensures
        route_length(step(s, improving).route, dist) == route_length(s.route, dist) + (
        match s.pending_edges() {
            Some((a, b, c, d)) if improving => edge_delta(a, b, c, d, dist),
            _ => 0,
        }),
{
    if let Some((i, j)) = s.cursor {
        if improving {
            reversal_changes_length_by_delta(s.route, i, j, dist);
        }
    }
}

/// A 2-opt search over a tour that it owns.
pub struct TwoOpt {
    route: Vec<Point>,
    cursor: Option<(usize, usize)>,
    improved: bool,
}

impl View for TwoOpt {
    type V = SearchState;

    closed spec fn view(&self) -> SearchState {
        SearchState {
            route: self.route@,
            cursor: match self.cursor {
                Some((i, j)) => Some((i as int, j as int)),
                None => None,
            },
            improved: self.improved,
        }
    }
}

impl TwoOpt {
    #[verifier::type_invariant]
    spec fn well_formed(self) -> bool {
        self@.wf()
    }

    /// Starts a search of `route`.
    pub fn new(route: Vec<Point>) -> (search: TwoOpt)
        ensures
            search@ == begin(route@),
    {
        let cursor = if route.len() < 4 {
            None
        } else {
            Some((1usize, 2usize))
        };
        TwoOpt { route, cursor, improved: false }
    }

    /// Whether the search has ended.
    pub fn is_finished(&self) -> (finished: bool)
        ensures
            finished == (self@.cursor is None),
            self@.wf(),
    {
        proof {
            use_type_invariant(self);
        }
        self.cursor.is_none()
    }

    /// The four points that decide the pending candidate, or `None` once the
    /// search has ended.
    pub fn pending_edges(&self) -> (edges: Option<(Point, Point, Point, Point)>)
        ensures
            edges == self@.pending_edges(),
            self@.wf(),
    {
        proof {
            use_type_invariant(self);
        }
        match self.cursor {
            Some((i, j)) => {
                assert(j + 1 < self.route.len());
                Some((self.route[i - 1], self.route[i], self.route[j], self.route[j + 1]))
            },
            None => None,
        }
    }

    /// Takes the verdict on the pending candidate and moves on. A verdict
    /// given after the search has ended changes nothing.
    pub fn advance(&mut self, improving: bool)
        ensures
            final(self)@ == step(old(self)@, improving),
            final(self)@.wf(),
    {
        proof {
            use_type_invariant(&*self);
        }
        match self.cursor {
            None => {},
            Some((i, j)) => {
                if improving {
                    reverse_segment(&mut self.route, i, j);
                }
                let improved = self.improved || improving;
                let last = self.route.len() - 2;
                if j + 1 <= last {
                    self.cursor = Some((i, j + 1));
                    self.improved = improved;
                } else if i + 2 <= last {
                    self.cursor = Some((i + 1, i + 2));
                    self.improved = improved;
                } else if improved {
                    self.cursor = Some((1, 2));
                    self.improved = false;
                } else {
                    self.improved = false;
                    self.cursor = None;
                }
            },
        }
    }

    /// The tour as it stands.
    pub fn route(&self) -> (route: &Vec<Point>)
        ensures
            route@ == self@.route,
    {
        &self.route
    }

    /// Hands back the tour as it stands; the search is over.
    pub fn into_route(self) -> (route: Vec<Point>)
        ensures
            route@ == self@.route,
    {
        self.route
    }
}

} // verus!
