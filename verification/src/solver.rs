//! The solver: a fixed set of waypoints, the point where every tour starts
//! and ends, and the distances measured between them.

use vstd::prelude::*;
use vstd::seq_lib::{lemma_multiset_commutative, to_multiset_contains, to_multiset_remove};
use crate::distance::DistanceTable;
use crate::nearest::{
    greedy_visits, greedy_visits_are_nearest_first, greedy_visits_rearranges, is_nearest_first,
    nearest_first_is_unique, nearest_position, nearest_position_is_unique, pool_keys,
    stops_after_start, visit_order,
};
use crate::point::Point;
use crate::route::is_closed_tour;
use crate::two_opt::{begin, run, run_keeps_tour, short_route_is_left_alone, TwoOpt};

verus! {

/// The waypoints that stand at the given stops, in the order of the stops.
/// Stop `k` is the waypoint at position `k - 1`; stop 0 is no waypoint.
pub open spec fn waypoints_at(waypoints: Seq<Point>, stops: Seq<usize>) -> Seq<Point> {
    Seq::new(stops.len(), |k: int| waypoints[stops[k] - 1])
}

/// The round trip from `start` through the waypoints at `stops`, in that
/// order, and back to `start`.
pub open spec fn tour_through(start: Point, waypoints: Seq<Point>, stops: Seq<usize>) -> Seq<
    Point,
> {
    seq![start] + waypoints_at(waypoints, stops) + seq![start]
}

/// Visiting a pool of stops nearest-first reaches the same waypoints as the
/// pool names, each as often.
pub proof fn greedy_visits_reach_every_waypoint(
    waypoints: Seq<Point>,
    table: Seq<Seq<u64>>,
    from: usize,
    pool: Seq<usize>,
)
    ensures
        waypoints_at(waypoints, greedy_visits(table, from, pool)).to_multiset() == waypoints_at(
            waypoints,
            pool,
        ).to_multiset(),
    decreases pool.len(),
{

    let visits = greedy_visits(table, from, pool);
    if pool.len() == 0 {
        assert(visits =~= pool);
    } else {
        let keys = pool_keys(table, from, pool);
        nearest_position_is_unique(keys, 0);
        let k = nearest_position(keys);
        let rest = greedy_visits(table, pool[k], pool.remove(k));
        let there = waypoints_at(waypoints, pool);
        let first = there[k];
        greedy_visits_reach_every_waypoint(waypoints, table, pool[k], pool.remove(k));
        assert(waypoints_at(waypoints, pool.remove(k)) =~= there.remove(k));
        assert(waypoints_at(waypoints, visits) =~= seq![first] + waypoints_at(waypoints, rest));
        to_multiset_remove(there, k);
        to_multiset_contains(there, first);
        lemma_multiset_commutative(seq![first], waypoints_at(waypoints, rest));
        assert(seq![first].to_multiset() =~= vstd::multiset::Multiset::singleton(first)) by {
            Seq::<Point>::empty().to_multiset_ensures();
        }
    }
}

/// What a solver is given, as a mathematical value.
pub struct Problem {
    /// The waypoints, in the order in which they were given.
    pub waypoints: Seq<Point>,
    /// The point where every tour starts and ends.
    pub start: Point,
    /// The table of distance keys. Stop 0 is the start, and stop `k` is the
    /// waypoint at position `k - 1`.
    pub distances: Seq<Seq<u64>>,
}

impl Problem {
    /// The table covers the start and every waypoint, and nothing else.
    pub open spec fn wf(self) -> bool {
        self.distances.len() == self.waypoints.len() + 1
    }

    /// The stops that stand for the waypoints, in the order of the
    /// waypoints.
    pub open spec fn stops(self) -> Seq<usize> {
        stops_after_start(self.distances.len())
    }

    /// The stops in the order in which the nearest-neighbour tour visits
    /// them.
    pub open spec fn visits(self) -> Seq<usize> {
        greedy_visits(self.distances, 0, self.stops())
    }

    /// The nearest-neighbour tour: from the start to the nearest waypoint,
    /// from there to the nearest waypoint not yet visited, and so on until
    /// none is left, then back to the start. Among equally near waypoints
    /// the one given first is visited first.
    pub open spec fn initial_route(self) -> Seq<Point> {
        tour_through(self.start, self.waypoints, self.visits())
    }
}

/// The nearest-neighbour tour visits the waypoints nearest first, and no
/// other order of visits does. (Stops are numbered in `usize`, so there are
/// no more waypoints than `usize` can count.)
pub proof fn visits_are_nearest_first(problem: Problem, visits: Seq<usize>)
    requires
        problem.wf(),
        problem.waypoints.len() <= usize::MAX,
    ensures
        is_nearest_first(problem.distances, 0, problem.stops(), problem.visits()),
        is_nearest_first(problem.distances, 0, problem.stops(), visits) ==> visits
            == problem.visits(),
{
    greedy_visits_are_nearest_first(problem.distances, 0, problem.stops());
    if is_nearest_first(problem.distances, 0, problem.stops(), visits) {
        nearest_first_is_unique(problem.distances, 0, problem.stops(), visits);
    }
}

/// The nearest-neighbour tour is a closed tour of the waypoints: it starts
/// and ends at the start, and between the two it visits every waypoint
/// exactly as often as it was given. (Stops are numbered in `usize`, so
/// there are no more waypoints than `usize` can count.)
pub proof fn initial_route_is_closed_tour(problem: Problem)
    requires
        problem.wf(),
        problem.waypoints.len() <= usize::MAX,
    ensures
        is_closed_tour(problem.initial_route(), problem.start, problem.waypoints),
{
    let route = problem.initial_route();
    greedy_visits_rearranges(problem.distances, 0, problem.stops());
    greedy_visits_reach_every_waypoint(problem.waypoints, problem.distances, 0, problem.stops());
    assert(waypoints_at(problem.waypoints, problem.stops()) =~= problem.waypoints);
    assert(route.subrange(1, route.len() - 1) =~= waypoints_at(
        problem.waypoints,
        problem.visits(),
    ));
}

/// Without waypoints the nearest-neighbour tour goes from the start to the
/// start.
pub proof fn initial_route_without_waypoints(problem: Problem)
    requires
        problem.wf(),
        problem.waypoints.len() == 0,
    ensures
        problem.initial_route() == seq![problem.start, problem.start],
{
}

/// Whatever the verdicts on the candidates, the refined tour is a closed
/// tour of the waypoints: it starts and ends at the start, and between the
/// two it visits every waypoint exactly as often as it was given.
pub proof fn refined_route_is_closed_tour(problem: Problem, verdicts: Seq<bool>)
    requires
        problem.wf(),
        problem.waypoints.len() <= usize::MAX,
    ensures
        is_closed_tour(
            run(begin(problem.initial_route()), verdicts).route,
            problem.start,
            problem.waypoints,
        ),
{
    initial_route_is_closed_tour(problem);
    run_keeps_tour(begin(problem.initial_route()), verdicts, problem.start, problem.waypoints);
}

/// With one waypoint or none there is nothing to refine: the search of the
/// nearest-neighbour tour has ended before the first verdict, and the tour
/// stays as it was built.
pub proof fn few_waypoints_are_left_as_built(problem: Problem, verdicts: Seq<bool>)
    requires
        problem.wf(),
        problem.waypoints.len() <= 1,
    ensures
        begin(problem.initial_route()).cursor is None,
        run(begin(problem.initial_route()), verdicts).route == problem.initial_route(),
{
    initial_route_is_closed_tour(problem);
    short_route_is_left_alone(problem.initial_route(), verdicts);
}

/// A solver for one fixed problem: the waypoints to visit, the point where
/// the tour starts and ends, and the table of distance keys between them.
pub struct Fats3stSolver {
    houses: Vec<Point>,
    start: Point,
    table: DistanceTable,
}

impl View for Fats3stSolver {
    type V = Problem;

    closed spec fn view(&self) -> Problem {
        Problem { waypoints: self.houses@, start: self.start, distances: self.table@ }
    }
}

impl Fats3stSolver {
    #[verifier::type_invariant]
    spec fn well_formed(self) -> bool {
        self@.wf()
    }

    /// A solver for `houses` and `start` whose distances are those of
    /// `table`; `None` exactly when the table does not cover one stop for
    /// the start and one for each waypoint.
    pub fn new(houses: Vec<Point>, start: Point, table: DistanceTable) -> (solver: Option<
        Fats3stSolver,
    >)
        ensures
            solver is Some <==> table@.len() == houses@.len() + 1,
            solver matches Some(s) ==> s@ == (Problem {
                waypoints: houses@,
                start,
                distances: table@,
            }),
    {
        let dim = table.dim();
        if dim == 0 || dim - 1 != houses.len() {
            None
        } else {
            Some(Fats3stSolver { houses, start, table })
        }
    }

    /// Builds the nearest-neighbour tour: it goes from the start through
    /// the waypoints, nearest first, and back to the start.
    pub fn nearest_neighbor(&self) -> (route: Vec<Point>)
        ensures
            route@ == self@.initial_route(),
            is_closed_tour(route@, self@.start, self@.waypoints),
            self@.waypoints.len() == 0 ==> route@ == seq![self@.start, self@.start],
    {
        proof {
            use_type_invariant(self);
            assert(self.houses.len() == self@.waypoints.len());
            initial_route_is_closed_tour(self@);
        }
        let order = visit_order(&self.table);
        let ghost pool = self@.stops();
        proof {
            greedy_visits_rearranges(self.table@, 0, pool);
            assert forall|k: int| 0 <= k < order.len() implies 1 <= #[trigger] order[k]
                <= self.houses.len() by {
                to_multiset_contains(order@, order[k]);
                to_multiset_contains(pool, order[k]);
            }
        }
        let mut route: Vec<Point> = Vec::new();
        route.push(self.start);
        let mut k: usize = 0;
        while k < order.len()
            invariant
                k <= order.len(),
                forall|m: int|
                    0 <= m < order.len() ==> 1 <= #[trigger] order[m] <= self.houses.len(),
                route@ == seq![self.start] + waypoints_at(self.houses@, order@.take(k as int)),
            decreases order.len() - k,
        {
            route.push(self.houses[order[k] - 1]);
            k += 1;
            assert(route@ =~= seq![self.start] + waypoints_at(
                self.houses@,
                order@.take(k as int),
            ));
        }
        route.push(self.start);
        assert(route@ =~= self@.initial_route());
        route
    }

    /// Starts the 2-opt refinement of `route`.
    pub fn two_opt(&self, route: Vec<Point>) -> (search: TwoOpt)
        ensures
            search@ == begin(route@),
    {
        TwoOpt::new(route)
    }

    /// Builds the nearest-neighbour tour and starts its 2-opt refinement.
    /// The tour of the search is a closed tour of the waypoints, and stays
    /// one however the search is driven.
    pub fn solve(&self) -> (search: TwoOpt)
        ensures
            search@ == begin(self@.initial_route()),
            is_closed_tour(search@.route, self@.start, self@.waypoints),
    {
        let route = self.nearest_neighbor();
        self.two_opt(route)
    }

    /// The waypoints, in the order in which they were given.
    pub fn waypoints(&self) -> (waypoints: &Vec<Point>)
        ensures
            waypoints@ == self@.waypoints,
            self@.wf(),
    {
        proof {
            use_type_invariant(self);
        }
        &self.houses
    }

    /// The point where every tour starts and ends.
    pub fn start(&self) -> (start: Point)
        ensures
            start == self@.start,
    {
        self.start
    }
}

} // verus!
