//! Whole tours over points in the plane, with Euclidean distances measured
//! in double precision by the test itself.

use route_solver::distance::DistanceTable;
use route_solver::point::Point;
use route_solver::solver::Fats3stSolver;
use route_solver::two_opt::TwoOpt;

const IMPROVEMENT_EPSILON: f64 = -0.001;

fn pt(x: f64, y: f64, id: usize) -> Point {
    Point::new(x.to_bits(), y.to_bits(), id)
}

fn distance(a: &Point, b: &Point) -> f64 {
    let dx = f64::from_bits(a.x_bits) - f64::from_bits(b.x_bits);
    let dy = f64::from_bits(a.y_bits) - f64::from_bits(b.y_bits);
    (dx * dx + dy * dy).sqrt()
}

/// Stop 0 is the start, stop `k` the waypoint at position `k - 1`. The bit
/// pattern of a non-negative double grows with the double.
fn measure(houses: &[Point], start: Point) -> DistanceTable {
    let mut stops = vec![start];
    stops.extend_from_slice(houses);
    let rows: Vec<Vec<u64>> = stops
        .iter()
        .map(|a| stops.iter().map(|b| distance(a, b).to_bits()).collect())
        .collect();
    DistanceTable::from_rows(rows).expect("a square table")
}

fn solver_for(houses: &[Point], start: Point) -> Fats3stSolver {
    let table = measure(houses, start);
    Fats3stSolver::new(houses.to_vec(), start, table).expect("a table of the right size")
}

fn route_distance(route: &[Point]) -> f64 {
    route.windows(2).map(|w| distance(&w[0], &w[1])).sum()
}

fn delta(a: &Point, b: &Point, c: &Point, d: &Point) -> f64 {
    let old_dist = distance(a, b) + distance(c, d);
    let new_dist = distance(a, c) + distance(b, d);
    new_dist - old_dist
}

/// Drives a search to its end; returns the tour and the number of reversals.
fn finish(mut search: TwoOpt) -> (Vec<Point>, usize) {
    let mut swaps = 0;
    while let Some((a, b, c, d)) = search.pending_edges() {
        let improving = delta(&a, &b, &c, &d) < IMPROVEMENT_EPSILON;
        if improving {
            swaps += 1;
        }
        search.advance(improving);
    }
    assert!(search.is_finished());
    (search.into_route(), swaps)
}

fn solve(houses: &[Point], start: Point) -> (Vec<Point>, f64) {
    let (route, _) = finish(solver_for(houses, start).solve());
    let total = route_distance(&route);
    (route, total)
}

fn ids(route: &[Point]) -> Vec<usize> {
    route.iter().map(|p| p.id).collect()
}

fn assert_closed_tour(route: &[Point], start: Point, houses: &[Point]) {
    assert_eq!(route.len(), houses.len() + 2);
    assert_eq!(route[0], start);
    assert_eq!(route[route.len() - 1], start);
    let key = |p: &Point| (p.id, p.x_bits, p.y_bits);
    let mut inner: Vec<Point> = route[1..route.len() - 1].to_vec();
    let mut given: Vec<Point> = houses.to_vec();
    inner.sort_by_key(key);
    given.sort_by_key(key);
    assert_eq!(inner, given);
}

fn island_houses() -> Vec<Point> {
    vec![
        pt(3.4350, 6.4450, 1),
        pt(3.4360, 6.4460, 2),
        pt(3.4340, 6.4440, 3),
        pt(3.4370, 6.4470, 4),
        pt(3.4355, 6.4455, 5),
        pt(3.4365, 6.4465, 6),
    ]
}

fn scattered_houses() -> Vec<Point> {
    vec![
        pt(6.0, 1.0, 1),
        pt(3.0, 1.0, 2),
        pt(8.0, 6.0, 3),
        pt(0.0, 9.0, 4),
        pt(1.0, 3.0, 5),
    ]
}

#[test]
fn empty_waypoint_set_yields_start_start() {
    let start = pt(3.5, -2.25, 0);
    let solver = solver_for(&[], start);
    assert_eq!(solver.nearest_neighbor(), vec![start, start]);
    let (route, total) = solve(&[], start);
    assert_eq!(route, vec![start, start]);
    assert_eq!(total, 0.0);
}

#[test]
fn single_waypoint_is_left_as_built() {
    let start = pt(0.0, 0.0, 0);
    let house = pt(3.0, 4.0, 1);
    let solver = solver_for(&[house], start);
    let built = solver.nearest_neighbor();
    assert_eq!(built, vec![start, house, start]);
    let search = solver.solve();
    assert!(search.is_finished());
    assert_eq!(search.pending_edges(), None);
    let (route, swaps) = finish(search);
    assert_eq!(swaps, 0);
    assert_eq!(route, built);
    assert_eq!(route_distance(&route), 10.0);
}

#[test]
fn three_waypoint_scenario() {
    let start = pt(0.0, 0.0, 0);
    let houses = vec![pt(1.0, 0.0, 1), pt(2.0, 0.0, 2), pt(0.0, 1.0, 3)];
    let built = solver_for(&houses, start).nearest_neighbor();
    // (1,0) and (0,1) are equally near the start; the one given first wins.
    assert_eq!(ids(&built), vec![0, 1, 2, 3, 0]);
    assert_eq!(built, vec![start, houses[0], houses[1], houses[2], start]);
    let expected = 1.0 + 1.0 + 5.0_f64.sqrt() + 1.0;
    assert!((route_distance(&built) - expected).abs() < 1e-9);
    let (route, total) = solve(&houses, start);
    assert_eq!(route, built);
    assert!((total - 5.23606797749979).abs() < 1e-9);
}

#[test]
fn tie_goes_to_the_waypoint_given_first() {
    let start = pt(0.0, 0.0, 0);
    let east = pt(1.0, 0.0, 1);
    let north = pt(0.0, 1.0, 2);
    let first = solver_for(&[east, north], start).nearest_neighbor();
    assert_eq!(ids(&first), vec![0, 1, 2, 0]);
    let second = solver_for(&[north, east], start).nearest_neighbor();
    assert_eq!(ids(&second), vec![0, 2, 1, 0]);
}

#[test]
fn nearest_is_taken_from_where_the_tour_stands() {
    let start = pt(0.0, 0.0, 0);
    // Seen from the start the order is 1, 2, 3; after 1 the tour stands at
    // (0,3), from where 3 is nearer than 2.
    let houses = vec![pt(0.0, 3.0, 1), pt(4.0, 0.0, 2), pt(0.0, 7.5, 3)];
    let built = solver_for(&houses, start).nearest_neighbor();
    assert_eq!(ids(&built), vec![0, 1, 3, 2, 0]);
}

#[test]
fn island_tour_visits_every_house_once() {
    let start = pt(3.4350, 6.4450, 0);
    let houses = island_houses();
    let built = solver_for(&houses, start).nearest_neighbor();
    assert_closed_tour(&built, start, &houses);
    assert_eq!(ids(&built), vec![0, 1, 5, 2, 6, 4, 3, 0]);
    let (route, total) = solve(&houses, start);
    assert_closed_tour(&route, start, &houses);
    assert_eq!(ids(&route), vec![0, 1, 5, 2, 6, 4, 3, 0]);
    assert!((total - 0.008485281374238264).abs() < 1e-12);
}

#[test]
fn duplicate_waypoints_are_each_visited() {
    let start = pt(0.0, 0.0, 0);
    let twin = pt(2.0, 2.0, 7);
    let houses = vec![twin, pt(1.0, 0.0, 1), twin, pt(5.0, 5.0, 2)];
    let (route, _) = solve(&houses, start);
    assert_closed_tour(&route, start, &houses);
    assert_eq!(route.iter().filter(|p| **p == twin).count(), 2);
}

#[test]
fn crossing_is_removed_by_one_reversal() {
    let start = pt(0.0, 0.0, 0);
    let houses = vec![
        pt(0.0, 2.0, 1),
        pt(3.0, 0.0, 2),
        pt(3.0, 2.0, 3),
        pt(0.0, 1.0, 4),
        pt(5.0, 1.0, 5),
    ];
    let solver = solver_for(&houses, start);
    let built = solver.nearest_neighbor();
    assert_eq!(ids(&built), vec![0, 4, 1, 3, 2, 5, 0]);
    assert!((route_distance(&built) - 14.335087491092574).abs() < 1e-9);
    let (route, swaps) = finish(solver.solve());
    assert_eq!(swaps, 1);
    assert_eq!(ids(&route), vec![0, 4, 1, 3, 5, 2, 0]);
    assert!((route_distance(&route) - 12.47213595499958).abs() < 1e-9);
    assert_closed_tour(&route, start, &houses);
}

#[test]
fn optimizer_never_lengthens_the_tour() {
    let start = pt(0.0, 0.0, 0);
    let houses = scattered_houses();
    let solver = solver_for(&houses, start);
    let built = solver.nearest_neighbor();
    assert_eq!(ids(&built), vec![0, 2, 5, 1, 3, 4, 0]);
    let before = route_distance(&built);
    let (route, swaps) = finish(solver.two_opt(built));
    let after = route_distance(&route);
    assert_eq!(swaps, 2);
    assert_eq!(ids(&route), vec![0, 5, 4, 3, 1, 2, 0]);
    assert!(after <= before);
    assert!((before - 34.30503814450111).abs() < 1e-9);
    assert!((after - 29.33648640308701).abs() < 1e-9);
    assert_closed_tour(&route, start, &houses);
}

#[test]
fn every_reversal_changes_the_length_by_its_delta() {
    let start = pt(0.0, 0.0, 0);
    let houses = scattered_houses();
    let mut search = solver_for(&houses, start).solve();
    let mut length = route_distance(search.route());
    while let Some((a, b, c, d)) = search.pending_edges() {
        let change = delta(&a, &b, &c, &d);
        let improving = change < IMPROVEMENT_EPSILON;
        search.advance(improving);
        let now = route_distance(search.route());
        if improving {
            assert!((now - (length + change)).abs() < 1e-9);
            assert!(now < length);
        } else {
            assert_eq!(now, length);
        }
        length = now;
    }
}

#[test]
fn second_run_reverses_nothing() {
    let start = pt(0.0, 0.0, 0);
    let houses = scattered_houses();
    let (optimized, total) = solve(&houses, start);
    let mut again = TwoOpt::new(optimized.clone());
    let mut verdicts = 0;
    while let Some((a, b, c, d)) = again.pending_edges() {
        assert!(!(delta(&a, &b, &c, &d) < IMPROVEMENT_EPSILON));
        again.advance(false);
        assert_eq!(again.route(), &optimized);
        verdicts += 1;
    }
    // One pass over seven points: the pairs 1 <= i < j <= 5.
    assert_eq!(verdicts, 10);
    let (route, swaps) = finish(TwoOpt::new(optimized.clone()));
    assert_eq!(swaps, 0);
    assert_eq!(route, optimized);
    assert_eq!(route_distance(&route), total);
}

#[test]
fn measured_distances_are_symmetric_and_zero_to_themselves() {
    let a = pt(3.4350, 6.4450, 1);
    let b = pt(-1.5, 0.25, 2);
    assert_eq!(distance(&a, &b), distance(&b, &a));
    assert_eq!(distance(&a, &a), 0.0);
    assert_eq!(distance(&pt(0.0, 0.0, 0), &pt(3.0, 4.0, 1)), 5.0);
    let table = measure(&[a, b, pt(3.0, 4.0, 3)], pt(0.0, 0.0, 0));
    assert_eq!(table.dim(), 4);
    for from in 0..4 {
        assert_eq!(table.get(from, from), Some(0));
        for to in 0..4 {
            assert_eq!(table.get(from, to), table.get(to, from));
        }
    }
    assert_eq!(table.get(0, 3), Some(5.0_f64.to_bits()));
    assert_eq!(table.get(1, 2), Some(distance(&a, &b).to_bits()));
}

#[test]
fn solver_keeps_what_it_was_given() {
    let start = pt(1.0, 2.0, 0);
    let houses = island_houses();
    let solver = solver_for(&houses, start);
    assert_eq!(solver.waypoints(), &houses);
    assert_eq!(solver.start(), start);
}

#[test]
fn solver_wants_a_table_of_the_right_size() {
    let start = pt(0.0, 0.0, 0);
    let houses = vec![pt(1.0, 0.0, 1), pt(2.0, 0.0, 2)];
    let too_small = measure(&houses[..1], start);
    assert!(Fats3stSolver::new(houses.clone(), start, too_small).is_none());
    let too_large = measure(&[houses[0], houses[1], houses[0]], start);
    assert!(Fats3stSolver::new(houses.clone(), start, too_large).is_none());
    let empty = DistanceTable::from_rows(vec![]).expect("no rows make a square");
    assert!(Fats3stSolver::new(vec![], start, empty).is_none());
    let fitting = measure(&houses, start);
    assert!(Fats3stSolver::new(houses, start, fitting).is_some());
}

struct Expected {
    houses: &'static [(f64, f64)],
    built: &'static [usize],
    refined: &'static [usize],
    reversals: usize,
    built_length: f64,
    refined_length: f64,
}

const SCATTERED: &[Expected] = &[
    Expected {
        houses: &[(5.0, -2.75), (-0.25, 2.5), (-2.5, -4.25), (-3.75, 4.5)],
        built: &[0, 2, 4, 3, 1, 0],
        refined: &[0, 2, 4, 3, 1, 0],
        reversals: 0,
        built_length: 28.516746542611642,
        refined_length: 28.516746542611642,
    },
    Expected {
        houses: &[(-5.0, -1.75), (1.5, -0.75), (-2.25, 1.0), (-2.5, -4.0), (-3.0, 4.75)],
        built: &[0, 2, 3, 5, 1, 4, 0],
        refined: &[0, 2, 4, 1, 5, 3, 0],
        reversals: 1,
        built_length: 24.047019407466983,
        refined_length: 23.28108341550135,
    },
    Expected {
        houses: &[
            (0.5, 3.0),
            (0.5, 3.25),
            (-1.0, 2.25),
            (-3.5, 4.25),
            (0.75, -0.5),
            (-4.5, 1.75),
            (-3.75, -1.75),
        ],
        built: &[0, 5, 3, 1, 2, 4, 6, 7, 0],
        refined: &[0, 5, 7, 6, 4, 3, 2, 1, 0],
        reversals: 3,
        built_length: 20.442287965653428,
        refined_length: 19.800314239495385,
    },
    Expected {
        houses: &[
            (4.0, 1.0),
            (1.75, 1.75),
            (-1.5, 2.75),
            (-0.5, 2.5),
            (1.0, 1.0),
            (-2.5, 4.5),
            (4.5, -1.0),
            (-0.25, 2.75),
            (-1.0, 1.5),
        ],
        built: &[0, 5, 2, 8, 4, 3, 9, 6, 1, 7, 0],
        refined: &[0, 9, 3, 6, 8, 4, 5, 2, 1, 7, 0],
        reversals: 7,
        built_length: 24.241411808044692,
        refined_length: 20.555680428822107,
    },
];

#[test]
fn scattered_sets_give_the_expected_tours() {
    let start = pt(0.5, -0.25, 0);
    for expected in SCATTERED {
        let houses: Vec<Point> = expected
            .houses
            .iter()
            .enumerate()
            .map(|(k, &(x, y))| pt(x, y, k + 1))
            .collect();
        let solver = solver_for(&houses, start);
        let built = solver.nearest_neighbor();
        assert_eq!(ids(&built), expected.built.to_vec());
        assert!((route_distance(&built) - expected.built_length).abs() < 1e-9);
        let (route, swaps) = finish(solver.solve());
        assert_eq!(ids(&route), expected.refined.to_vec());
        assert_eq!(swaps, expected.reversals);
        assert!((route_distance(&route) - expected.refined_length).abs() < 1e-9);
        assert!(route_distance(&route) <= route_distance(&built));
        assert_closed_tour(&route, start, &houses);
        let (again, none) = finish(TwoOpt::new(route.clone()));
        assert_eq!(none, 0);
        assert_eq!(again, route);
    }
}
