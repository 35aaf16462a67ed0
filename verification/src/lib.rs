//! Round trips through a set of waypoints.
//!
//! A tour starts at a given point, visits every waypoint once and returns to
//! where it started. It is built by always moving on to the nearest
//! waypoint not yet visited, and then refined by 2-opt: wherever reversing a
//! stretch of the tour shortens it, the stretch is reversed, until a whole
//! pass over the tour finds nothing more to reverse.
//!
//! The crate holds the combinatorial side of this and does no arithmetic on
//! coordinates. Distances reach it as a table of ordered keys
//! ([`distance::DistanceTable`]), and whether a reversal shortens the tour
//! is decided by the caller, one candidate at a time
//! ([`two_opt::TwoOpt`]). What it guarantees holds for any measure of
//! distance and any rule of decision: the tour at hand is always a closed
//! tour of the waypoints given.
//!
//! - [`point`]: the points of a tour.
//! - [`distance`]: the table of distance keys.
//! - [`nearest`]: the nearest-neighbour order of the stops of a table.
//! - [`route`]: closed tours, reversals, and the length of a route.
//! - [`two_opt`]: the 2-opt search, step by step.
//! - [`driving`]: what holds of a search driven by one fixed rule.
//! - [`solver`]: the solver that ties these together.

pub mod distance;
pub mod driving;
pub mod nearest;
pub mod point;
pub mod route;
pub mod solver;
pub mod two_opt;
