//! The points a tour is made of.

use vstd::prelude::*;

verus! {

/// A place in the plane with a caller-chosen identity tag.
///
/// The coordinates are stored as the IEEE-754 bit patterns of two
/// double-precision numbers. Nothing in this crate interprets them: a tour
/// only carries them from the caller's input to the caller's output, and two
/// points are the same point exactly when all three fields agree.
#[derive(Clone, Copy, Debug, PartialEq, Eq, Structural)]
pub struct Point {
    pub x_bits: u64,
    pub y_bits: u64,
    pub id: usize,
}

impl Point {
    /// A point with the given coordinate bit patterns and tag.
    pub fn new(x_bits: u64, y_bits: u64, id: usize) -> (p: Self)
        ensures
            p == (Point { x_bits, y_bits, id }),
    {
        Point { x_bits, y_bits, id }
    }
}

} // verus!
