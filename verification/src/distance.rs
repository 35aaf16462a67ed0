//! Measured distances between the stops of a tour.

use vstd::prelude::*;

verus! {

/// Whether every row of `rows` is as long as `rows` itself.
pub open spec fn is_square(rows: Seq<Seq<u64>>) -> bool {
    forall|r: int| 0 <= r < rows.len() ==> (#[trigger] rows[r]).len() == rows.len()
}

/// The rows of a nested vector as nested sequences.
pub open spec fn rows_of(rows: Seq<Vec<u64>>) -> Seq<Seq<u64>> {
    Seq::new(rows.len(), |r: int| rows[r]@)
}

/// A square table of distance keys between numbered stops.
///
/// Entry `(a, b)` stands for the distance from stop `a` to stop `b`. A key is
/// an unsigned integer chosen by whoever measured the distances so that a
/// smaller key means a shorter distance and equal keys mean equal distances;
/// only that order is ever used. For a distance held as a double-precision
/// number that is not negative, its IEEE-754 bit pattern is such a key.
pub struct DistanceTable {
    rows: Vec<Vec<u64>>,
}

impl View for DistanceTable {
    type V = Seq<Seq<u64>>;

    closed spec fn view(&self) -> Seq<Seq<u64>> {
        rows_of(self.rows@)
    }
}

impl DistanceTable {
    #[verifier::type_invariant]
    spec fn well_formed(self) -> bool {
        is_square(rows_of(self.rows@))
    }

    /// Builds a table from its rows; `None` exactly when the rows do not
    /// form a square.
    pub fn from_rows(rows: Vec<Vec<u64>>) -> (table: Option<DistanceTable>)
        ensures
            table is Some <==> is_square(rows_of(rows@)),
            table matches Some(t) ==> t@ == rows_of(rows@),
    {
        let dim = rows.len();
        let mut r: usize = 0;
        while r < dim
            invariant
                dim == rows.len(),
                r <= dim,
                forall|q: int| 0 <= q < r ==> (#[trigger] rows_of(rows@)[q]).len() == dim,
            decreases dim - r,
        {
            if rows[r].len() != dim {
                assert(rows_of(rows@)[r as int].len() != rows_of(rows@).len());
                return None;
            }
            r += 1;
        }
        Some(DistanceTable { rows })
    }

    /// The number of stops the table covers.
    pub fn dim(&self) -> (dim: usize)
        ensures
            dim == self@.len(),
            is_square(self@),
    {
        proof {
            use_type_invariant(self);
        }
        self.rows.len()
    }

    /// The key of the distance from stop `a` to stop `b`, or `None` when
    /// the table does not cover both.
    pub fn get(&self, a: usize, b: usize) -> (key: Option<u64>)
        ensures
            key == if a < self@.len() && b < self@.len() {
                Some(self@[a as int][b as int])
            } else {
                None
            },
    {
        let dim = self.dim();
        if a < dim && b < dim {
            Some(self.key(a, b))
        } else {
            None
        }
    }

    /// The key of the distance from stop `a` to stop `b`.
    pub(crate) fn key(&self, a: usize, b: usize) -> (key: u64)
        requires
            a < self@.len(),
            b < self@.len(),
        ensures
            key == self@[a as int][b as int],
    {
        proof {
            use_type_invariant(self);
            assert(self@[a as int].len() == self@.len());
        }
        self.rows[a][b]
    }
}

} // verus!
