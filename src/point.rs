//! Two-dimensional coordinates and their row-major projection.
use vstd::prelude::*;

verus! {

/// The linear index `y * width + x` of a coordinate in a grid whose rows are
/// `width` cells long.
pub open spec fn index_of(x: int, y: int, width: int) -> int {
    y * width + x
}

/// A 2-dimensional point.
pub trait Point: Sized {
    /// The x-coordinate (column) of the point.
    spec fn spec_x(&self) -> usize;

    /// The y-coordinate (row) of the point.
    spec fn spec_y(&self) -> usize;

    /// Returns the x-coordinate.
    fn x(&self) -> (r: usize)
        ensures
            r == self.spec_x(),
    ;

    /// Returns the y-coordinate.
    fn y(&self) -> (r: usize)
        ensures
            r == self.spec_y(),
    ;

    /// Given the `width` of a grid, converts to an index into its row-major store.
    fn to_index(&self, width: usize) -> (r: usize)
        requires
            index_of(self.spec_x() as int, self.spec_y() as int, width as int) <= usize::MAX,
        ensures
            r == index_of(self.spec_x() as int, self.spec_y() as int, width as int),
    {
        let x = self.x();
        let y = self.y();
        proof {
            assert(0 <= y * width) by (nonlinear_arith);
        }
        y * width + x
    }
}

impl Point for (usize, usize) {
    open spec fn spec_x(&self) -> usize {
        self.0
    }

    open spec fn spec_y(&self) -> usize {
        self.1
    }

    fn x(&self) -> (r: usize) {
        self.0
    }

    fn y(&self) -> (r: usize) {
        self.1
    }
}

impl Point for [usize; 2] {
    open spec fn spec_x(&self) -> usize {
        self@[0]
    }

    open spec fn spec_y(&self) -> usize {
        self@[1]
    }

    fn x(&self) -> (r: usize) {
        self[0]
    }

    fn y(&self) -> (r: usize) {
        self[1]
    }
}

/// A pair `(x, y)` and an array `[x, y]` are the same point: they have the same
/// coordinates, and so project to the same linear index for every width.
pub proof fn lemma_pair_and_array_agree(p: (usize, usize), a: [usize; 2], width: int)
    requires
        p.0 == a@[0],
        p.1 == a@[1],
    ensures
        p.spec_x() == a.spec_x(),
        p.spec_y() == a.spec_y(),
        index_of(p.spec_x() as int, p.spec_y() as int, width) == index_of(
            a.spec_x() as int,
            a.spec_y() as int,
            width,
        ),
{
}

} // verus!
