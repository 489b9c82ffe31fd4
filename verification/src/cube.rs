//! The footprint of one block of the city.

use vstd::prelude::*;

verus! {

/// A rectangle of grid cells, given by its lowest and its highest cell. Both
/// corners belong to the rectangle.
#[derive(Clone, Copy, Debug, PartialEq, Eq, Structural)]
pub struct CubeSpec {
    pub lowx: isize,
    pub lowy: isize,
    pub highx: isize,
    pub highy: isize,
}

impl CubeSpec {
    /// The rectangle that is the cell `(x, y)` alone.
    pub open spec fn single(x: int, y: int) -> CubeSpec {
        CubeSpec { lowx: x as isize, lowy: y as isize, highx: x as isize, highy: y as isize }
    }

    /// The rectangle is a single cell.
    pub open spec fn small(self) -> bool {
        self.lowx == self.highx && self.lowy == self.highy
    }

    /// The cell `(x, y)` lies in the rectangle.
    pub open spec fn covers(self, x: int, y: int) -> bool {
        self.lowx <= x <= self.highx && self.lowy <= y <= self.highy
    }

    /// The rectangle lies in the square of cells whose coordinates run from
    /// `-count_r` to `count_r`, and is one cell or two cells side by side.
    pub open spec fn within(self, count_r: int) -> bool {
        &&& -count_r <= self.lowx <= self.highx <= count_r
        &&& -count_r <= self.lowy <= self.highy <= count_r
        &&& (self.highx - self.lowx) + (self.highy - self.lowy) <= 1
    }

    /// Whether the rectangle is a single cell.
    pub fn is_small(&self) -> (small: bool)
        ensures
            small == self.small(),
    {
        self.lowx == self.highx && self.lowy == self.highy
    }
}

} // verus!
