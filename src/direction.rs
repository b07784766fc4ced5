use vstd::prelude::*;

verus! {

/// The axis along which a partition cuts a region.
///     * Horizontal: the parts form a row
///     * Vertical: the parts form a column
#[derive(Debug, Clone, Copy, PartialEq, Eq, Structural)]
pub enum Direction {
    Horizontal,
    Vertical,
}

/// The end of the axis from which a partition measures.
///     * Forward: from left to right, or from top to bottom
///     * Backwards: from right to left, or from bottom to top
#[derive(Debug, Clone, Copy, PartialEq, Eq, Structural)]
pub enum Sense {
    Forward,
    Backwards,
}

impl Direction {
    /// The axis across this one.
    pub open spec fn other(self) -> Direction {
        match self {
            Direction::Horizontal => Direction::Vertical,
            Direction::Vertical => Direction::Horizontal,
        }
    }
}

} // verus!
