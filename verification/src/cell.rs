//! The two-valued cell state.

use vstd::prelude::*;

verus! {

/// State of one grid cell: `Dead` or `Alive`.
#[derive(Clone, Copy, Debug, PartialEq, Eq, Structural)]
pub enum Cell {
    Dead,
    Alive,
}

impl Cell {
    /// The numeric weight of a cell: 1 for `Alive`, 0 for `Dead`.
    /// Neighbour counting sums these weights directly.
    pub open spec fn spec_num(self) -> nat {
        match self {
            Cell::Dead => 0,
            Cell::Alive => 1,
        }
    }

    /// Numeric value of the cell, suitable for summing.
    pub fn as_num(self) -> (n: u8)
        ensures
            n == self.spec_num(),
    {
        match self {
            Cell::Dead => 0,
            Cell::Alive => 1,
        }
    }

    /// Whether the cell is `Alive`.
    pub fn is_alive(self) -> (b: bool)
        ensures
            b == (self is Alive),
    {
        match self {
            Cell::Dead => false,
            Cell::Alive => true,
        }
    }
}

} // verus!
