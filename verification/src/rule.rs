//! The neighbour-count rule that drives cell transitions.

use crate::cell::Cell;
use vstd::prelude::*;

verus! {

/// Why a grid or rule could not be constructed.
#[derive(Clone, Copy, Debug, PartialEq, Eq, Structural)]
pub enum ConstructionError {
    /// The requested width or height is zero.
    ZeroDimension,
    /// A rule threshold is above 8, or a minimum exceeds its maximum.
    InvalidRule,
    /// The initial cell buffer does not hold exactly `width * height` cells.
    CellCountMismatch,
}

/// Four thresholds on the live-neighbour count `n` of a cell, each in `0 ..= 8`:
/// a `Dead` cell becomes `Alive` iff `birth_min <= n <= birth_max`, and an
/// `Alive` cell stays `Alive` iff `alive_min <= n <= alive_max`.
#[derive(Clone, Copy, Debug, PartialEq, Eq, Structural)]
pub struct Rule {
    pub birth_min: u8,
    pub birth_max: u8,
    pub alive_min: u8,
    pub alive_max: u8,
}

impl Rule {
    /// A well-formed rule keeps each threshold within the possible
    /// neighbour counts `0 ..= 8` and each minimum below its maximum.
    pub open spec fn wf(self) -> bool {
        &&& self.birth_min <= self.birth_max <= 8
        &&& self.alive_min <= self.alive_max <= 8
    }

    /// The state a cell takes in the next generation, given its current
    /// state `c` and its live-neighbour count `n`.
    pub open spec fn next_cell(self, c: Cell, n: nat) -> Cell {
        match c {
            Cell::Alive => if n < self.alive_min || self.alive_max < n {
                Cell::Dead
            } else {
                Cell::Alive
            },
            Cell::Dead => if self.birth_min <= n && n <= self.birth_max {
                Cell::Alive
            } else {
                Cell::Dead
            },
        }
    }

    /// Builds a rule after validating its thresholds.
    pub fn new(birth_min: u8, birth_max: u8, alive_min: u8, alive_max: u8) -> (r: Result<
        Rule,
        ConstructionError,
    >)
        ensures
            match r {
                Ok(rule) => {
                    &&& rule == (Rule { birth_min, birth_max, alive_min, alive_max })
                    &&& rule.wf()
                },
                Err(e) => {
                    &&& e == ConstructionError::InvalidRule
                    &&& !(Rule { birth_min, birth_max, alive_min, alive_max }).wf()
                },
            },
    {
        let rule = Rule { birth_min, birth_max, alive_min, alive_max };
        if birth_min <= birth_max && birth_max <= 8 && alive_min <= alive_max && alive_max <= 8 {
            Ok(rule)
        } else {
            Err(ConstructionError::InvalidRule)
        }
    }

    /// Checks the thresholds at run time.
    pub fn is_well_formed(&self) -> (b: bool)
        ensures
            b == self.wf(),
    {
        self.birth_min <= self.birth_max && self.birth_max <= 8 && self.alive_min <= self.alive_max
            && self.alive_max <= 8
    }

    /// The classic rule: birth on exactly 3 live neighbours, survival on 2 or 3.
    pub open spec fn spec_standard() -> Rule {
        Rule { birth_min: 3, birth_max: 3, alive_min: 2, alive_max: 3 }
    }

    /// Returns the classic rule (birth on 3, survival on 2 or 3).
    pub fn standard() -> (r: Rule)
        ensures
            r == Rule::spec_standard(),
            r.wf(),
    {
        Rule { birth_min: 3, birth_max: 3, alive_min: 2, alive_max: 3 }
    }

    /// Applies the rule to one cell, given its live-neighbour count.
    pub fn apply(&self, c: Cell, n: u8) -> (out: Cell)
        ensures
            out == self.next_cell(c, n as nat),
    {
        if c.is_alive() {
            if n < self.alive_min || self.alive_max < n {
                Cell::Dead
            } else {
                Cell::Alive
            }
        } else {
            if self.birth_min <= n && n <= self.birth_max {
                Cell::Alive
            } else {
                Cell::Dead
            }
        }
    }
}

} // verus!
