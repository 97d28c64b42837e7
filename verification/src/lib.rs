//! A two-state cellular automaton on a fixed-size toroidal grid.
//!
//! The grid is a flat, row-major buffer of cells. Each generation step
//! counts, for every cell, the live cells among its eight wrap-around
//! neighbours and applies a configurable threshold rule to decide the
//! cell's next state. The whole next generation is computed from a frozen
//! snapshot of the current one, so no cell ever reads a half-updated
//! neighbour.

pub mod cell;
pub mod model;
pub mod rule;

pub use cell::Cell;
pub use model::Model;
pub use rule::ConstructionError;
pub use rule::Rule;
