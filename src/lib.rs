use vstd::prelude::*;

pub mod cell;
pub mod organism;
pub mod grid;
mod random;
pub mod tick;
pub mod tiles;

pub use cell::{CellState, Cell};
pub use organism::{Direction, Organism, OrganismCell};
pub use grid::Grid;

verus! {

/// Prepares the library for use. Random draws need no setup, so there is
/// nothing to do; it is kept for drivers that call it at startup.
pub fn initialize() {
}

} // verus!
