//! A toroidal Game of Life engine: a bit-packed grid, the B3/S23 generation
//! step, and the list of cells that changed in the last step, so that a
//! renderer can redraw only what flipped.

pub mod bitset;
pub mod life;
pub mod theorems;
pub mod universe;

pub use universe::Universe;
