//! A finite, toroidal Game of Life engine.
//!
//! The board is a rectangle of two-state cells whose edges are glued
//! together, so every cell has eight neighbours. [`Universe`] owns the
//! board, advances it one generation at a time and remembers whether the
//! last generation changed anything. The mathematical model that the
//! contracts speak of lives in [`grid`].

pub mod cell;
pub mod entropy;
pub mod grid;
pub mod pattern;
pub mod product;
pub mod render;
pub mod shapes;
pub mod stamp;
pub mod theorems;
pub mod universe;

pub use cell::Cell;
pub use entropy::EntropyError;
pub use grid::Grid;
pub use pattern::PatternError;
pub use universe::{Universe, UniverseView};
