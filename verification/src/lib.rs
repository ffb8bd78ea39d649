//! Perfect mazes on a rectangular grid of tiles.
//!
//! A grid has odd dimensions; the tiles whose row and column are both odd are
//! rooms, every other tile is wall. Carving walks the rooms depth first from
//! room (1, 1) and opens the wall between a room and the unvisited neighbour it
//! moves to, so that the opened walls form a spanning tree of the rooms.
//!
//! - [`grid`], [`position`], [`color`]: the grid and its tiles.
//! - [`geometry`]: which tiles lie around a tile, and the wall between two rooms.
//! - [`carver`]: carving, with draws from a random source or from a script.
//! - [`canvas`]: the image of a grid.
//! - [`dice`]: the random source.
//! - [`carving`], [`maze`]: the model of carving and the vocabulary of mazes.
//! - [`laws`], [`invariants`], [`counting`]: what holds of every carving, and why.

pub mod canvas;
pub mod carver;
pub mod carving;
pub mod color;
pub mod counting;
pub mod dice;
pub mod geometry;
pub mod grid;
pub mod invariants;
pub mod laws;
pub mod maze;
pub mod position;

pub use crate::canvas::Canvas;
pub use crate::carver::{choose_neighbor, generate, Carving};
pub use crate::color::Color;
pub use crate::geometry::{wall_between, wall_pos};
pub use crate::grid::{ConfigurationError, Grid};
pub use crate::position::Position;
