//! The record kept for one tile of the grid.

use crate::color::Color;
use crate::geometry::{
    adjacent_walls, around, in_bounds, kept, lemma_around_filter, point, points, room_neighbors,
    Point,
};
use vstd::prelude::*;

verus! {

/// One tile: where it lies, its colour, and whether carving has entered it.
#[derive(Clone, Copy, Debug, PartialEq, Eq, Structural)]
pub struct Position {
    pub row: u16,
    pub col: u16,
    pub tile_color: Color,
    pub visited: bool,
}

/// The tiles at distance `d` from `(row, col)` that lie on a grid of the given
/// size, in the order up, right, down, left.
fn tiles_around(row: u16, col: u16, d: u16, width: u16, height: u16) -> (out: Vec<(u16, u16)>)
    ensures
        points(out@) == around(point((row, col)), d as int).filter(
            |q: Point| in_bounds(q, width as int, height as int),
        ),
{
    let mut out: Vec<(u16, u16)> = Vec::new();
    if row >= d && row - d < height && col < width {
        out.push((row - d, col));
    }
    if col <= u16::MAX - d && col + d < width && row < height {
        out.push((row, col + d));
    }
    if row <= u16::MAX - d && row + d < height && col < width {
        out.push((row + d, col));
    }
    if col >= d && col - d < width && row < height {
        out.push((row, col - d));
    }
    proof {
        lemma_around_filter(
            point((row, col)),
            d as int,
            |q: Point| in_bounds(q, width as int, height as int),
        );
    }
    out
}

impl Position {
    /// The coordinate of this tile in the model.
    pub open spec fn at(&self) -> Point {
        (self.row as int, self.col as int)
    }

    /// A black, unvisited tile at `(row, col)`.
    pub fn init(row: u16, col: u16) -> (tile: Position)
        ensures
            tile == (Position { row, col, tile_color: Color { r: 0, g: 0, b: 0 }, visited: false }),
    {
        Position { row, col, tile_color: Color::black(), visited: false }
    }

    /// The candidate neighbour rooms of this tile on a grid of the given size:
    /// the tiles two steps up, right, down and left, in that order, without
    /// those that fall off the grid.
    pub fn find_neighbors(&self, width: u16, height: u16) -> (out: Vec<(u16, u16)>)
        ensures
            points(out@) == room_neighbors(self.at(), width as int, height as int),
    {
        tiles_around(self.row, self.col, 2, width, height)
    }

    /// The tiles next to this one on a grid of the given size: one step up,
    /// right, down and left, in that order, without those that fall off the
    /// grid.
    pub fn find_walls(&self, width: u16, height: u16) -> (out: Vec<(u16, u16)>)
        ensures
            points(out@) == adjacent_walls(self.at(), width as int, height as int),
    {
        tiles_around(self.row, self.col, 1, width, height)
    }

    /// Gives the tile a colour.
    pub fn set_color(&mut self, color: Color)
        ensures
            *final(self) == (Position { tile_color: color, ..*old(self) }),
    {
        self.tile_color = color;
    }

    /// Whether carving has entered this tile.
    pub fn is_visited(&self) -> (visited: bool)
        ensures
            visited == self.visited,
    {
        self.visited
    }
}

} // verus!
