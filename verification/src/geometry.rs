//! Coordinate arithmetic: which tiles lie around a tile, and which wall
//! separates two neighbouring rooms.

use vstd::prelude::*;

verus! {

/// A tile coordinate in the mathematical model: `(row, col)`.
pub type Point = (int, int);

/// The model coordinate of an executable coordinate pair.
pub open spec fn point(p: (u16, u16)) -> Point {
    (p.0 as int, p.1 as int)
}

/// The model coordinates of a sequence of executable coordinate pairs.
pub open spec fn points(s: Seq<(u16, u16)>) -> Seq<Point> {
    s.map_values(|p: (u16, u16)| point(p))
}

/// `p` lies on a grid of `height` rows and `width` columns.
pub open spec fn in_bounds(p: Point, width: int, height: int) -> bool {
    0 <= p.0 < height && 0 <= p.1 < width
}

/// `p` is a room: both of its coordinates are odd.
pub open spec fn is_room(p: Point) -> bool {
    p.0 % 2 == 1 && p.1 % 2 == 1
}

/// The four tiles at distance `d` from `p` along one axis, in the fixed order
/// up, right, down, left.
pub open spec fn around(p: Point, d: int) -> Seq<Point> {
    seq![(p.0 - d, p.1), (p.0, p.1 + d), (p.0 + d, p.1), (p.0, p.1 - d)]
}

/// The tiles at distance `d` from `p` that lie on the grid, in the order of
/// `around`.
pub open spec fn around_on_grid(p: Point, d: int, width: int, height: int) -> Seq<Point> {
    around(p, d).filter(|q: Point| in_bounds(q, width, height))
}

/// The candidate neighbour rooms of `p`: the tiles two steps away that lie on
/// the grid, in the order up, right, down, left.
pub open spec fn room_neighbors(p: Point, width: int, height: int) -> Seq<Point> {
    around_on_grid(p, 2, width, height)
}

/// The tiles next to `p` that lie on the grid, in the order up, right, down,
/// left.
pub open spec fn adjacent_walls(p: Point, width: int, height: int) -> Seq<Point> {
    around_on_grid(p, 1, width, height)
}

/// `a` and `b` differ by exactly two along one axis and not at all along the
/// other.
pub open spec fn two_apart(a: Point, b: Point) -> bool {
    ||| a.1 == b.1 && (a.0 - b.0 == 2 || b.0 - a.0 == 2)
    ||| a.0 == b.0 && (a.1 - b.1 == 2 || b.1 - a.1 == 2)
}

/// The tile midway between `a` and `b`.
pub open spec fn midpoint(a: Point, b: Point) -> Point {
    ((a.0 + b.0) / 2, (a.1 + b.1) / 2)
}

/// The singleton of `q` if `keep` holds, else nothing.
pub open spec fn kept(keep: bool, q: Point) -> Seq<Point> {
    if keep {
        seq![q]
    } else {
        Seq::empty()
    }
}

/// A filter over the four tiles around `p`, written out tile by tile.
pub proof fn lemma_around_filter(p: Point, d: int, pred: spec_fn(Point) -> bool)
    ensures
        around(p, d).filter(pred) == kept(pred((p.0 - d, p.1)), (p.0 - d, p.1)) + kept(
            pred((p.0, p.1 + d)),
            (p.0, p.1 + d),
        ) + kept(pred((p.0 + d, p.1)), (p.0 + d, p.1)) + kept(
            pred((p.0, p.1 - d)),
            (p.0, p.1 - d),
        ),
{
    reveal_with_fuel(Seq::filter, 5);
}

/// Every tile of `around_on_grid` lies on the grid and is one of the four
/// tiles around `p`.
pub proof fn lemma_around_on_grid_member(p: Point, d: int, width: int, height: int, q: Point)
    requires
        around_on_grid(p, d, width, height).contains(q),
    ensures
        in_bounds(q, width, height),
        q == (p.0 - d, p.1) || q == (p.0, p.1 + d) || q == (p.0 + d, p.1) || q == (p.0, p.1 - d),
{
    let pred = |q: Point| in_bounds(q, width, height);
    let all = around(p, d);
    all.lemma_filter_contains_rev(pred, q);
}

/// Every tile around `p` that lies on the grid is in `around_on_grid`.
pub proof fn lemma_around_on_grid_has(p: Point, d: int, width: int, height: int, q: Point)
    requires
        in_bounds(q, width, height),
        q == (p.0 - d, p.1) || q == (p.0, p.1 + d) || q == (p.0 + d, p.1) || q == (p.0, p.1 - d),
    ensures
        around_on_grid(p, d, width, height).contains(q),
{
}

/// The wall between two rooms, where they are neighbours.
///
/// Returns the tile midway between `current_pos` and `neighbor_pos` when the
/// two differ by exactly two along one axis and agree along the other, and
/// nothing for any other pair.
pub fn wall_pos(current_pos: (u16, u16), neighbor_pos: (u16, u16)) -> (wall: Option<(u16, u16)>)
    ensures
        wall is Some <==> two_apart(point(current_pos), point(neighbor_pos)),
        wall matches Some(w) ==> point(w) == midpoint(point(current_pos), point(neighbor_pos)),
{
    let (row, col) = current_pos;
    let (nrow, ncol) = neighbor_pos;
    if col == ncol {
        if row >= 2 && row - 2 == nrow {
            Some((row - 1, col))
        } else if nrow >= 2 && nrow - 2 == row {
            Some((row + 1, col))
        } else {
            None
        }
    } else if row == nrow {
        if col >= 2 && col - 2 == ncol {
            Some((row, col - 1))
        } else if ncol >= 2 && ncol - 2 == col {
            Some((row, col + 1))
        } else {
            None
        }
    } else {
        None
    }
}

/// The wall between two neighbouring rooms: the tile midway between them.
pub fn wall_between(a: (u16, u16), b: (u16, u16)) -> (wall: (u16, u16))
    requires
        two_apart(point(a), point(b)),
    ensures
        point(wall) == midpoint(point(a), point(b)),
{
    let row = (a.0 as u32 + b.0 as u32) / 2;
    let col = (a.1 as u32 + b.1 as u32) / 2;
    (row as u16, col as u16)
}

} // verus!
