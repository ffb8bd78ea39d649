//! The vocabulary of mazes: what can be said of a grid before, during and
//! after carving.

use crate::geometry::{in_bounds, is_room, midpoint, two_apart, Point};
use crate::grid::GridView;
use vstd::prelude::*;

verus! {

/// No tile of `g` is visited.
pub open spec fn nothing_visited(g: GridView) -> bool {
    forall|p: Point| !#[trigger] g.visited(p)
}

/// `p` is a wall tile that does not lie on the border of the grid.
pub open spec fn is_inner_wall(p: Point, width: int, height: int) -> bool {
    0 < p.0 < height - 1 && 0 < p.1 < width - 1 && !is_room(p)
}

/// `p` is an inner wall between two rooms: one of its coordinates is odd.
pub open spec fn is_joint(p: Point, width: int, height: int) -> bool {
    is_inner_wall(p, width, height) && (p.0 % 2 == 1 || p.1 % 2 == 1)
}

/// The inner walls of `g` that have the passage colour.
pub open spec fn opened_walls(g: GridView) -> Set<Point> {
    Set::new(|p: Point| is_inner_wall(p, g.width, g.height) && g.tiles[p].color == g.passage_color)
}

/// The tiles of `g` that are visited.
pub open spec fn visited_rooms(g: GridView) -> Set<Point> {
    Set::new(|p: Point| g.visited(p))
}

/// No inner wall of `g` has the passage colour.
pub open spec fn nothing_opened(g: GridView) -> bool {
    forall|p: Point| !#[trigger] opened_walls(g).contains(p)
}

/// Wall `p` lies between two visited rooms: above and below it, or left and
/// right of it.
pub open spec fn joins_visited(g: GridView, p: Point) -> bool {
    if p.0 % 2 == 0 {
        p.1 % 2 == 1 && g.visited((p.0 - 1, p.1)) && g.visited((p.0 + 1, p.1))
    } else {
        p.1 % 2 == 0 && g.visited((p.0, p.1 - 1)) && g.visited((p.0, p.1 + 1))
    }
}

/// Every room of `g` is visited.
pub open spec fn all_rooms_visited(g: GridView) -> bool {
    forall|room: Point|
        in_bounds(room, g.width, g.height) && is_room(room) ==> #[trigger] g.visited(room)
}

/// `after` has the shape of `before`: the same size, the same two colours,
/// and a tile wherever `before` has one.
pub open spec fn same_shape(before: GridView, after: GridView) -> bool {
    &&& after.width == before.width
    &&& after.height == before.height
    &&& after.wall_color == before.wall_color
    &&& after.passage_color == before.passage_color
    &&& after.tiles.dom() == before.tiles.dom()
}

/// Tile `p` of `after` has the colour it has in `before`, or it is a room or
/// a wall between two rooms and has the passage colour.
pub open spec fn kept_or_carved(before: GridView, after: GridView, p: Point) -> bool {
    ||| after.tiles[p].color == before.tiles[p].color
    ||| after.tiles[p].color == before.passage_color && (is_room(p) || is_joint(
        p,
        before.width,
        before.height,
    ))
}

/// `after` came out of `before` by carving alone: it has the same shape,
/// what was visited is still visited, and only rooms and walls between rooms
/// have changed colour, to the passage colour.
pub open spec fn carved_from(before: GridView, after: GridView) -> bool {
    &&& same_shape(before, after)
    &&& forall|p: Point| before.visited(p) ==> #[trigger] after.visited(p)
    &&& forall|p: Point|
        before.tiles.contains_key(p) ==> #[trigger] kept_or_carved(before, after, p)
}

/// One step of a way through the maze: from a visited room through an opened
/// wall to the visited room behind it.
pub open spec fn passage_step(g: GridView, a: Point, b: Point) -> bool {
    &&& two_apart(a, b)
    &&& g.visited(a)
    &&& g.visited(b)
    &&& opened_walls(g).contains(midpoint(a, b))
}

/// `path` is a way through the maze from the start room to `room`.
pub open spec fn is_way_to(g: GridView, path: Seq<Point>, room: Point) -> bool {
    &&& path.len() > 0
    &&& path[0] == (1int, 1int)
    &&& path[path.len() - 1] == room
    &&& forall|i: int|
        #![trigger path[i]]
        0 <= i < path.len() - 1 ==> passage_step(g, path[i], path[i + 1])
}

/// There is a way through the maze from the start room to `room`.
pub open spec fn joined_to_start(g: GridView, room: Point) -> bool {
    exists|path: Seq<Point>| is_way_to(g, path, room)
}

/// The rooms of a grid of the given size.
pub open spec fn rooms(width: int, height: int) -> Set<Point> {
    Set::new(|p: Point| in_bounds(p, width, height) && is_room(p))
}

/// The rooms of `g` that are not visited.
pub open spec fn unvisited_rooms(g: GridView) -> Set<Point> {
    rooms(g.width, g.height).difference(visited_rooms(g))
}

/// The number of rooms of a grid of the given size: every second row holds a
/// room in every second column.
pub open spec fn room_count(width: int, height: int) -> int {
    ((height - 1) / 2) * ((width - 1) / 2)
}

/// `g` is a perfect maze: every room is visited, there is a way from the
/// start to every room, and the opened walls are one fewer than the rooms, so
/// that the ways form a tree that spans the rooms.
pub open spec fn is_perfect_maze(g: GridView) -> bool {
    &&& all_rooms_visited(g)
    &&& visited_rooms(g) == rooms(g.width, g.height)
    &&& forall|room: Point| g.visited(room) ==> #[trigger] joined_to_start(g, room)
    &&& opened_walls(g).finite()
    &&& opened_walls(g).len() == room_count(g.width, g.height) - 1
}

} // verus!
