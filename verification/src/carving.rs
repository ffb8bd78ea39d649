//! The model of carving: what the depth-first walk does to a grid, step by
//! step, as a function of the draws that pick among the candidates.

use crate::geometry::{
    in_bounds, is_room, lemma_around_on_grid_has, lemma_around_on_grid_member, midpoint,
    room_neighbors, two_apart, Point,
};
use crate::grid::GridView;
use vstd::prelude::*;

verus! {

/// The test that keeps the tiles which are not visited on `g`.
pub open spec fn not_visited(g: GridView) -> spec_fn(Point) -> bool {
    |q: Point| !g.visited(q)
}

/// The rooms that carving may move to from `p`: its neighbour rooms that are
/// not visited, in the order up, right, down, left.
pub open spec fn candidates(g: GridView, p: Point) -> Seq<Point> {
    room_neighbors(p, g.width, g.height).filter(not_visited(g))
}

/// The candidate that a draw picks: the draw counts round the candidates.
pub open spec fn pick(among: Seq<Point>, draw: u8) -> Point
    recommends
        among.len() > 0,
{
    among[draw as int % among.len() as int]
}

/// A candidate of `p` lies on the grid two steps from `p`, is not visited, and
/// is a room if `p` is one.
pub proof fn lemma_candidate(g: GridView, p: Point, q: Point)
    requires
        candidates(g, p).contains(q),
    ensures
        in_bounds(q, g.width, g.height),
        two_apart(p, q),
        !g.visited(q),
        is_room(p) ==> is_room(q),
{
    let near = room_neighbors(p, g.width, g.height);
    near.lemma_filter_contains_rev(not_visited(g), q);
    lemma_around_on_grid_member(p, 2, g.width, g.height, q);
}

/// A tile two steps from `p` that lies on the grid and is not visited is a
/// candidate of `p`.
pub proof fn lemma_candidate_has(g: GridView, p: Point, q: Point)
    requires
        in_bounds(q, g.width, g.height),
        two_apart(p, q),
        !g.visited(q),
    ensures
        candidates(g, p).contains(q),
{
    lemma_around_on_grid_has(p, 2, g.width, g.height, q);
}

/// A room has at most four candidates.
pub proof fn lemma_candidates_len(g: GridView, p: Point)
    ensures
        candidates(g, p).len() <= 4,
{
    room_neighbors(p, g.width, g.height).lemma_filter_len(not_visited(g));
}

/// The grid after carving has moved from room `from` to room `to`: `to` is
/// visited, and `to` and the wall between the two have the passage colour.
pub open spec fn open_to(g: GridView, from: Point, to: Point) -> GridView {
    g.visit(to).paint(to, g.passage_color).paint(midpoint(from, to), g.passage_color)
}

/// A moment of carving: the grid, the rooms on the way back to the start with
/// the current room last, and the walls opened so far, oldest first.
pub struct CarveState {
    pub grid: GridView,
    pub stack: Seq<Point>,
    pub opened: Seq<Point>,
}

impl CarveState {
    /// Carving starts in room `(1, 1)`, which it marks visited.
    pub open spec fn begin(g: GridView) -> CarveState {
        CarveState { grid: g.visit((1, 1)), stack: seq![(1int, 1int)], opened: Seq::empty() }
    }

    /// No room is left to go back to.
    pub open spec fn done(self) -> bool {
        self.stack.len() == 0
    }

    /// The candidates of the current room.
    pub open spec fn choices(self) -> Seq<Point>
        recommends
            !self.done(),
    {
        candidates(self.grid, self.stack.last())
    }

    /// Carving moves on from the current room to `to`.
    pub open spec fn advance(self, to: Point) -> CarveState
        recommends
            !self.done(),
    {
        CarveState {
            grid: open_to(self.grid, self.stack.last(), to),
            stack: self.stack.push(to),
            opened: self.opened.push(midpoint(self.stack.last(), to)),
        }
    }

    /// Carving goes back from the current room to the one before it.
    pub open spec fn backtrack(self) -> CarveState
        recommends
            !self.done(),
    {
        CarveState { stack: self.stack.drop_last(), ..self }
    }

    /// Carving from this moment on with the given draws. A room without
    /// candidates is left without a draw; a room with candidates takes the
    /// next draw. Carving stops when it is done or when a draw is needed and
    /// none is left.
    pub open spec fn run(self, draws: Seq<u8>) -> CarveState
        decreases draws.len(), self.stack.len(),
    {
        if self.done() {
            self
        } else if self.choices().len() == 0 {
            self.backtrack().run(draws)
        } else if draws.len() == 0 {
            self
        } else {
            self.advance(pick(self.choices(), draws[0])).run(draws.drop_first())
        }
    }
}

/// Carving `before` from the start with `draws` comes to an end and leaves
/// `after`.
pub open spec fn carves(before: GridView, draws: Seq<u8>, after: GridView) -> bool {
    let end = CarveState::begin(before).run(draws);
    end.done() && end.grid == after
}

} // verus!
