//! What carving keeps true from step to step, and why.

use crate::carving::{candidates, lemma_candidate, lemma_candidate_has, open_to, pick, CarveState};
use crate::geometry::{in_bounds, is_room, midpoint, two_apart, Point};
use crate::grid::GridView;
use crate::maze::{
    carved_from, is_joint, is_way_to, joined_to_start, joins_visited, kept_or_carved,
    nothing_opened, nothing_visited, opened_walls, same_shape, unvisited_rooms, visited_rooms,
};
use crate::counting::lemma_room_count;
use vstd::prelude::*;

verus! {

/// What every carving keeps true: the grid is well formed and the rooms on
/// the stack are visited.
pub open spec fn stack_inv(s: CarveState) -> bool {
    &&& s.grid.wf()
    &&& forall|i: int| 0 <= i < s.stack.len() ==> s.grid.visited(#[trigger] s.stack[i])
}

/// What the walk keeps true of the rooms when it began with nothing visited:
/// the start is visited, and a visited room that is no longer on the stack
/// has no unvisited neighbour room.
pub open spec fn walk_inv(s: CarveState) -> bool {
    &&& stack_inv(s)
    &&& s.grid.visited((1, 1))
    &&& forall|p: Point, q: Point|
        s.grid.visited(p) && !s.stack.contains(p) && #[trigger] two_apart(p, q) && in_bounds(
            q,
            s.grid.width,
            s.grid.height,
        ) ==> s.grid.visited(q)
}

/// What the walk keeps true of the walls when it began with nothing visited
/// and nothing opened: the opened walls are those it has opened, each once and
/// each between two visited rooms, and they are one fewer than the visited
/// rooms.
pub open spec fn tree_inv(s: CarveState) -> bool {
    &&& visited_rooms(s.grid).finite()
    &&& opened_walls(s.grid).finite()
    &&& opened_walls(s.grid).len() + 1 == visited_rooms(s.grid).len()
    &&& forall|p: Point| #[trigger] opened_walls(s.grid).contains(p) ==> joins_visited(s.grid, p)
    &&& forall|p: Point| #[trigger] opened_walls(s.grid).contains(p) <==> s.opened.contains(p)
    &&& s.opened.len() == opened_walls(s.grid).len()
    &&& s.opened.no_duplicates()
}

/// What the walk keeps true of the passages when it began with nothing
/// visited: there is a way from the start to every visited room.
pub open spec fn way_inv(s: CarveState) -> bool {
    forall|p: Point| s.grid.visited(p) ==> #[trigger] joined_to_start(s.grid, p)
}

/// What moving from the visited room `from` to its candidate `to` changes on
/// the grid.
pub(crate) proof fn lemma_open_to(g: GridView, from: Point, to: Point)
    requires
        g.wf(),
        g.visited(from),
        candidates(g, from).contains(to),
    ensures
        open_to(g, from, to).wf(),
        same_shape(g, open_to(g, from, to)),
        is_room(to),
        !g.visited(to),
        is_joint(midpoint(from, to), g.width, g.height),
        joins_visited(open_to(g, from, to), midpoint(from, to)),
        forall|p: Point| #[trigger] open_to(g, from, to).visited(p) <==> g.visited(p) || p == to,
        forall|p: Point|
            p != to && p != midpoint(from, to) ==> #[trigger] open_to(g, from, to).tiles[p]
                == g.tiles[p],
        open_to(g, from, to).tiles[midpoint(from, to)].color == g.passage_color,
        open_to(g, from, to).tiles[to].color == g.passage_color,
{
    lemma_candidate(g, from, to);
    let mid = midpoint(from, to);
    let after = open_to(g, from, to);
    assert(after.tiles.dom() =~= g.tiles.dom());
    assert forall|p: Point| #[trigger]
        after.tiles.contains_key(p) && after.tiles[p].visited implies is_room(p) by {
    }
}

/// Moving from a room to its candidate `to` takes `to` from the rooms that are
/// not visited, of which there are finitely many.
pub(crate) proof fn lemma_open_to_visits_one_more(g: GridView, from: Point, to: Point)
    requires
        g.wf(),
        in_bounds(from, g.width, g.height),
        is_room(from),
        candidates(g, from).contains(to),
    ensures
        unvisited_rooms(g).finite(),
        unvisited_rooms(g).contains(to),
        unvisited_rooms(open_to(g, from, to)) == unvisited_rooms(g).remove(to),
{
    lemma_candidate(g, from, to);
    lemma_room_count(g.width, g.height);
    let after = open_to(g, from, to);
    assert(g.tiles.contains_key(to));
    assert(g.tiles.contains_key(midpoint(from, to)));
    assert forall|p: Point| #[trigger] after.visited(p) <==> g.visited(p) || p == to by {
        assert(after.tiles.contains_key(p) <==> g.tiles.contains_key(p));
    }
    assert(unvisited_rooms(after) =~= unvisited_rooms(g).remove(to));
}

/// Marking the start room keeps a grid well formed and changes no colour.
pub(crate) proof fn lemma_begin(g: GridView)
    requires
        g.wf(),
    ensures
        stack_inv(CarveState::begin(g)),
        carved_from(g, CarveState::begin(g).grid),
        forall|p: Point| #[trigger]
            CarveState::begin(g).grid.visited(p) <==> g.visited(p) || p == (1int, 1int),
        forall|p: Point| #[trigger] CarveState::begin(g).grid.tiles[p].color == g.tiles[p].color,
{
    let s = CarveState::begin(g);
    assert(s.grid.tiles.dom() =~= g.tiles.dom());
}

/// Moving on to a candidate keeps the stack's invariant, and the grid that
/// comes out is carved from the one before.
pub(crate) proof fn lemma_advance_stack(s: CarveState, to: Point)
    requires
        stack_inv(s),
        !s.done(),
        s.choices().contains(to),
    ensures
        stack_inv(s.advance(to)),
        carved_from(s.grid, s.advance(to).grid),
{
    let top = s.stack.last();
    lemma_open_to(s.grid, top, to);
}

/// Being carved from is transitive.
pub(crate) proof fn lemma_carved_from_trans(a: GridView, b: GridView, c: GridView)
    requires
        carved_from(a, b),
        carved_from(b, c),
    ensures
        carved_from(a, c),
{
    assert forall|p: Point| a.tiles.contains_key(p) implies #[trigger] kept_or_carved(a, c, p) by {
        assert(kept_or_carved(a, b, p));
        assert(kept_or_carved(b, c, p));
    }
}

/// The stack's invariant holds all along a carving, and the grid at its end
/// is carved from the grid at its beginning.
pub(crate) proof fn lemma_run_stack(s: CarveState, draws: Seq<u8>)
    requires
        stack_inv(s),
    ensures
        stack_inv(s.run(draws)),
        carved_from(s.grid, s.run(draws).grid),
    decreases draws.len(), s.stack.len(),
{
    if s.done() {
    } else if s.choices().len() == 0 {
        lemma_run_stack(s.backtrack(), draws);
    } else if draws.len() == 0 {
    } else {
        let to = pick(s.choices(), draws[0]);
        lemma_advance_stack(s, to);
        lemma_run_stack(s.advance(to), draws.drop_first());
        lemma_carved_from_trans(s.grid, s.advance(to).grid, s.run(draws).grid);
    }
}

/// The walk's invariant holds when carving begins on a grid with nothing
/// visited.
pub(crate) proof fn lemma_begin_walk(g: GridView)
    requires
        g.wf(),
        nothing_visited(g),
    ensures
        walk_inv(CarveState::begin(g)),
{
    let s = CarveState::begin(g);
    lemma_begin(g);
    assert(s.stack[0] == (1int, 1int));
}

/// The walk's invariant holds after carving has gone back from a room
/// without candidates.
pub(crate) proof fn lemma_backtrack_walk(s: CarveState)
    requires
        walk_inv(s),
        !s.done(),
        s.choices().len() == 0,
    ensures
        walk_inv(s.backtrack()),
{
    let t = s.backtrack();
    let top = s.stack.last();
    assert forall|p: Point, q: Point|
        t.grid.visited(p) && !t.stack.contains(p) && #[trigger] two_apart(p, q) && in_bounds(
            q,
            t.grid.width,
            t.grid.height,
        ) implies t.grid.visited(q) by {
        if p == top {
            if !s.grid.visited(q) {
                lemma_candidate_has(s.grid, top, q);
            }
        } else {
            if s.stack.contains(p) {
                let i = choose|i: int| 0 <= i < s.stack.len() && s.stack[i] == p;
                assert(t.stack[i] == p);
            }
        }
    }
}

/// The walk's invariant holds after carving has moved on to a candidate.
pub(crate) proof fn lemma_advance_walk(s: CarveState, to: Point)
    requires
        walk_inv(s),
        !s.done(),
        s.choices().contains(to),
    ensures
        walk_inv(s.advance(to)),
{
    let t = s.advance(to);
    let top = s.stack.last();
    lemma_open_to(s.grid, top, to);
    assert(t.stack[t.stack.len() - 1] == to);
    assert forall|p: Point, q: Point|
        t.grid.visited(p) && !t.stack.contains(p) && #[trigger] two_apart(p, q) && in_bounds(
            q,
            t.grid.width,
            t.grid.height,
        ) implies t.grid.visited(q) by {
        if s.stack.contains(p) {
            let i = choose|i: int| 0 <= i < s.stack.len() && s.stack[i] == p;
            assert(t.stack[i] == p);
        }
    }
}

/// The walk's invariant holds all along a carving.
pub(crate) proof fn lemma_run_walk(s: CarveState, draws: Seq<u8>)
    requires
        walk_inv(s),
    ensures
        walk_inv(s.run(draws)),
    decreases draws.len(), s.stack.len(),
{
    if s.done() {
    } else if s.choices().len() == 0 {
        lemma_backtrack_walk(s);
        lemma_run_walk(s.backtrack(), draws);
    } else if draws.len() == 0 {
    } else {
        let to = pick(s.choices(), draws[0]);
        lemma_advance_walk(s, to);
        lemma_run_walk(s.advance(to), draws.drop_first());
    }
}

/// Once the walk is over, it has been in room `room`.
pub(crate) proof fn lemma_room_reached(s: CarveState, room: Point)
    requires
        walk_inv(s),
        s.done(),
        in_bounds(room, s.grid.width, s.grid.height),
        is_room(room),
    ensures
        s.grid.visited(room),
    decreases room.0 + room.1,
{
    if room == (1int, 1int) {
    } else if room.0 > 1 {
        let before = (room.0 - 2, room.1);
        lemma_room_reached(s, before);
        assert(two_apart(before, room));
    } else {
        let before = (room.0, room.1 - 2);
        lemma_room_reached(s, before);
        assert(two_apart(before, room));
    }
}

/// The walls' invariant holds when carving begins on a grid with nothing
/// visited and nothing opened.
pub(crate) proof fn lemma_begin_tree(g: GridView)
    requires
        g.wf(),
        nothing_visited(g),
        nothing_opened(g),
    ensures
        tree_inv(CarveState::begin(g)),
{
    let s = CarveState::begin(g);
    lemma_begin(g);
    assert forall|p: Point| !#[trigger] opened_walls(s.grid).contains(p) by {
        assert(!opened_walls(g).contains(p));
    }
    assert(opened_walls(s.grid) =~= Set::<Point>::empty());
    assert(visited_rooms(s.grid) =~= Set::<Point>::empty().insert((1int, 1int)));
}

/// The walls' invariant holds after carving has moved on to a candidate.
pub(crate) proof fn lemma_advance_tree(s: CarveState, to: Point)
    requires
        stack_inv(s),
        tree_inv(s),
        !s.done(),
        s.choices().contains(to),
    ensures
        tree_inv(s.advance(to)),
{
    let t = s.advance(to);
    let top = s.stack.last();
    let mid = midpoint(top, to);
    lemma_candidate(s.grid, top, to);
    assert(opened_walls(t.grid) =~= opened_walls(s.grid).insert(mid));
    assert(visited_rooms(t.grid) =~= visited_rooms(s.grid).insert(to));
    assert(t.opened[t.opened.len() - 1] == mid);
    assert forall|p: Point| #[trigger] opened_walls(t.grid).contains(p) <==> t.opened.contains(
        p,
    ) by {
        if s.opened.contains(p) {
            let i = choose|i: int| 0 <= i < s.opened.len() && s.opened[i] == p;
            assert(t.opened[i] == p);
        }
    }
}

/// The walls' invariant holds all along a carving.
pub(crate) proof fn lemma_run_tree(s: CarveState, draws: Seq<u8>)
    requires
        stack_inv(s),
        tree_inv(s),
    ensures
        tree_inv(s.run(draws)),
    decreases draws.len(), s.stack.len(),
{
    if s.done() {
    } else if s.choices().len() == 0 {
        lemma_run_tree(s.backtrack(), draws);
    } else if draws.len() == 0 {
    } else {
        let to = pick(s.choices(), draws[0]);
        lemma_advance_stack(s, to);
        lemma_advance_tree(s, to);
        lemma_run_tree(s.advance(to), draws.drop_first());
    }
}

/// A way through the maze stays one when more rooms are visited and more
/// walls are opened.
pub(crate) proof fn lemma_way_stays(g: GridView, later: GridView, path: Seq<Point>, room: Point)
    requires
        is_way_to(g, path, room),
        forall|p: Point| g.visited(p) ==> #[trigger] later.visited(p),
        forall|p: Point| opened_walls(g).contains(p) ==> #[trigger] opened_walls(later).contains(p),
    ensures
        is_way_to(later, path, room),
{
}

/// The passages' invariant holds when carving begins on a grid with nothing
/// visited.
pub(crate) proof fn lemma_begin_way(g: GridView)
    requires
        g.wf(),
        nothing_visited(g),
    ensures
        way_inv(CarveState::begin(g)),
{
    let s = CarveState::begin(g);
    lemma_begin(g);
    assert forall|p: Point| s.grid.visited(p) implies #[trigger] joined_to_start(s.grid, p) by {
        assert(is_way_to(s.grid, seq![(1int, 1int)], p));
    }
}

/// The passages' invariant holds after carving has moved on to a candidate.
pub(crate) proof fn lemma_advance_way(s: CarveState, to: Point)
    requires
        stack_inv(s),
        way_inv(s),
        !s.done(),
        s.choices().contains(to),
    ensures
        way_inv(s.advance(to)),
{
    let t = s.advance(to);
    let top = s.stack.last();
    lemma_open_to(s.grid, top, to);
    lemma_candidate(s.grid, top, to);
    assert forall|p: Point| t.grid.visited(p) implies #[trigger] joined_to_start(t.grid, p) by {
        if p == to {
            assert(joined_to_start(s.grid, top));
            let path = choose|path: Seq<Point>| is_way_to(s.grid, path, top);
            let longer = path.push(to);
            assert(is_way_to(t.grid, longer, to));
        } else {
            assert(joined_to_start(s.grid, p));
            let path = choose|path: Seq<Point>| is_way_to(s.grid, path, p);
            lemma_way_stays(s.grid, t.grid, path, p);
        }
    }
}

/// The passages' invariant holds all along a carving.
pub(crate) proof fn lemma_run_way(s: CarveState, draws: Seq<u8>)
    requires
        stack_inv(s),
        way_inv(s),
    ensures
        way_inv(s.run(draws)),
    decreases draws.len(), s.stack.len(),
{
    if s.done() {
    } else if s.choices().len() == 0 {
        lemma_run_way(s.backtrack(), draws);
    } else if draws.len() == 0 {
    } else {
        let to = pick(s.choices(), draws[0]);
        lemma_advance_stack(s, to);
        lemma_advance_way(s, to);
        lemma_run_way(s.advance(to), draws.drop_first());
    }
}

} // verus!
