//! Carving: the randomized depth-first walk over the rooms of a grid, with an
//! explicit stack of rooms.

use crate::carving::{
    candidates, carves, lemma_candidate, lemma_candidates_len, not_visited, open_to, CarveState,
};
use crate::dice::{draw_below, seeded_rng};
use crate::geometry::{
    in_bounds, is_room, lemma_around_on_grid_member, midpoint, point, points, room_neighbors,
    two_apart, wall_between, Point,
};
use crate::color::Color;
use crate::grid::{initial_view, size_error, ConfigurationError, Grid, GridView};
use crate::laws::{
    law_carving_keeps_shape, law_every_room_visited, law_finished_carving_is_perfect,
    law_grid_before_carving,
};
use crate::invariants::lemma_open_to_visits_one_more;
use crate::maze::{
    all_rooms_visited, carved_from, is_perfect_maze, nothing_opened, nothing_visited,
    unvisited_rooms,
};
use crate::position::Position;
use rand::rngs::StdRng;
use vstd::arithmetic::div_mod::lemma_small_mod;
use vstd::prelude::*;

verus! {

/// Filtering one element further either appends that element or changes
/// nothing.
proof fn lemma_filter_next(s: Seq<Point>, pred: spec_fn(Point) -> bool, i: int)
    requires
        0 <= i < s.len(),
    ensures
        s.take(i + 1).filter(pred) == if pred(s[i]) {
            s.take(i).filter(pred).push(s[i])
        } else {
            s.take(i).filter(pred)
        },
{
    reveal(Seq::filter);
    assert(s.take(i + 1).drop_last() =~= s.take(i));
}

/// What a scripted carving did.
#[derive(Debug)]
pub struct Carving {
    /// Carving came to its end: no draw was missing.
    pub complete: bool,
    /// The walls that were opened, in the order in which they were opened.
    pub opened: Vec<(u16, u16)>,
}

/// The candidate that a draw picks among `among`, if there is any candidate.
///
/// A draw below the number of candidates picks the candidate at that place.
/// A greater draw counts on round the candidates, so that a script of draws
/// can be written without knowing how many candidates each room will have.
/// Draws from a random source are made below the number of candidates: there
/// the draw is never reduced and no candidate is favoured.
pub fn choose_neighbor(among: &Vec<(u16, u16)>, draw: u8) -> (chosen: Option<(u16, u16)>)
    ensures
        among@.len() == 0 ==> chosen is None,
        among@.len() > 0 ==> chosen == Some(among@[draw as int % among@.len() as int]),
{
    if among.len() == 0 {
        None
    } else {
        Some(among[(draw as usize) % among.len()])
    }
}

impl Position {
    /// The neighbour rooms of this tile that are not visited on `grid`, in
    /// the order up, right, down, left.
    pub fn unvisited_neighbors(&self, grid: &Grid) -> (out: Vec<(u16, u16)>)
        requires
            grid.wf(),
        ensures
            points(out@) == candidates(grid@, self.at()),
    {
        let neighbors = self.find_neighbors(grid.width(), grid.height());
        let mut out: Vec<(u16, u16)> = Vec::new();
        let mut i: usize = 0;
        let ghost near = points(neighbors@);
        assert(points(out@) =~= near.take(0).filter(not_visited(grid@))) by {
            reveal(Seq::filter);
        }
        while i < neighbors.len()
            invariant
                grid.wf(),
                i <= neighbors.len(),
                near == points(neighbors@),
                near == room_neighbors(self.at(), grid@.width, grid@.height),
                points(out@) == near.take(i as int).filter(not_visited(grid@)),
            decreases neighbors.len() - i,
        {
            let n = neighbors[i];
            proof {
                assert(near[i as int] == point(n));
                lemma_around_on_grid_member(self.at(), 2, grid@.width, grid@.height, point(n));
                lemma_filter_next(near, not_visited(grid@), i as int);
            }
            let cell = grid.position(n.0, n.1);
            if !cell.is_visited() {
                out.push(n);
            }
            i = i + 1;
        }
        assert(near.take(i as int) =~= near);
        out
    }

    /// One of the unvisited neighbour rooms of this tile, drawn from `rng`,
    /// or nothing when every neighbour room is visited.
    pub fn get_neighbor_pos(&self, grid: &Grid, rng: &mut StdRng) -> (chosen: Option<(u16, u16)>)
        requires
            grid.wf(),
        ensures
            match chosen {
                Some(q) => candidates(grid@, self.at()).contains(point(q)),
                None => candidates(grid@, self.at()).len() == 0,
            },
    {
        let choose = self.unvisited_neighbors(grid);
        if choose.len() == 0 {
            return None;
        }
        proof {
            lemma_candidates_len(grid@, self.at());
        }
        let index = draw_below(rng, choose.len() as u8);
        let chosen = choose_neighbor(&choose, index);
        proof {
            lemma_small_mod(index as nat, choose@.len());
            assert(points(choose@)[index as int] == point(choose@[index as int]));
        }
        chosen
    }
}

/// What the laws of carving say of the grid that a carving leaves.
proof fn lemma_carving(before: GridView, draws: Seq<u8>)
    requires
        before.wf(),
    ensures
        CarveState::begin(before).run(draws).grid.wf(),
        carved_from(before, CarveState::begin(before).run(draws).grid),
        nothing_visited(before) && CarveState::begin(before).run(draws).done()
            ==> all_rooms_visited(CarveState::begin(before).run(draws).grid),
        nothing_visited(before) && nothing_opened(before) && CarveState::begin(before).run(
            draws,
        ).done() ==> is_perfect_maze(CarveState::begin(before).run(draws).grid),
{
    let end = CarveState::begin(before).run(draws);
    law_carving_keeps_shape(before, draws);
    if nothing_visited(before) && end.done() {
        assert forall|room: Point|
            in_bounds(room, end.grid.width, end.grid.height) && is_room(
                room,
            ) implies #[trigger] end.grid.visited(room) by {
            law_every_room_visited(before, draws, end.grid, room);
        }
        if nothing_opened(before) {
            law_finished_carving_is_perfect(before, draws, end.grid);
        }
    }
}

/// The stack of a carving holds rooms of the grid.
pub open spec fn rooms_on_grid(stack: Seq<(u16, u16)>, width: int, height: int) -> bool {
    forall|i: int|
        0 <= i < stack.len() ==> in_bounds(point(#[trigger] stack[i]), width, height) && is_room(
            point(stack[i]),
        )
}

impl Grid {
    /// Moves carving from room `from` to its neighbour room `to`: marks `to`
    /// visited, gives it and the wall between the two the passage colour, and
    /// returns that wall.
    pub fn carve_passage(&mut self, from: (u16, u16), to: (u16, u16)) -> (wall: (u16, u16))
        requires
            old(self).wf(),
            in_bounds(point(from), old(self)@.width, old(self)@.height),
            in_bounds(point(to), old(self)@.width, old(self)@.height),
            is_room(point(to)),
            two_apart(point(from), point(to)),
        ensures
            final(self).wf(),
            final(self)@ == open_to(old(self)@, point(from), point(to)),
            point(wall) == midpoint(point(from), point(to)),
    {
        self.mark_visited(to.0, to.1);
        let passage = self.passage_color();
        self.set_color(to.0, to.1, passage);
        let wall = wall_between(from, to);
        self.set_color(wall.0, wall.1, passage);
        wall
    }

    /// Carves the grid with the given draws in place of a random source.
    ///
    /// Carving starts in room `(1, 1)`. A room with unvisited neighbour rooms
    /// takes the next draw, which counts round them; a room without any is
    /// left without a draw. Carving is complete when it is back at the start
    /// with nothing left to visit, and stops early when a draw is needed and
    /// none is left.
    pub fn carve_scripted(&mut self, draws: &Vec<u8>) -> (out: Carving)
        requires
            old(self).wf(),
        ensures
            final(self).wf(),
            final(self)@ == CarveState::begin(old(self)@).run(draws@).grid,
            out.complete == CarveState::begin(old(self)@).run(draws@).done(),
            points(out.opened@) == CarveState::begin(old(self)@).run(draws@).opened,
            carved_from(old(self)@, final(self)@),
            out.complete && nothing_visited(old(self)@) ==> all_rooms_visited(final(self)@),
            out.complete && nothing_visited(old(self)@) && nothing_opened(old(self)@)
                ==> is_perfect_maze(final(self)@),
    {
        let mut stack: Vec<(u16, u16)> = Vec::new();
        let mut opened: Vec<(u16, u16)> = Vec::new();
        let mut used: usize = 0;
        let mut stalled = false;
        self.mark_visited(1, 1);
        stack.push((1, 1));
        let ghost goal = CarveState::begin(old(self)@).run(draws@);
        proof {
            assert(points(stack@) =~= seq![(1int, 1int)]);
            assert(points(opened@) =~= Seq::<Point>::empty());
            assert(draws@.skip(0) =~= draws@);
        }
        // What is left to do from here, with the draws that are left, is what
        // was to do from the start with all the draws.
        while stack.len() > 0 && !stalled
            invariant
                self.wf(),
                used <= draws@.len(),
                rooms_on_grid(stack@, self@.width, self@.height),
                goal == (CarveState {
                    grid: self@,
                    stack: points(stack@),
                    opened: points(opened@),
                }).run(draws@.skip(used as int)),
                stalled ==> used == draws@.len() && stack@.len() > 0 && candidates(
                    self@,
                    point(stack@.last()),
                ).len() > 0,
            decreases draws@.len() - used, stack@.len(), if stalled { 0int } else { 1int },
        {
            let current = stack[stack.len() - 1];
            let cell = self.position(current.0, current.1);
            let choose = cell.unvisited_neighbors(self);
            if choose.len() == 0 {
                let ghost stack_before = stack@;
                stack.pop();
                proof {
                    assert(points(stack@) =~= points(stack_before).drop_last());
                }
            } else if used == draws.len() {
                stalled = true;
            } else {
                let draw = draws[used];
                let to = choose[(draw as usize) % choose.len()];
                proof {
                    lemma_candidate(self@, point(current), point(to));
                    assert(draws@.skip(used as int).drop_first() =~= draws@.skip(used + 1));
                }
                let ghost stack_before = stack@;
                let ghost opened_before = opened@;
                let wall = self.carve_passage(current, to);
                stack.push(to);
                opened.push(wall);
                used = used + 1;
                proof {
                    assert(points(stack@) =~= points(stack_before).push(point(to)));
                    assert(points(opened@) =~= points(opened_before).push(point(wall)));
                }
            }
        }
        proof {
            lemma_carving(old(self)@, draws@);
        }
        Carving { complete: stack.len() == 0, opened }
    }

    /// Carves the grid with draws from `rng`.
    ///
    /// Carving starts in room `(1, 1)` and goes on until it is back there
    /// with nothing left to visit. Whatever the generator hands out, the grid
    /// that is left is the one that a scripted carving with some sequence of
    /// draws comes to an end with.
    pub fn carve(&mut self, rng: &mut StdRng)
        requires
            old(self).wf(),
        ensures
            final(self).wf(),
            exists|draws: Seq<u8>| carves(old(self)@, draws, final(self)@),
            carved_from(old(self)@, final(self)@),
            nothing_visited(old(self)@) ==> all_rooms_visited(final(self)@),
            nothing_visited(old(self)@) && nothing_opened(old(self)@) ==> is_perfect_maze(
                final(self)@,
            ),
    {
        let mut stack: Vec<(u16, u16)> = Vec::new();
        self.mark_visited(1, 1);
        stack.push((1, 1));
        let ghost start = CarveState::begin(old(self)@);
        let ghost mut opened: Seq<Point> = Seq::empty();
        let ghost mut trace: Seq<u8> = Seq::empty();
        proof {
            assert(points(stack@) =~= seq![(1int, 1int)]);
        }
        // The draws made so far, followed by any others, lead from the start
        // to where the others alone lead from here.
        while stack.len() > 0
            invariant
                self.wf(),
                rooms_on_grid(stack@, self@.width, self@.height),
                forall|rest: Seq<u8>| #[trigger]
                    start.run(trace + rest) == (CarveState {
                        grid: self@,
                        stack: points(stack@),
                        opened,
                    }).run(rest),
            decreases unvisited_rooms(self@).len(), stack@.len(),
        {
            let ghost now = CarveState { grid: self@, stack: points(stack@), opened };
            let ghost stack_before = stack@;
            let current = stack[stack.len() - 1];
            let cell = self.position(current.0, current.1);
            match cell.get_neighbor_pos(&*self, rng) {
                Some(to) => {
                    // The draw that picks `to` is its place among the candidates.
                    let ghost place = now.choices().index_of(point(to));
                    let ghost draw = place as u8;
                    proof {
                        lemma_candidates_len(self@, point(current));
                        lemma_small_mod(place as nat, now.choices().len());
                        lemma_candidate(self@, point(current), point(to));
                        lemma_open_to_visits_one_more(self@, point(current), point(to));
                    }
                    let wall = self.carve_passage(current, to);
                    stack.push(to);
                    proof {
                        assert(points(stack@) =~= points(stack_before).push(point(to)));
                        let next = now.advance(point(to));
                        assert forall|rest: Seq<u8>| #[trigger]
                            start.run(trace.push(draw) + rest) == next.run(rest) by {
                            let longer = seq![draw] + rest;
                            assert(trace + longer =~= trace.push(draw) + rest);
                            assert(longer.drop_first() =~= rest);
                        }
                        trace = trace.push(draw);
                        opened = next.opened;
                    }
                },
                None => {
                    stack.pop();
                    proof {
                        assert(points(stack@) =~= points(stack_before).drop_last());
                    }
                },
            }
        }
        proof {
            assert(trace + Seq::<u8>::empty() =~= trace);
            assert(carves(old(self)@, trace, self@));
            lemma_carving(old(self)@, trace);
        }
    }
}

/// A carved grid of the given size and colours, drawn with the standard
/// generator seeded with `seed`.
///
/// Refused when the width or the height is even or below three. Otherwise
/// the grid is what some sequence of draws carves out of the grid before
/// carving: every room is visited, and the grid is a perfect maze, unless the
/// two colours are the same, which tells no wall from a passage.
pub fn generate(
    width: u16,
    height: u16,
    wall_color: Color,
    passage_color: Color,
    seed: u64,
) -> (made: Result<Grid, ConfigurationError>)
    ensures
        made is Ok <==> size_error(width, height) is None,
        made matches Err(e) ==> size_error(width, height) == Some(e),
        made matches Ok(grid) ==> {
            let fresh = initial_view(
                width as int,
                height as int,
                wall_color,
                passage_color,
                passage_color,
            );
            &&& grid.wf()
            &&& exists|draws: Seq<u8>| carves(fresh, draws, grid@)
            &&& carved_from(fresh, grid@)
            &&& all_rooms_visited(grid@)
            &&& wall_color != passage_color || (width == 3 && height == 3) ==> is_perfect_maze(
                grid@,
            )
        },
{
    match Grid::init(width, height, wall_color, passage_color) {
        Ok(grid) => {
            let mut grid = grid;
            let mut rng = seeded_rng(seed);
            proof {
                law_grid_before_carving(
                    width as int,
                    height as int,
                    wall_color,
                    passage_color,
                    passage_color,
                );
            }
            grid.carve(&mut rng);
            Ok(grid)
        },
        Err(e) => Err(e),
    }
}

} // verus!
