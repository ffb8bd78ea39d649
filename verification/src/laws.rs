//! The laws of carving: what holds of every grid that carving leaves.

use crate::canvas::{image_bytes, pixel_rows};
use crate::carving::{carves, pick, CarveState};
use crate::color::Color;
use crate::counting::lemma_room_count;
use crate::geometry::{in_bounds, is_room, Point};
use crate::grid::{initial_view, valid_dimension, GridView};
use crate::invariants::{
    lemma_begin, lemma_begin_tree, lemma_begin_walk, lemma_begin_way, lemma_carved_from_trans,
    lemma_room_reached, lemma_run_stack, lemma_run_tree, lemma_run_walk, lemma_run_way,
};
use crate::maze::{
    carved_from, is_perfect_maze, joined_to_start, joins_visited, nothing_opened,
    nothing_visited, opened_walls, room_count, rooms, visited_rooms,
};
use vstd::arithmetic::div_mod::{
    lemma_div_pos_is_pos, lemma_fundamental_div_mod, lemma_mod_pos_bound, lemma_small_mod,
};
use vstd::prelude::*;

verus! {

/// A grid before carving is well formed and has nothing visited. It has
/// nothing opened unless its walls have the passage colour and it has an
/// inner wall, which every grid but the smallest has.
pub proof fn law_grid_before_carving(
    width: int,
    height: int,
    wall_color: Color,
    passage_color: Color,
    breach: Color,
)
    requires
        valid_dimension(width),
        valid_dimension(height),
    ensures
        initial_view(width, height, wall_color, passage_color, breach).wf(),
        nothing_visited(initial_view(width, height, wall_color, passage_color, breach)),
        nothing_opened(initial_view(width, height, wall_color, passage_color, breach)) <==> (
        wall_color != passage_color || (width == 3 && height == 3)),
{
    let fresh = initial_view(width, height, wall_color, passage_color, breach);
    if wall_color == passage_color {
        if width > 3 {
            assert(opened_walls(fresh).contains((1, 2)));
        } else if height > 3 {
            assert(opened_walls(fresh).contains((2, 1)));
        }
    }
}

/// Carving keeps the grid in shape: whatever the draws, the grid that is
/// left is well formed, has the size and the two colours it had, and has
/// every tile visited that was visited. Only rooms and walls between rooms
/// have changed colour, and those to the passage colour.
pub proof fn law_carving_keeps_shape(before: GridView, draws: Seq<u8>)
    requires
        before.wf(),
    ensures
        CarveState::begin(before).run(draws).grid.wf(),
        carved_from(before, CarveState::begin(before).run(draws).grid),
{
    let start = CarveState::begin(before);
    lemma_begin(before);
    lemma_run_stack(start, draws);
    lemma_carved_from_trans(before, start.grid, start.run(draws).grid);
}

/// Connectivity: a carving that comes to its end on a grid on which nothing
/// was visited has visited every room.
pub proof fn law_every_room_visited(before: GridView, draws: Seq<u8>, after: GridView, room: Point)
    requires
        before.wf(),
        nothing_visited(before),
        carves(before, draws, after),
        in_bounds(room, before.width, before.height),
        is_room(room),
    ensures
        after.visited(room),
{
    let start = CarveState::begin(before);
    lemma_begin_walk(before);
    lemma_run_walk(start, draws);
    lemma_run_stack(start, draws);
    lemma_room_reached(start.run(draws), room);
}

/// Spanning-tree size: at every moment of a carving that began on a grid
/// with nothing visited and nothing opened, the opened walls are one fewer
/// than the visited rooms, each of them lies between two visited rooms, and
/// they are the walls that the carving has opened, each listed once.
pub proof fn law_walls_one_fewer_than_rooms(before: GridView, draws: Seq<u8>)
    requires
        before.wf(),
        nothing_visited(before),
        nothing_opened(before),
    ensures
        visited_rooms(CarveState::begin(before).run(draws).grid).finite(),
        opened_walls(CarveState::begin(before).run(draws).grid).finite(),
        opened_walls(CarveState::begin(before).run(draws).grid).len() == visited_rooms(
            CarveState::begin(before).run(draws).grid,
        ).len() - 1,
        forall|p: Point| #[trigger]
            opened_walls(CarveState::begin(before).run(draws).grid).contains(p) ==> joins_visited(
                CarveState::begin(before).run(draws).grid,
                p,
            ),
        CarveState::begin(before).run(draws).opened.to_set() == opened_walls(
            CarveState::begin(before).run(draws).grid,
        ),
        CarveState::begin(before).run(draws).opened.no_duplicates(),
        CarveState::begin(before).run(draws).opened.len() == opened_walls(
            CarveState::begin(before).run(draws).grid,
        ).len(),
{
    let start = CarveState::begin(before);
    lemma_begin_tree(before);
    lemma_run_tree(start, draws);
}

/// Passages connect: at every moment of a carving that began on a grid with
/// nothing visited, there is a way from the start room through opened walls
/// to every visited room.
pub proof fn law_visited_rooms_joined_to_start(before: GridView, draws: Seq<u8>, room: Point)
    requires
        before.wf(),
        nothing_visited(before),
        CarveState::begin(before).run(draws).grid.visited(room),
    ensures
        joined_to_start(CarveState::begin(before).run(draws).grid, room),
{
    let start = CarveState::begin(before);
    lemma_begin_way(before);
    lemma_run_way(start, draws);
}

/// Determinism: the grid that a carving leaves, and with it the image,
/// depends on nothing but the grid it began on and the draws. Two carvings of
/// the same grid with the same draws leave the same grid and the same image.
pub proof fn law_same_draws_same_image(
    before: GridView,
    draws: Seq<u8>,
    first: GridView,
    second: GridView,
)
    requires
        carves(before, draws, first),
        carves(before, draws, second),
    ensures
        first == second,
        pixel_rows(first) == pixel_rows(second),
        image_bytes(first) == image_bytes(second),
{
}

/// Draws that are left over when a carving has come to its end change
/// nothing.
pub proof fn law_spare_draws_change_nothing(s: CarveState, draws: Seq<u8>, spare: Seq<u8>)
    requires
        s.run(draws).done(),
    ensures
        s.run(draws + spare) == s.run(draws),
    decreases draws.len(), s.stack.len(),
{
    if s.done() {
    } else if s.choices().len() == 0 {
        law_spare_draws_change_nothing(s.backtrack(), draws, spare);
    } else {
        let to = pick(s.choices(), draws[0]);
        assert((draws + spare).drop_first() =~= draws.drop_first() + spare);
        law_spare_draws_change_nothing(s.advance(to), draws.drop_first(), spare);
    }
}

/// The size of the tree: a carving that comes to its end on a grid on which
/// nothing was visited and nothing opened has visited exactly the rooms of the
/// grid, and has opened one wall fewer than the grid has rooms.
pub proof fn law_finished_carving_counts(before: GridView, draws: Seq<u8>, after: GridView)
    requires
        before.wf(),
        nothing_visited(before),
        nothing_opened(before),
        carves(before, draws, after),
    ensures
        visited_rooms(after) == rooms(before.width, before.height),
        visited_rooms(after).len() == room_count(before.width, before.height),
        opened_walls(after).len() == room_count(before.width, before.height) - 1,
{
    law_carving_keeps_shape(before, draws);
    law_walls_one_fewer_than_rooms(before, draws);
    lemma_room_count(before.width, before.height);
    assert forall|p: Point| #[trigger]
        visited_rooms(after).contains(p) <==> rooms(before.width, before.height).contains(p) by {
        if in_bounds(p, before.width, before.height) && is_room(p) {
            law_every_room_visited(before, draws, after, p);
        }
    }
    assert(visited_rooms(after) =~= rooms(before.width, before.height));
}

/// Even picking: the draws below the number of candidates pick the
/// candidates one for one, the draw `k` picking candidate `k`. A source that
/// hands out each of these draws equally often picks each candidate equally
/// often.
pub proof fn law_draws_pick_one_for_one(among: Seq<Point>, draw: u8)
    requires
        draw < among.len(),
    ensures
        pick(among, draw) == among[draw as int],
{
    lemma_small_mod(draw as nat, among.len());
}

/// Perfect mazes: a carving that comes to its end on a grid on which
/// nothing was visited and nothing opened leaves a perfect maze.
pub proof fn law_finished_carving_is_perfect(before: GridView, draws: Seq<u8>, after: GridView)
    requires
        before.wf(),
        nothing_visited(before),
        nothing_opened(before),
        carves(before, draws, after),
    ensures
        is_perfect_maze(after),
{
    law_carving_keeps_shape(before, draws);
    law_walls_one_fewer_than_rooms(before, draws);
    law_finished_carving_counts(before, draws, after);
    assert forall|room: Point|
        in_bounds(room, after.width, after.height) && is_room(room)
            implies #[trigger] after.visited(room) by {
        law_every_room_visited(before, draws, after, room);
    }
    assert forall|room: Point| after.visited(room) implies #[trigger] joined_to_start(
        after,
        room,
    ) by {
        law_visited_rooms_joined_to_start(before, draws, room);
    }
}

/// The image shows the colours and nothing else: two grids of one size with
/// the same colour on every tile have the same image, pixel for pixel and
/// byte for byte, whatever is visited on them.
pub proof fn law_image_shows_colours_only(first: GridView, second: GridView)
    requires
        first.wf(),
        second.wf(),
        first.width == second.width,
        first.height == second.height,
        forall|p: Point|
            in_bounds(p, first.width, first.height) ==> (#[trigger] first.tiles[p]).color
                == second.tiles[p].color,
    ensures
        pixel_rows(first) == pixel_rows(second),
        image_bytes(first) == image_bytes(second),
{
    let width = first.width;
    let height = first.height;
    assert forall|y: int| 0 <= y < height implies #[trigger] pixel_rows(first)[y] == pixel_rows(
        second,
    )[y] by {
        assert forall|x: int| 0 <= x < width implies #[trigger] pixel_rows(first)[y][x]
            == pixel_rows(second)[y][x] by {
            assert(first.tiles[(y, x)].color == second.tiles[(y, x)].color);
        }
        assert(pixel_rows(first)[y] =~= pixel_rows(second)[y]);
    }
    assert(pixel_rows(first) =~= pixel_rows(second));
    assert(3 * width * height >= 0) by (nonlinear_arith)
        requires
            width >= 0,
            height >= 0,
    ;
    assert forall|i: int| 0 <= i < 3 * width * height implies #[trigger] image_bytes(first)[i]
        == image_bytes(second)[i] by {
        let tile = i / 3;
        assert(tile < width * height) by (nonlinear_arith)
            requires
                i < 3 * width * height,
                tile == i / 3,
        ;
        lemma_fundamental_div_mod(tile, width);
        lemma_div_pos_is_pos(tile, width);
        lemma_mod_pos_bound(tile, width);
        assert(tile / width < height) by (nonlinear_arith)
            requires
                tile == width * (tile / width) + tile % width,
                0 <= tile % width,
                tile < width * height,
                width >= 1,
        ;
        assert(first.tiles[(tile / width, tile % width)].color == second.tiles[(
            tile / width,
            tile % width,
        )].color);
    }
    assert(image_bytes(first) =~= image_bytes(second));
}

} // verus!
