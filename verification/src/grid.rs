//! The grid of tiles: a dense store of one record per coordinate.

use crate::color::Color;
use crate::geometry::{in_bounds, is_room, Point};
use crate::position::Position;
use vstd::prelude::*;

verus! {

/// Why a grid could not be made.
#[derive(Clone, Copy, Debug, PartialEq, Eq, Structural)]
pub enum ConfigurationError {
    /// The width is even or below three.
    Width(u16),
    /// The width is fine, and the height is even or below three.
    Height(u16),
}

/// What the model knows of one tile.
pub struct Tile {
    pub color: Color,
    pub visited: bool,
}

/// The mathematical model of a grid: its size, its two colours, and the tile
/// at each coordinate `(row, col)`.
pub struct GridView {
    pub width: int,
    pub height: int,
    pub wall_color: Color,
    pub passage_color: Color,
    pub tiles: Map<Point, Tile>,
}

/// A grid dimension must be odd and at least three.
pub open spec fn valid_dimension(n: int) -> bool {
    n >= 3 && n % 2 == 1
}

/// The error that a grid of this size is refused with, if any: the width is
/// looked at first.
pub open spec fn size_error(width: u16, height: u16) -> Option<ConfigurationError> {
    if !valid_dimension(width as int) {
        Some(ConfigurationError::Width(width))
    } else if !valid_dimension(height as int) {
        Some(ConfigurationError::Height(height))
    } else {
        None
    }
}

/// The three tiles that are breached before carving: the entrance `(0, 1)`
/// with the start room `(1, 1)` behind it, and the exit in the last row below
/// the last room.
pub open spec fn is_breach(p: Point, width: int, height: int) -> bool {
    p == (0int, 1int) || p == (1int, 1int) || p == (height - 1, width - 2)
}

/// The colour a tile starts with.
pub open spec fn initial_color(
    p: Point,
    width: int,
    height: int,
    fill: Color,
    breach: Color,
) -> Color {
    if is_breach(p, width, height) {
        breach
    } else {
        fill
    }
}

/// The model of a grid before carving: nothing visited, the three breaches in
/// `breach`, every other tile in `wall_color`.
pub open spec fn initial_view(
    width: int,
    height: int,
    wall_color: Color,
    passage_color: Color,
    breach: Color,
) -> GridView {
    GridView {
        width,
        height,
        wall_color,
        passage_color,
        tiles: Map::new(
            |p: Point| in_bounds(p, width, height),
            |p: Point|
                Tile { color: initial_color(p, width, height, wall_color, breach), visited: false },
        ),
    }
}

impl GridView {
    /// The size is valid, there is a tile at exactly the coordinates on the
    /// grid, and only rooms are visited.
    pub open spec fn wf(self) -> bool {
        &&& valid_dimension(self.width)
        &&& valid_dimension(self.height)
        &&& forall|p: Point| #[trigger]
            self.tiles.contains_key(p) <==> in_bounds(p, self.width, self.height)
        &&& forall|p: Point| #[trigger]
            self.tiles.contains_key(p) && self.tiles[p].visited ==> is_room(p)
    }

    /// `p` is a tile of the grid that carving has entered.
    pub open spec fn visited(self, p: Point) -> bool {
        self.tiles.contains_key(p) && self.tiles[p].visited
    }

    /// The grid with `p` in `color`.
    pub open spec fn paint(self, p: Point, color: Color) -> GridView {
        GridView {
            tiles: self.tiles.insert(p, Tile { color, visited: self.tiles[p].visited }),
            ..self
        }
    }

    /// The grid with `p` visited.
    pub open spec fn visit(self, p: Point) -> GridView {
        GridView {
            tiles: self.tiles.insert(p, Tile { color: self.tiles[p].color, visited: true }),
            ..self
        }
    }
}

/// Where tile `(row, col)` is kept: tiles are stored row by row.
pub open spec fn tile_index(row: int, col: int, width: int) -> int {
    row * width + col
}

/// Row-major indices follow the order of the coordinates.
proof fn lemma_tile_index_order(r1: int, c1: int, r2: int, c2: int, width: int)
    requires
        0 <= c1 < width,
        0 <= c2 < width,
        0 <= r1,
        r1 < r2 || (r1 == r2 && c1 < c2),
    ensures
        0 <= tile_index(r1, c1, width) < tile_index(r2, c2, width),
{
    assert(r1 * width >= 0) by (nonlinear_arith)
        requires
            r1 >= 0,
            width > 0,
    ;
    if r1 < r2 {
        assert((r1 + 1) * width <= r2 * width) by (nonlinear_arith)
            requires
                r1 + 1 <= r2,
                width > 0,
        ;
        assert((r1 + 1) * width == r1 * width + width) by (nonlinear_arith);
    }
}

/// Every tile of the grid has its own index below `width * height`.
proof fn lemma_tile_index_bound(row: int, col: int, width: int, height: int)
    requires
        0 <= row < height,
        0 <= col < width,
    ensures
        0 <= tile_index(row, col, width) < width * height,
{
    assert(row * width >= 0) by (nonlinear_arith)
        requires
            row >= 0,
            width > 0,
    ;
    assert((row + 1) * width <= height * width) by (nonlinear_arith)
        requires
            row + 1 <= height,
            width > 0,
    ;
    assert((row + 1) * width == row * width + width) by (nonlinear_arith);
    assert(height * width == width * height) by (nonlinear_arith);
}

/// Two tiles with the same index are the same tile.
proof fn lemma_tile_index_injective(r1: int, c1: int, r2: int, c2: int, width: int)
    requires
        0 <= c1 < width,
        0 <= c2 < width,
        0 <= r1,
        0 <= r2,
        tile_index(r1, c1, width) == tile_index(r2, c2, width),
    ensures
        r1 == r2 && c1 == c2,
{
    if r1 < r2 || (r1 == r2 && c1 < c2) {
        lemma_tile_index_order(r1, c1, r2, c2, width);
    } else if r2 < r1 || (r2 == r1 && c2 < c1) {
        lemma_tile_index_order(r2, c2, r1, c1, width);
    }
}

/// The record a tile starts with.
pub open spec fn initial_tile(
    row: int,
    col: int,
    width: int,
    height: int,
    fill: Color,
    breach: Color,
) -> Position {
    Position {
        row: row as u16,
        col: col as u16,
        tile_color: initial_color((row, col), width, height, fill, breach),
        visited: false,
    }
}

/// A grid of tiles, stored row by row.
#[derive(Debug)]
pub struct Grid {
    positions: Vec<Position>,
    width: u16,
    height: u16,
    wall_color: Color,
    passage_color: Color,
}

impl View for Grid {
    type V = GridView;

    closed spec fn view(&self) -> GridView {
        GridView {
            width: self.width as int,
            height: self.height as int,
            wall_color: self.wall_color,
            passage_color: self.passage_color,
            tiles: Map::new(
                |p: Point| in_bounds(p, self.width as int, self.height as int),
                |p: Point|
                    Tile {
                        color: self.positions@[tile_index(p.0, p.1, self.width as int)].tile_color,
                        visited: self.positions@[tile_index(p.0, p.1, self.width as int)].visited,
                    },
            ),
        }
    }
}

impl Grid {
    /// There is one record for each coordinate, kept at its row-major index
    /// and holding its own coordinate.
    pub closed spec fn well_laid(&self) -> bool {
        &&& self.positions@.len() == self.width * self.height
        &&& forall|r: int, c: int|
            0 <= r < self.height && 0 <= c < self.width ==> {
                let cell = self.positions@[#[trigger] tile_index(r, c, self.width as int)];
                cell.row == r && cell.col == c
            }
    }

    /// The grid is well formed: its records are in place and its model is
    /// well formed.
    pub open spec fn wf(&self) -> bool {
        self.well_laid() && self@.wf()
    }

    /// The records of a grid before carving, row by row: none visited, the
    /// three breaches in `breach_color`, every other tile in `fill_color`.
    pub fn generate_initial(
        width: u16,
        height: u16,
        fill_color: Color,
        breach_color: Color,
    ) -> (cells: Vec<Position>)
        ensures
            cells@.len() == width * height,
            forall|r: int, c: int|
                0 <= r < height && 0 <= c < width ==> cells@[#[trigger] tile_index(
                    r,
                    c,
                    width as int,
                )] == initial_tile(r, c, width as int, height as int, fill_color, breach_color),
    {
        let mut cells: Vec<Position> = Vec::new();
        let mut row: u16 = 0;
        while row < height
            invariant
                row <= height,
                cells@.len() == row * width,
                forall|r: int, c: int|
                    0 <= r < row && 0 <= c < width ==> cells@[#[trigger] tile_index(
                        r,
                        c,
                        width as int,
                    )] == initial_tile(r, c, width as int, height as int, fill_color, breach_color),
            decreases height - row,
        {
            let mut col: u16 = 0;
            while col < width
                invariant
                    row < height,
                    col <= width,
                    cells@.len() == row * width + col,
                    forall|r: int, c: int|
                        0 <= c < width && (0 <= r < row || (r == row && c < col))
                            ==> cells@[#[trigger] tile_index(r, c, width as int)] == initial_tile(
                            r,
                            c,
                            width as int,
                            height as int,
                            fill_color,
                            breach_color,
                        ),
                decreases width - col,
            {
                let mut tile = Position::init(row, col);
                let breach = (row == 0 && col == 1) || (row == 1 && col == 1) || (row == height - 1
                    && width >= 2 && col == width - 2);
                if breach {
                    tile.set_color(breach_color);
                } else {
                    tile.set_color(fill_color);
                }
                cells.push(tile);
                proof {
                    // The tiles laid before keep their places below the new one.
                    assert forall|r: int, c: int|
                        0 <= c < width && (0 <= r < row || (r == row && c < col + 1))
                            implies cells@[#[trigger] tile_index(r, c, width as int)]
                        == initial_tile(
                        r,
                        c,
                        width as int,
                        height as int,
                        fill_color,
                        breach_color,
                    ) by {
                        if r != row || c != col {
                            lemma_tile_index_order(r, c, row as int, col as int, width as int);
                        }
                    }
                }
                col = col + 1;
            }
            proof {
                assert(row * width + width == (row + 1) * width) by (nonlinear_arith);
            }
            row = row + 1;
        }
        cells
    }

    /// A grid before carving, with the breaches in the passage colour.
    ///
    /// Refused when the width or the height is even or below three.
    pub fn init(width: u16, height: u16, wall_color: Color, passage_color: Color) -> (made: Result<
        Grid,
        ConfigurationError,
    >)
        ensures
            match made {
                Ok(grid) => size_error(width, height) is None && grid.wf() && grid@ == initial_view(
                    width as int,
                    height as int,
                    wall_color,
                    passage_color,
                    passage_color,
                ),
                Err(e) => size_error(width, height) == Some(e),
            },
    {
        Grid::init_with_breach(width, height, wall_color, passage_color, passage_color)
    }

    /// A grid before carving, with the breaches in a colour of their own.
    ///
    /// Refused when the width or the height is even or below three; the size
    /// is looked at before anything is allocated.
    pub fn init_with_breach(
        width: u16,
        height: u16,
        wall_color: Color,
        passage_color: Color,
        breach_color: Color,
    ) -> (made: Result<Grid, ConfigurationError>)
        ensures
            match made {
                Ok(grid) => size_error(width, height) is None && grid.wf() && grid@ == initial_view(
                    width as int,
                    height as int,
                    wall_color,
                    passage_color,
                    breach_color,
                ),
                Err(e) => size_error(width, height) == Some(e),
            },
    {
        if width < 3 || width % 2 == 0 {
            return Err(ConfigurationError::Width(width));
        }
        if height < 3 || height % 2 == 0 {
            return Err(ConfigurationError::Height(height));
        }
        let positions = Grid::generate_initial(width, height, wall_color, breach_color);
        let grid = Grid { positions, width, height, wall_color, passage_color };
        proof {
            let model = initial_view(
                width as int,
                height as int,
                wall_color,
                passage_color,
                breach_color,
            );
            assert(grid@.tiles =~= model.tiles);
        }
        Ok(grid)
    }

    /// The number of columns.
    pub fn width(&self) -> (width: u16)
        ensures
            width == self@.width,
    {
        self.width
    }

    /// The number of rows.
    pub fn height(&self) -> (height: u16)
        ensures
            height == self@.height,
    {
        self.height
    }

    /// The colour of closed walls.
    pub fn wall_color(&self) -> (color: Color)
        ensures
            color == self@.wall_color,
    {
        self.wall_color
    }

    /// The colour of rooms and opened walls.
    pub fn passage_color(&self) -> (color: Color)
        ensures
            color == self@.passage_color,
    {
        self.passage_color
    }

    /// Where the record of tile `(row, col)` is kept.
    fn offset(&self, row: u16, col: u16) -> (i: usize)
        requires
            self.well_laid(),
            in_bounds((row as int, col as int), self.width as int, self.height as int),
        ensures
            i == tile_index(row as int, col as int, self.width as int),
            i < self.positions@.len(),
            self.positions@[i as int].row == row,
            self.positions@[i as int].col == col,
    {
        proof {
            lemma_tile_index_bound(row as int, col as int, self.width as int, self.height as int);
            assert(self.width * self.height <= 0xffff * 0xffff) by (nonlinear_arith)
                requires
                    0 <= self.width <= 0xffff,
                    0 <= self.height <= 0xffff,
            ;
            assert(row * self.width >= 0) by (nonlinear_arith)
                requires
                    row >= 0,
                    self.width >= 0,
            ;
        }
        (row as usize) * (self.width as usize) + (col as usize)
    }

    /// The record of tile `(row, col)`.
    pub fn position(&self, row: u16, col: u16) -> (cell: Position)
        requires
            self.wf(),
            in_bounds((row as int, col as int), self@.width, self@.height),
        ensures
            cell == (Position {
                row,
                col,
                tile_color: self@.tiles[(row as int, col as int)].color,
                visited: self@.tiles[(row as int, col as int)].visited,
            }),
    {
        let i = self.offset(row, col);
        self.positions[i]
    }

    /// The colour of tile `(row, col)` and whether it is visited.
    pub fn get(&self, row: u16, col: u16) -> (state: (Color, bool))
        requires
            self.wf(),
            in_bounds((row as int, col as int), self@.width, self@.height),
        ensures
            state.0 == self@.tiles[(row as int, col as int)].color,
            state.1 == self@.tiles[(row as int, col as int)].visited,
    {
        let i = self.offset(row, col);
        (self.positions[i].tile_color, self.positions[i].is_visited())
    }

    /// Gives tile `(row, col)` a colour and leaves everything else as it is.
    pub fn set_color(&mut self, row: u16, col: u16, color: Color)
        requires
            old(self).wf(),
            in_bounds((row as int, col as int), old(self)@.width, old(self)@.height),
        ensures
            final(self).wf(),
            final(self)@ == old(self)@.paint((row as int, col as int), color),
    {
        let i = self.offset(row, col);
        let mut cell = self.positions[i];
        cell.set_color(color);
        self.positions.set(i, cell);
        proof {
            self.lemma_replaced(*old(self), row as int, col as int);
            assert(self@.tiles =~= old(self)@.paint((row as int, col as int), color).tiles);
        }
    }

    /// Marks room `(row, col)` as visited and leaves everything else as it is.
    pub fn mark_visited(&mut self, row: u16, col: u16)
        requires
            old(self).wf(),
            in_bounds((row as int, col as int), old(self)@.width, old(self)@.height),
            is_room((row as int, col as int)),
        ensures
            final(self).wf(),
            final(self)@ == old(self)@.visit((row as int, col as int)),
    {
        let i = self.offset(row, col);
        let mut cell = self.positions[i];
        cell.visited = true;
        self.positions.set(i, cell);
        proof {
            self.lemma_replaced(*old(self), row as int, col as int);
            assert(self@.tiles =~= old(self)@.visit((row as int, col as int)).tiles);
        }
    }

    /// After the record of one tile was replaced by one with the same
    /// coordinate, every other tile is as before and the records are in place.
    proof fn lemma_replaced(&self, before: Grid, row: int, col: int)
        requires
            before.well_laid(),
            in_bounds((row, col), before.width as int, before.height as int),
            self.width == before.width,
            self.height == before.height,
            self.wall_color == before.wall_color,
            self.passage_color == before.passage_color,
            self.positions@.len() == before.positions@.len(),
            self.positions@[tile_index(row, col, before.width as int)].row == row,
            self.positions@[tile_index(row, col, before.width as int)].col == col,
            forall|i: int|
                0 <= i < before.positions@.len() && i != tile_index(row, col, before.width as int)
                    ==> self.positions@[i] == before.positions@[i],
        ensures
            self.well_laid(),
            forall|p: Point|
                in_bounds(p, before.width as int, before.height as int) && p != (row, col)
                    ==> #[trigger] self@.tiles[p] == before@.tiles[p],
            self@.tiles.dom() == before@.tiles.dom(),
    {
        let width = before.width as int;
        assert forall|r: int, c: int| 0 <= r < self.height && 0 <= c < self.width implies {
            let cell = self.positions@[#[trigger] tile_index(r, c, width)];
            cell.row == r && cell.col == c
        } by {
            lemma_tile_index_bound(r, c, width, before.height as int);
            if tile_index(r, c, width) == tile_index(row, col, width) {
                lemma_tile_index_injective(r, c, row, col, width);
            }
        }
        assert forall|p: Point|
            in_bounds(p, width, before.height as int) && p != (row, col)
                implies #[trigger] self@.tiles[p] == before@.tiles[p] by {
            lemma_tile_index_bound(p.0, p.1, width, before.height as int);
            if tile_index(p.0, p.1, width) == tile_index(row, col, width) {
                lemma_tile_index_injective(p.0, p.1, row, col, width);
            }
        }
    }
}

} // verus!
