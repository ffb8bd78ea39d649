//! Rendering: the colours of a grid as a raster image, one pixel per tile.

use crate::geometry::in_bounds;
use crate::grid::{tile_index, Grid, GridView};
use image::{Rgb, RgbImage};
use vstd::arithmetic::div_mod::{
    lemma_div_pos_is_pos, lemma_fundamental_div_mod, lemma_mod_pos_bound,
};
use vstd::prelude::*;

verus! {

/// A raster image of RGB pixels, kept in an `image::RgbImage`. The image is
/// opaque to proofs: all that is known of it is what `blank_canvas`,
/// `put_pixel` and `canvas_into_raw` say of its rows.
#[verifier::external_body]
pub struct Canvas {
    img: RgbImage,
}

/// The pixels of a canvas, row by row from the top: entry `x` of row `y` is
/// the pixel that the image holds at `(x, y)`, as red, green and blue.
pub uninterp spec fn canvas_rows(canvas: Canvas) -> Seq<Seq<(u8, u8, u8)>>;

/// The width of an image given by its rows: the length of the first row.
pub open spec fn row_width(rows: Seq<Seq<(u8, u8, u8)>>) -> int {
    if rows.len() > 0 {
        rows[0].len() as int
    } else {
        0
    }
}

/// Every row is as long as the first.
pub open spec fn rectangular(rows: Seq<Seq<(u8, u8, u8)>>) -> bool {
    forall|y: int| 0 <= y < rows.len() ==> (#[trigger] rows[y]).len() == row_width(rows)
}

/// `raw` holds the pixels of `rows` row by row, three bytes per pixel: red,
/// green, blue.
pub open spec fn is_raw_of(raw: Seq<u8>, rows: Seq<Seq<(u8, u8, u8)>>) -> bool {
    &&& raw.len() == 3 * row_width(rows) * rows.len()
    &&& forall|y: int, x: int|
        0 <= y < rows.len() && 0 <= x < row_width(rows) ==> {
            let at = 3 * (#[trigger] tile_index(y, x, row_width(rows)));
            &&& raw[at] == rows[y][x].0
            &&& raw[at + 1] == rows[y][x].1
            &&& raw[at + 2] == rows[y][x].2
        }
}

/// The bytes of the image of a grid: row by row, three bytes per tile, red,
/// green, blue. Byte `i` belongs to tile number `i / 3`, counting row by row.
pub open spec fn image_bytes(g: GridView) -> Seq<u8> {
    Seq::new(
        (3 * g.width * g.height) as nat,
        |i: int| g.tiles[((i / 3) / g.width, (i / 3) % g.width)].color.channel(i % 3),
    )
}

/// Bytes that hold the pixels of the image of a grid are the bytes of that
/// image.
proof fn lemma_raw_is_image_bytes(raw: Seq<u8>, g: GridView)
    requires
        g.wf(),
        is_raw_of(raw, pixel_rows(g)),
    ensures
        raw == image_bytes(g),
{
    let rows = pixel_rows(g);
    assert(row_width(rows) == g.width);
    assert(3 * g.width * g.height >= 0) by (nonlinear_arith)
        requires
            g.width >= 0,
            g.height >= 0,
    ;
    assert forall|i: int| 0 <= i < raw.len() implies raw[i] == #[trigger] image_bytes(g)[i] by {
        let tile = i / 3;
        let y = tile / g.width;
        let x = tile % g.width;
        assert(tile < g.width * g.height) by (nonlinear_arith)
            requires
                i < 3 * g.width * g.height,
                tile == i / 3,
        ;
        lemma_fundamental_div_mod(tile, g.width);
        lemma_div_pos_is_pos(tile, g.width);
        lemma_mod_pos_bound(tile, g.width);
        assert(y < g.height) by (nonlinear_arith)
            requires
                tile == g.width * y + x,
                0 <= x,
                tile < g.width * g.height,
                g.width >= 1,
        ;
        assert(tile_index(y, x, g.width) == tile) by (nonlinear_arith)
            requires
                tile == g.width * y + x,
                tile_index(y, x, g.width) == y * g.width + x,
        ;
        assert(rows[y][x] == g.tiles[(y, x)].color.rgb());
    }
    assert(raw =~= image_bytes(g));
}

/// The image of a grid: the pixel in column `x` of row `y` has the colour of
/// the tile in row `y` and column `x`.
pub open spec fn pixel_rows(g: GridView) -> Seq<Seq<(u8, u8, u8)>> {
    Seq::new(
        g.height as nat,
        |row: int| Seq::new(g.width as nat, |col: int| g.tiles[(row, col)].color.rgb()),
    )
}

/// Calls `ImageBuffer::new` of `image`, which makes an image of the given
/// size with every channel of every pixel zero. The call works out the length
/// of its buffer as three times the width, and that times the height, and
/// panics where either product does not fit a `usize`: such sizes are left
/// out.
#[verifier::external_body]
pub(crate) fn blank_canvas(width: u32, height: u32) -> (canvas: Canvas)
    requires
        3 * width <= usize::MAX,
        3 * width * height <= usize::MAX,
    ensures
        canvas_rows(canvas) == Seq::new(
            height as nat,
            |y: int| Seq::new(width as nat, |x: int| (0u8, 0u8, 0u8)),
        ),
{
    Canvas { img: RgbImage::new(width, height) }
}

/// Calls `ImageBuffer::put_pixel` of `image`, which replaces pixel `(x, y)`
/// and no other. A pixel off the image, on which the call panics, is left
/// out.
#[verifier::external_body]
pub(crate) fn put_pixel(canvas: &mut Canvas, x: u32, y: u32, rgb: (u8, u8, u8))
    requires
        y < canvas_rows(*old(canvas)).len(),
        x < canvas_rows(*old(canvas))[y as int].len(),
    ensures
        canvas_rows(*final(canvas)) == canvas_rows(*old(canvas)).update(
            y as int,
            canvas_rows(*old(canvas))[y as int].update(x as int, rgb),
        ),
{
    canvas.img.put_pixel(x, y, Rgb([rgb.0, rgb.1, rgb.2]))
}

/// Calls `ImageBuffer::into_raw` of `image`, which hands out the buffer of
/// the image: its pixels row by row, three bytes each. The claim is made of
/// images whose rows are all of one length, which is every image.
#[verifier::external_body]
pub(crate) fn canvas_into_raw(canvas: Canvas) -> (raw: Vec<u8>)
    requires
        rectangular(canvas_rows(canvas)),
    ensures
        is_raw_of(raw@, canvas_rows(canvas)),
{
    canvas.img.into_raw()
}

impl Grid {
    /// Draws the grid: the pixel in column `x` of row `y` gets the colour of
    /// the tile in row `y` and column `x`.
    pub fn render(&self) -> (canvas: Canvas)
        requires
            self.wf(),
            3 * self@.width * self@.height <= usize::MAX,
        ensures
            canvas_rows(canvas) == pixel_rows(self@),
    {
        let width = self.width();
        let height = self.height();
        let mut canvas = blank_canvas(width as u32, height as u32);
        let mut row: u16 = 0;
        while row < height
            invariant
                self.wf(),
                width == self@.width,
                height == self@.height,
                row <= height,
                canvas_rows(canvas).len() == height,
                row_width(canvas_rows(canvas)) == width,
                rectangular(canvas_rows(canvas)),
                forall|y: int, x: int|
                    0 <= y < row && 0 <= x < width ==> #[trigger] canvas_rows(canvas)[y][x]
                        == self@.tiles[(y, x)].color.rgb(),
            decreases height - row,
        {
            let mut col: u16 = 0;
            while col < width
                invariant
                    self.wf(),
                    width == self@.width,
                    height == self@.height,
                    row < height,
                    col <= width,
                    canvas_rows(canvas).len() == height,
                    row_width(canvas_rows(canvas)) == width,
                    rectangular(canvas_rows(canvas)),
                    forall|y: int, x: int|
                        0 <= y < row && 0 <= x < width ==> #[trigger] canvas_rows(canvas)[y][x]
                            == self@.tiles[(y, x)].color.rgb(),
                    forall|x: int|
                        0 <= x < col ==> #[trigger] canvas_rows(canvas)[row as int][x]
                            == self@.tiles[(row as int, x)].color.rgb(),
                decreases width - col,
            {
                let (color, _) = self.get(row, col);
                let ghost before = canvas_rows(canvas);
                put_pixel(&mut canvas, col as u32, row as u32, (color.r, color.g, color.b));
                proof {
                    // Only row `row` has changed, and in it only pixel `col`.
                    let after = canvas_rows(canvas);
                    assert forall|y: int| 0 <= y < after.len() implies (#[trigger] after[y]).len()
                        == width by {
                        assert(before[y].len() == width);
                    }
                }
                col = col + 1;
            }
            row = row + 1;
        }
        proof {
            let rows = canvas_rows(canvas);
            assert forall|y: int| 0 <= y < rows.len() implies #[trigger] rows[y] == pixel_rows(
                self@,
            )[y] by {
                assert(rows[y] =~= pixel_rows(self@)[y]);
            }
        }
        canvas
    }

    /// The image of the grid as bytes: row by row, three bytes per tile, red,
    /// green, blue.
    pub fn render_bytes(&self) -> (raw: Vec<u8>)
        requires
            self.wf(),
            3 * self@.width * self@.height <= usize::MAX,
        ensures
            raw@ == image_bytes(self@),
            raw@.len() == 3 * self@.width * self@.height,
            forall|row: int, col: int|
                in_bounds((row, col), self@.width, self@.height) ==> {
                    let at = 3 * (#[trigger] tile_index(row, col, self@.width));
                    &&& raw@[at] == self@.tiles[(row, col)].color.r
                    &&& raw@[at + 1] == self@.tiles[(row, col)].color.g
                    &&& raw@[at + 2] == self@.tiles[(row, col)].color.b
                },
    {
        let canvas = self.render();
        let raw = canvas_into_raw(canvas);
        proof {
            lemma_raw_is_image_bytes(raw@, self@);
        }
        raw
    }
}

} // verus!
