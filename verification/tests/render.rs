use mazegen::{Color, Grid};

fn pixel(raw: &[u8], width: usize, x: usize, y: usize) -> (u8, u8, u8) {
    let at = 3 * (y * width + x);
    (raw[at], raw[at + 1], raw[at + 2])
}

#[test]
fn render_bytes_has_three_bytes_per_tile() {
    let grid = Grid::init(7, 3, Color::new(9, 9, 9), Color::new(1, 2, 3)).unwrap();
    assert_eq!(grid.render_bytes().len(), 3 * 7 * 3);
}

#[test]
fn render_bytes_puts_column_on_x_and_row_on_y() {
    let wall = Color::new(10, 20, 30);
    let passage = Color::new(200, 100, 50);
    let mut grid = Grid::init(7, 3, wall, passage).unwrap();
    let mark = Color::new(1, 2, 3);
    // Row 2, column 6: the last tile of the last row.
    grid.set_color(2, 6, mark);
    let other = Color::new(4, 5, 6);
    // Row 1, column 4.
    grid.set_color(1, 4, other);
    let raw = grid.render_bytes();
    for row in 0..3u16 {
        for col in 0..7u16 {
            let c = grid.get(row, col).0;
            assert_eq!(pixel(&raw, 7, col as usize, row as usize), (c.r, c.g, c.b));
        }
    }
    assert_eq!(pixel(&raw, 7, 6, 2), (1, 2, 3));
    assert_eq!(pixel(&raw, 7, 4, 1), (4, 5, 6));
    assert_eq!(pixel(&raw, 7, 1, 0), (200, 100, 50));
    assert_eq!(pixel(&raw, 7, 5, 2), (200, 100, 50));
    assert_eq!(pixel(&raw, 7, 0, 0), (10, 20, 30));
    assert_eq!(&raw[raw.len() - 3..], &[1, 2, 3]);
}

#[test]
fn render_bytes_of_a_fresh_grid() {
    let w = Color::white();
    let p = Color::black();
    let grid = Grid::init(3, 3, w, p).unwrap();
    let raw = grid.render_bytes();
    let expected: Vec<u8> = vec![
        255, 255, 255, 0, 0, 0, 255, 255, 255, //
        255, 255, 255, 0, 0, 0, 255, 255, 255, //
        255, 255, 255, 0, 0, 0, 255, 255, 255,
    ];
    assert_eq!(raw, expected);
}

#[test]
fn render_bytes_of_a_carved_grid() {
    let w = Color::white();
    let p = Color::new(0, 0, 255);
    let mut grid = Grid::init(5, 5, w, p).unwrap();
    grid.carve_scripted(&vec![0, 2, 1]);
    let raw = grid.render_bytes();
    let rows = ["#.###", "#...#", "###.#", "#...#", "###.#"];
    for (y, row) in rows.iter().enumerate() {
        for (x, tile) in row.chars().enumerate() {
            let expected = if tile == '.' { (0, 0, 255) } else { (255, 255, 255) };
            assert_eq!(pixel(&raw, 5, x, y), expected, "pixel ({x}, {y})");
        }
    }
}

#[test]
fn render_leaves_the_grid_as_it_is() {
    let mut grid = Grid::init(5, 5, Color::white(), Color::black()).unwrap();
    grid.carve_scripted(&vec![1, 1, 1]);
    let first = grid.render_bytes();
    let _canvas = grid.render();
    assert_eq!(grid.render_bytes(), first);
}

#[test]
fn render_bytes_shows_colours_and_not_what_is_visited() {
    let mut first = Grid::init(7, 5, Color::white(), Color::black()).unwrap();
    let mut second = Grid::init(7, 5, Color::white(), Color::black()).unwrap();
    first.set_color(2, 3, Color::new(7, 8, 9));
    second.set_color(2, 3, Color::new(7, 8, 9));
    second.mark_visited(1, 1);
    second.mark_visited(3, 5);
    assert_ne!(first.get(3, 5), second.get(3, 5));
    assert_eq!(first.render_bytes(), second.render_bytes());
    second.set_color(3, 5, Color::new(1, 1, 1));
    assert_ne!(first.render_bytes(), second.render_bytes());
}
