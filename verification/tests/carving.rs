use mazegen::{choose_neighbor, generate, Color, ConfigurationError, Grid};
use rand::rngs::StdRng;
use rand::SeedableRng;

fn wall() -> Color {
    Color::new(255, 255, 255)
}

fn passage() -> Color {
    Color::new(0, 0, 0)
}

fn is_room(row: u16, col: u16) -> bool {
    row % 2 == 1 && col % 2 == 1
}

/// The tiles with the passage colour, row by row.
fn passages(grid: &Grid) -> Vec<(u16, u16)> {
    let mut out = Vec::new();
    for row in 0..grid.height() {
        for col in 0..grid.width() {
            if grid.get(row, col).0 == grid.passage_color() {
                out.push((row, col));
            }
        }
    }
    out
}

fn visited_rooms(grid: &Grid) -> usize {
    let mut n = 0;
    for row in 0..grid.height() {
        for col in 0..grid.width() {
            if grid.get(row, col).1 {
                assert!(is_room(row, col), "only rooms are visited");
                n += 1;
            }
        }
    }
    n
}

fn opened_inner_walls(grid: &Grid) -> usize {
    let mut n = 0;
    for row in 1..grid.height() - 1 {
        for col in 1..grid.width() - 1 {
            if !is_room(row, col) && grid.get(row, col).0 == grid.passage_color() {
                n += 1;
            }
        }
    }
    n
}

/// Every room can be reached from room (1, 1) through opened walls.
fn reachable_rooms(grid: &Grid) -> usize {
    let (w, h) = (grid.width() as i32, grid.height() as i32);
    let mut seen = vec![false; (w * h) as usize];
    let mut todo = vec![(1i32, 1i32)];
    seen[(w + 1) as usize] = true;
    let mut n = 0;
    while let Some((r, c)) = todo.pop() {
        n += 1;
        for (dr, dc) in [(-1, 0), (0, 1), (1, 0), (0, -1)] {
            let (wr, wc) = (r + dr, c + dc);
            let (nr, nc) = (r + 2 * dr, c + 2 * dc);
            if nr < 0 || nc < 0 || nr >= h || nc >= w {
                continue;
            }
            if grid.get(wr as u16, wc as u16).0 != grid.passage_color() {
                continue;
            }
            if !seen[(nr * w + nc) as usize] {
                seen[(nr * w + nc) as usize] = true;
                todo.push((nr, nc));
            }
        }
    }
    n
}

#[test]
fn choose_neighbor_counts_round_the_candidates() {
    let among = vec![(1, 3), (3, 5), (5, 3)];
    assert_eq!(choose_neighbor(&among, 0), Some((1, 3)));
    assert_eq!(choose_neighbor(&among, 1), Some((3, 5)));
    assert_eq!(choose_neighbor(&among, 2), Some((5, 3)));
    assert_eq!(choose_neighbor(&among, 3), Some((1, 3)));
    assert_eq!(choose_neighbor(&among, 255), Some((1, 3)));
    assert_eq!(choose_neighbor(&vec![(7, 7)], 200), Some((7, 7)));
}

#[test]
fn choose_neighbor_of_nothing_is_nothing() {
    assert_eq!(choose_neighbor(&vec![], 0), None);
    assert_eq!(choose_neighbor(&vec![], 9), None);
}

#[test]
fn unvisited_neighbors_leaves_out_visited_rooms() {
    let mut grid = Grid::init(7, 7, wall(), passage()).unwrap();
    let centre = grid.position(3, 3);
    assert_eq!(centre.unvisited_neighbors(&grid), vec![(1, 3), (3, 5), (5, 3), (3, 1)]);
    grid.mark_visited(3, 5);
    assert_eq!(centre.unvisited_neighbors(&grid), vec![(1, 3), (5, 3), (3, 1)]);
    grid.mark_visited(1, 3);
    grid.mark_visited(3, 1);
    assert_eq!(centre.unvisited_neighbors(&grid), vec![(5, 3)]);
    grid.mark_visited(5, 3);
    assert_eq!(centre.unvisited_neighbors(&grid), vec![]);
}

#[test]
fn get_neighbor_pos_gives_nothing_without_candidates() {
    let grid = Grid::init(3, 3, wall(), passage()).unwrap();
    let mut rng = StdRng::seed_from_u64(1);
    assert_eq!(grid.position(1, 1).get_neighbor_pos(&grid, &mut rng), None);
}

#[test]
fn get_neighbor_pos_gives_the_only_candidate() {
    let mut grid = Grid::init(5, 5, wall(), passage()).unwrap();
    grid.mark_visited(1, 3);
    let mut rng = StdRng::seed_from_u64(1);
    for _ in 0..50 {
        assert_eq!(grid.position(1, 1).get_neighbor_pos(&grid, &mut rng), Some((3, 1)));
    }
}

fn frequencies(grid: &Grid, row: u16, col: u16, among: &[(u16, u16)], trials: usize) -> Vec<usize> {
    let mut rng = StdRng::seed_from_u64(20240229);
    let mut seen = vec![0usize; among.len()];
    let tile = grid.position(row, col);
    for _ in 0..trials {
        let chosen = tile.get_neighbor_pos(grid, &mut rng).unwrap();
        let k = among.iter().position(|&p| p == chosen).unwrap();
        seen[k] += 1;
    }
    seen
}

#[test]
fn get_neighbor_pos_is_even_over_two_candidates() {
    let grid = Grid::init(5, 5, wall(), passage()).unwrap();
    let seen = frequencies(&grid, 1, 1, &[(1, 3), (3, 1)], 20000);
    for n in seen {
        assert!((9500..=10500).contains(&n), "{n} of 20000");
    }
}

#[test]
fn get_neighbor_pos_is_even_over_three_candidates() {
    let mut grid = Grid::init(7, 7, wall(), passage()).unwrap();
    grid.mark_visited(3, 5);
    let seen = frequencies(&grid, 3, 3, &[(1, 3), (5, 3), (3, 1)], 30000);
    for n in seen {
        assert!((9500..=10500).contains(&n), "{n} of 30000");
    }
}

#[test]
fn get_neighbor_pos_is_even_over_four_candidates() {
    let grid = Grid::init(7, 7, wall(), passage()).unwrap();
    let seen = frequencies(&grid, 3, 3, &[(1, 3), (3, 5), (5, 3), (3, 1)], 40000);
    for n in seen {
        assert!((9500..=10500).contains(&n), "{n} of 40000");
    }
}

#[test]
fn carve_passage_opens_the_wall_between() {
    let mut grid = Grid::init(5, 5, wall(), passage()).unwrap();
    assert_eq!(grid.carve_passage((1, 1), (3, 1)), (2, 1));
    assert_eq!(grid.get(3, 1), (passage(), true));
    assert_eq!(grid.get(2, 1), (passage(), false));
    assert_eq!(grid.get(1, 1), (passage(), false));
    assert_eq!(passages(&grid), vec![(0, 1), (1, 1), (2, 1), (3, 1), (4, 3)]);
    assert_eq!(grid.carve_passage((3, 1), (3, 3)), (3, 2));
    assert_eq!(passages(&grid), vec![(0, 1), (1, 1), (2, 1), (3, 1), (3, 2), (3, 3), (4, 3)]);
}

#[test]
fn smallest_grid_has_one_room_and_opens_nothing() {
    let mut grid = Grid::init(3, 3, wall(), passage()).unwrap();
    let out = grid.carve_scripted(&vec![]);
    assert!(out.complete);
    assert_eq!(out.opened, vec![]);
    assert_eq!(visited_rooms(&grid), 1);
    assert_eq!(grid.get(1, 1), (passage(), true));
    assert_eq!(opened_inner_walls(&grid), 0);
    assert_eq!(passages(&grid), vec![(0, 1), (1, 1), (2, 1)]);
}

#[test]
fn smallest_grid_carved_at_random_opens_nothing() {
    let mut grid = Grid::init(3, 3, wall(), passage()).unwrap();
    let mut rng = StdRng::seed_from_u64(3);
    grid.carve(&mut rng);
    assert_eq!(visited_rooms(&grid), 1);
    assert_eq!(passages(&grid), vec![(0, 1), (1, 1), (2, 1)]);
}

#[test]
fn five_by_five_with_scripted_draws() {
    let mut grid = Grid::init(5, 5, wall(), passage()).unwrap();
    let out = grid.carve_scripted(&vec![0, 2, 1]);
    assert!(out.complete);
    assert_eq!(out.opened, vec![(1, 2), (2, 3), (3, 2)]);
    let p = passage();
    let w = wall();
    let expected = [
        [w, p, w, w, w],
        [w, p, p, p, w],
        [w, w, w, p, w],
        [w, p, p, p, w],
        [w, w, w, p, w],
    ];
    for row in 0..5u16 {
        for col in 0..5u16 {
            assert_eq!(
                grid.get(row, col),
                (expected[row as usize][col as usize], is_room(row, col)),
                "tile ({row}, {col})"
            );
        }
    }
}

#[test]
fn five_by_five_with_other_draws() {
    let mut grid = Grid::init(5, 5, wall(), passage()).unwrap();
    let out = grid.carve_scripted(&vec![1, 0, 0, 9, 9]);
    assert!(out.complete);
    assert_eq!(out.opened, vec![(2, 1), (3, 2), (2, 3)]);
    assert_eq!(
        passages(&grid),
        vec![(0, 1), (1, 1), (1, 3), (2, 1), (2, 3), (3, 1), (3, 2), (3, 3), (4, 3)]
    );
}

#[test]
fn scripted_carving_stops_when_the_draws_run_out() {
    let mut grid = Grid::init(5, 5, wall(), passage()).unwrap();
    let out = grid.carve_scripted(&vec![0]);
    assert!(!out.complete);
    assert_eq!(out.opened, vec![(1, 2)]);
    assert_eq!(visited_rooms(&grid), 2);
    assert_eq!(passages(&grid), vec![(0, 1), (1, 1), (1, 2), (1, 3), (4, 3)]);
}

#[test]
fn scripted_carving_without_draws_only_enters_the_start() {
    let mut grid = Grid::init(5, 5, wall(), passage()).unwrap();
    let out = grid.carve_scripted(&vec![]);
    assert!(!out.complete);
    assert_eq!(out.opened, vec![]);
    assert_eq!(visited_rooms(&grid), 1);
    assert!(grid.get(1, 1).1);
}

#[test]
fn scripted_carving_backtracks_to_rooms_left_behind() {
    // Seven columns, three rows: the rooms (1, 1), (1, 3), (1, 5) lie in a line.
    let mut grid = Grid::init(7, 3, wall(), passage()).unwrap();
    let out = grid.carve_scripted(&vec![0, 0]);
    assert!(out.complete);
    assert_eq!(out.opened, vec![(1, 2), (1, 4)]);
    // Five columns, seven rows.
    let mut grid = Grid::init(5, 7, wall(), passage()).unwrap();
    // (1,1) -> (1,3) -> (3,3) -> (3,1) -> (5,1) -> (5,3), then all the way back.
    let out = grid.carve_scripted(&vec![0, 0, 1, 0, 0]);
    assert!(out.complete);
    assert_eq!(out.opened, vec![(1, 2), (2, 3), (3, 2), (4, 1), (5, 2)]);
    assert_eq!(visited_rooms(&grid), 6);
}

#[test]
fn scripted_carving_is_the_same_on_every_run() {
    let draws: Vec<u8> = (0..200u32).map(|i| (i * 7 + 3) as u8).collect();
    let mut first = Grid::init(11, 9, wall(), passage()).unwrap();
    let mut second = Grid::init(11, 9, wall(), passage()).unwrap();
    let a = first.carve_scripted(&draws);
    let b = second.carve_scripted(&draws);
    assert!(a.complete && b.complete);
    assert_eq!(a.opened, b.opened);
    assert_eq!(first.render_bytes(), second.render_bytes());
}

#[test]
fn carving_visits_every_room() {
    for (w, h, seed) in [(3u16, 3u16, 1u64), (5, 5, 2), (21, 13, 3), (9, 31, 4), (51, 51, 5)] {
        let mut grid = Grid::init(w, h, wall(), passage()).unwrap();
        let mut rng = StdRng::seed_from_u64(seed);
        grid.carve(&mut rng);
        for row in 0..h {
            for col in 0..w {
                assert_eq!(grid.get(row, col).1, is_room(row, col), "tile ({row}, {col})");
                if is_room(row, col) {
                    assert_eq!(grid.get(row, col).0, passage());
                }
            }
        }
    }
}

#[test]
fn carving_opens_one_wall_fewer_than_rooms() {
    for (w, h, seed) in [(3u16, 3u16, 1u64), (5, 5, 2), (21, 13, 3), (9, 31, 4), (51, 51, 5)] {
        let mut grid = Grid::init(w, h, wall(), passage()).unwrap();
        let mut rng = StdRng::seed_from_u64(seed);
        grid.carve(&mut rng);
        let rooms = ((w as usize - 1) / 2) * ((h as usize - 1) / 2);
        assert_eq!(visited_rooms(&grid), rooms);
        assert_eq!(opened_inner_walls(&grid), rooms - 1);
        assert_eq!(reachable_rooms(&grid), rooms);
        assert_eq!(passages(&grid).len(), rooms + (rooms - 1) + 2);
    }
}

#[test]
fn scripted_carving_opens_one_wall_fewer_than_rooms_at_every_moment() {
    let draws: Vec<u8> = (0..40u32).map(|i| (i * 5 + 1) as u8).collect();
    for used in 0..draws.len() {
        let mut grid = Grid::init(9, 9, wall(), passage()).unwrap();
        let out = grid.carve_scripted(&draws[..used].to_vec());
        assert_eq!(opened_inner_walls(&grid) + 1, visited_rooms(&grid));
        assert_eq!(out.opened.len(), opened_inner_walls(&grid));
        assert_eq!(out.complete, visited_rooms(&grid) == 16);
    }
}

#[test]
fn carving_with_equal_colours_visits_every_room() {
    let mut grid = Grid::init(7, 7, passage(), passage()).unwrap();
    let mut rng = StdRng::seed_from_u64(11);
    grid.carve(&mut rng);
    assert_eq!(visited_rooms(&grid), 9);
    // Every inner wall has the passage colour, so the count says nothing here.
    assert_eq!(opened_inner_walls(&grid), 16);
}

#[test]
fn carving_keeps_what_was_visited_and_only_paints_passages() {
    let mut grid = Grid::init(9, 9, wall(), passage()).unwrap();
    let red = Color::new(250, 0, 0);
    grid.set_color(4, 4, red);
    grid.mark_visited(5, 5);
    let mut rng = StdRng::seed_from_u64(8);
    grid.carve(&mut rng);
    assert_eq!(grid.get(4, 4), (red, false));
    assert!(grid.get(5, 5).1);
    assert_eq!(grid.get(5, 5).0, wall());
    for row in 0..9u16 {
        for col in 0..9u16 {
            let (color, _) = grid.get(row, col);
            assert!(color == wall() || color == passage() || (row, col) == (4, 4));
        }
    }
}

#[test]
fn carving_again_changes_nothing() {
    let mut grid = Grid::init(13, 11, wall(), passage()).unwrap();
    let mut rng = StdRng::seed_from_u64(21);
    grid.carve(&mut rng);
    let before = grid.render_bytes();
    grid.carve(&mut rng);
    assert_eq!(grid.render_bytes(), before);
    let out = grid.carve_scripted(&vec![1, 2, 3]);
    assert!(out.complete);
    assert_eq!(out.opened, vec![]);
    assert_eq!(grid.render_bytes(), before);
}

#[test]
fn same_seed_gives_the_same_maze() {
    let a = generate(31, 21, wall(), passage(), 42).unwrap();
    let b = generate(31, 21, wall(), passage(), 42).unwrap();
    assert_eq!(a.render_bytes(), b.render_bytes());
}

#[test]
fn other_seeds_give_other_mazes() {
    let a = generate(31, 21, wall(), passage(), 42).unwrap();
    let b = generate(31, 21, wall(), passage(), 43).unwrap();
    assert_ne!(a.render_bytes(), b.render_bytes());
}

#[test]
fn generate_makes_a_perfect_maze() {
    let grid = generate(41, 27, wall(), passage(), 7).unwrap();
    assert_eq!((grid.width(), grid.height()), (41, 27));
    let rooms = 20 * 13;
    assert_eq!(visited_rooms(&grid), rooms);
    assert_eq!(opened_inner_walls(&grid), rooms - 1);
    assert_eq!(reachable_rooms(&grid), rooms);
    assert_eq!(grid.get(0, 1).0, passage());
    assert_eq!(grid.get(26, 39).0, passage());
}

#[test]
fn generate_refuses_bad_sizes() {
    assert_eq!(
        generate(10, 5, wall(), passage(), 1).err(),
        Some(ConfigurationError::Width(10))
    );
    assert_eq!(
        generate(5, 2, wall(), passage(), 1).err(),
        Some(ConfigurationError::Height(2))
    );
}
