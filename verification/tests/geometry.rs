use mazegen::{wall_between, wall_pos, Position};

#[test]
fn find_neighbors_inside_lists_up_right_down_left() {
    let tile = Position::init(3, 3);
    assert_eq!(tile.find_neighbors(7, 7), vec![(1, 3), (3, 5), (5, 3), (3, 1)]);
}

#[test]
fn find_neighbors_drops_what_falls_off_the_grid() {
    assert_eq!(Position::init(1, 1).find_neighbors(5, 5), vec![(1, 3), (3, 1)]);
    assert_eq!(Position::init(3, 3).find_neighbors(5, 5), vec![(1, 3), (3, 1)]);
    assert_eq!(Position::init(1, 3).find_neighbors(5, 5), vec![(3, 3), (1, 1)]);
    assert_eq!(Position::init(1, 1).find_neighbors(3, 3), vec![]);
}

#[test]
fn find_neighbors_uses_width_for_columns_and_height_for_rows() {
    // Seven columns, three rows.
    assert_eq!(Position::init(1, 3).find_neighbors(7, 3), vec![(1, 5), (1, 1)]);
    // Three columns, seven rows.
    assert_eq!(Position::init(3, 1).find_neighbors(3, 7), vec![(1, 1), (5, 1)]);
}

#[test]
fn find_neighbors_includes_the_last_row_and_column() {
    assert_eq!(Position::init(2, 2).find_neighbors(5, 5), vec![(0, 2), (2, 4), (4, 2), (2, 0)]);
}

#[test]
fn find_neighbors_at_the_edge_of_the_coordinates() {
    assert_eq!(
        Position::init(65533, 65533).find_neighbors(65535, 65535),
        vec![(65531, 65533), (65533, 65531)]
    );
    assert_eq!(Position::init(65535, 65535).find_neighbors(65535, 65535), vec![]);
    assert_eq!(
        Position::init(65535, 3).find_neighbors(65535, 65535),
        vec![(65533, 3)]
    );
}

#[test]
fn find_walls_lists_the_tiles_next_to_a_tile() {
    assert_eq!(Position::init(1, 1).find_walls(5, 5), vec![(0, 1), (1, 2), (2, 1), (1, 0)]);
    assert_eq!(Position::init(0, 0).find_walls(5, 5), vec![(0, 1), (1, 0)]);
    assert_eq!(Position::init(4, 4).find_walls(5, 5), vec![(3, 4), (4, 3)]);
    assert_eq!(Position::init(2, 4).find_walls(5, 3), vec![(1, 4), (2, 3)]);
}

#[test]
fn wall_pos_gives_the_midpoint_of_neighbours() {
    assert_eq!(wall_pos((1, 1), (1, 3)), Some((1, 2)));
    assert_eq!(wall_pos((1, 3), (1, 1)), Some((1, 2)));
    assert_eq!(wall_pos((1, 1), (3, 1)), Some((2, 1)));
    assert_eq!(wall_pos((3, 1), (1, 1)), Some((2, 1)));
    assert_eq!(wall_pos((65533, 65535), (65535, 65535)), Some((65534, 65535)));
    assert_eq!(wall_pos((0, 0), (0, 2)), Some((0, 1)));
}

#[test]
fn wall_pos_gives_nothing_for_other_pairs() {
    assert_eq!(wall_pos((1, 1), (1, 1)), None);
    assert_eq!(wall_pos((1, 1), (1, 2)), None);
    assert_eq!(wall_pos((1, 1), (1, 5)), None);
    assert_eq!(wall_pos((1, 1), (3, 3)), None);
    assert_eq!(wall_pos((1, 1), (3, 7)), None);
    assert_eq!(wall_pos((1, 1), (5, 1)), None);
    assert_eq!(wall_pos((0, 0), (65535, 0)), None);
}

#[test]
fn wall_between_gives_the_midpoint() {
    assert_eq!(wall_between((3, 5), (3, 7)), (3, 6));
    assert_eq!(wall_between((3, 5), (3, 3)), (3, 4));
    assert_eq!(wall_between((3, 5), (5, 5)), (4, 5));
    assert_eq!(wall_between((3, 5), (1, 5)), (2, 5));
}
