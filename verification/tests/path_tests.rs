use tower_defense::geometry::Point;
use tower_defense::grid::{cell_at, get_tile_type, tile_type_at, Cell, Level, TileType};
use tower_defense::path::{extract_path, find_start, next_step};

const TILE: i64 = 32_000_000_000;

fn water() -> Level {
    [[1u32; 20]; 20]
}

/// Start at (0,0), road on (1,0) to (3,0), end at (4,0).
fn straight() -> Level {
    let mut level = water();
    level[0][0] = 20;
    level[0][1] = 2;
    level[0][2] = 2;
    level[0][3] = 2;
    level[0][4] = 21;
    level
}

fn one_tile_apart(a: Point, b: Point) -> bool {
    (a.x == b.x && (a.y - b.y).abs() == TILE) || (a.y == b.y && (a.x - b.x).abs() == TILE)
}

#[test]
fn tile_ids_classify() {
    assert_eq!(get_tile_type(0), TileType::Grass);
    assert_eq!(get_tile_type(1), TileType::Water);
    for id in 2..=7 {
        assert_eq!(get_tile_type(id), TileType::Road);
    }
    for id in 8..=19 {
        assert_eq!(get_tile_type(id), TileType::Water);
    }
    assert_eq!(get_tile_type(20), TileType::Start);
    assert_eq!(get_tile_type(21), TileType::End);
    assert_eq!(get_tile_type(22), TileType::Water);
    assert_eq!(get_tile_type(u32::MAX), TileType::Water);
}

#[test]
fn tile_type_is_read_by_row_then_column() {
    let level = straight();
    assert_eq!(tile_type_at(&level, Cell { x: 4, y: 0 }), TileType::End);
    assert_eq!(tile_type_at(&level, Cell { x: 0, y: 4 }), TileType::Water);
}

#[test]
fn cell_centres_in_the_world() {
    assert_eq!(Cell { x: 0, y: 0 }.to_world(), Point { x: -304_000_000_000, y: 354_000_000_000 });
    assert_eq!(Cell { x: 4, y: 0 }.to_world(), Point { x: -176_000_000_000, y: 354_000_000_000 });
    assert_eq!(
        Cell { x: 19, y: 19 }.to_world(),
        Point { x: 304_000_000_000, y: -254_000_000_000 }
    );
    assert!(Cell { x: 19, y: 19 }.is_in_grid());
    assert!(!Cell { x: 20, y: 0 }.is_in_grid());
    assert!(!Cell { x: 0, y: 20 }.is_in_grid());
}

#[test]
fn cell_under_a_position() {
    assert_eq!(cell_at(Cell { x: 7, y: 12 }.to_world()), Some(Cell { x: 7, y: 12 }));
    // Anywhere nearer to this centre than to another.
    assert_eq!(
        cell_at(Point { x: -304_000_000_000 + 15_999_999_999, y: 354_000_000_000 }),
        Some(Cell { x: 0, y: 0 })
    );
    // Halfway between two centres goes to the one farther from column 0.
    assert_eq!(
        cell_at(Point { x: -304_000_000_000 + 16_000_000_000, y: 354_000_000_000 }),
        Some(Cell { x: 1, y: 0 })
    );
    // Half a tile left of column 0 is outside the grid.
    assert_eq!(cell_at(Point { x: -320_000_000_000, y: 354_000_000_000 }), None);
    assert_eq!(
        cell_at(Point { x: -319_999_999_999, y: 354_000_000_000 }),
        Some(Cell { x: 0, y: 0 })
    );
    // Right of the last column and below the last row.
    assert_eq!(cell_at(Point { x: 320_000_000_000, y: 354_000_000_000 }), None);
    assert_eq!(cell_at(Point { x: 0, y: -270_000_000_000 }), None);
    // The world's origin lies in column 10, row 11.
    assert_eq!(cell_at(Point { x: 0, y: 0 }), Some(Cell { x: 10, y: 11 }));
}

#[test]
fn start_is_the_last_start_tile() {
    let mut level = straight();
    assert_eq!(find_start(&level), Some(Cell { x: 0, y: 0 }));
    level[5][3] = 20;
    assert_eq!(find_start(&level), Some(Cell { x: 3, y: 5 }));
    level[5][9] = 20;
    assert_eq!(find_start(&level), Some(Cell { x: 9, y: 5 }));
    assert_eq!(find_start(&water()), None);
}

#[test]
fn straight_road_gives_a_waypoint_per_tile() {
    let path = extract_path(&straight());
    let expected: Vec<Point> = (0..5)
        .map(|x| Point { x: -304_000_000_000 + x * TILE, y: 354_000_000_000 })
        .collect();
    assert_eq!(path.points, expected);
}

#[test]
fn route_of_six_waypoints() {
    // Start, four road tiles, end.
    let mut level = water();
    level[0][0] = 20;
    for x in 1..5 {
        level[0][x] = 2;
    }
    level[0][5] = 21;
    let path = extract_path(&level);
    assert_eq!(path.points.len(), 6);
    assert_eq!(path.points[5], Cell { x: 5, y: 0 }.to_world());
}

#[test]
fn path_begins_at_start_and_moves_one_tile_at_a_time() {
    // A route with corners: right, down, left, down, right.
    let mut level = water();
    level[2][2] = 20;
    level[2][3] = 2;
    level[2][4] = 3;
    level[3][4] = 4;
    level[4][4] = 5;
    level[4][3] = 6;
    level[4][2] = 7;
    level[5][2] = 2;
    level[6][2] = 2;
    level[6][3] = 21;
    let path = extract_path(&level);
    let cells = [(2, 2), (3, 2), (4, 2), (4, 3), (4, 4), (3, 4), (2, 4), (2, 5), (2, 6), (3, 6)];
    assert_eq!(path.points.len(), cells.len());
    for (i, (x, y)) in cells.iter().enumerate() {
        assert_eq!(path.points[i], Cell { x: *x, y: *y }.to_world());
    }
    assert_eq!(path.points[0], Cell { x: 2, y: 2 }.to_world());
    for pair in path.points.windows(2) {
        assert!(one_tile_apart(pair[0], pair[1]));
    }
    for triple in path.points.windows(3) {
        assert_ne!(triple[0], triple[2]);
    }
}

#[test]
fn neighbours_are_tried_up_down_left_right() {
    let mut level = water();
    level[5][5] = 20;
    level[4][5] = 2;
    level[6][5] = 2;
    level[5][4] = 2;
    level[5][6] = 2;
    let start = Cell { x: 5, y: 5 };
    assert_eq!(next_step(&level, start, start), Some(Cell { x: 5, y: 4 }));
    level[4][5] = 1;
    assert_eq!(next_step(&level, start, start), Some(Cell { x: 5, y: 6 }));
    level[6][5] = 1;
    assert_eq!(next_step(&level, start, start), Some(Cell { x: 4, y: 5 }));
    level[5][4] = 1;
    assert_eq!(next_step(&level, start, start), Some(Cell { x: 6, y: 5 }));
    level[5][6] = 1;
    assert_eq!(next_step(&level, start, start), None);
}

#[test]
fn walk_does_not_step_back() {
    let mut level = water();
    level[5][5] = 2;
    level[4][5] = 2;
    level[6][5] = 2;
    // Coming from above, "up" is the way back and is passed over.
    let above = Cell { x: 5, y: 4 };
    assert_eq!(next_step(&level, Cell { x: 5, y: 5 }, above), Some(Cell { x: 5, y: 6 }));
    // At the lower end the only road is the way back: a dead end.
    assert_eq!(next_step(&level, Cell { x: 5, y: 6 }, Cell { x: 5, y: 5 }), None);
}

#[test]
fn walk_stays_inside_the_grid() {
    let mut level = water();
    level[0][0] = 20;
    let corner = Cell { x: 0, y: 0 };
    assert_eq!(next_step(&level, corner, corner), None);
    level[19][19] = 2;
    level[19][18] = 2;
    let far = Cell { x: 19, y: 19 };
    assert_eq!(next_step(&level, far, far), Some(Cell { x: 18, y: 19 }));
}

#[test]
fn dead_end_keeps_what_was_walked() {
    let mut level = water();
    level[0][0] = 20;
    level[0][1] = 2;
    level[0][2] = 2;
    let path = extract_path(&level);
    assert_eq!(path.points.len(), 3);
    assert_eq!(path.points[2], Cell { x: 2, y: 0 }.to_world());
}

#[test]
fn start_without_a_road_is_a_single_point() {
    let mut level = water();
    level[7][7] = 20;
    let path = extract_path(&level);
    assert_eq!(path.points, vec![Cell { x: 7, y: 7 }.to_world()]);
}

#[test]
fn walk_ends_on_the_end_tile() {
    // Road goes on behind the end tile; the walk does not.
    let mut level = straight();
    level[0][5] = 2;
    level[0][6] = 2;
    let path = extract_path(&level);
    assert_eq!(path.points.len(), 5);
    assert_eq!(*path.points.last().unwrap(), Cell { x: 4, y: 0 }.to_world());
}

#[test]
fn walk_takes_at_most_a_hundred_steps() {
    // A ring of road without an end, entered from a start beside it: the
    // walk circles until it is stopped.
    let mut level = water();
    for x in 2..=6 {
        level[2][x] = 2;
        level[6][x] = 2;
    }
    for y in 2..=6 {
        level[y][2] = 2;
        level[y][6] = 2;
    }
    level[2][1] = 20;
    let path = extract_path(&level);
    assert_eq!(path.points.len(), 101);
    for pair in path.points.windows(2) {
        assert!(one_tile_apart(pair[0], pair[1]));
    }
    for triple in path.points.windows(3) {
        assert_ne!(triple[0], triple[2]);
    }
}

#[test]
fn level_without_start_begins_at_the_origin() {
    let mut level = water();
    // Road right of the cell under the origin, which is (10, 11).
    level[11][11] = 2;
    level[11][12] = 21;
    let path = extract_path(&level);
    assert_eq!(
        path.points,
        vec![
            Point { x: 0, y: 0 },
            Cell { x: 11, y: 11 }.to_world(),
            Cell { x: 12, y: 11 }.to_world(),
        ]
    );
    assert_eq!(extract_path(&water()).points, vec![Point { x: 0, y: 0 }]);
}
