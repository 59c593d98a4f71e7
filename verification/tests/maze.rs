use pacman_lite::grid_pos::GridPos;
use pacman_lite::maze::{MazeGrid, PelletKind, PelletMap, HEIGHT, MAZE_ASCII, WIDTH};
use std::collections::{HashSet, VecDeque};

#[test]
fn layout_rows_are_all_full_width() {
    for (row, line) in MAZE_ASCII.iter().enumerate() {
        assert_eq!(line.len(), WIDTH, "blueprint row {row} has wrong width");
    }
}

#[test]
fn parsing_places_walls_and_openings() {
    let grid = MazeGrid::default();
    // Corners are walls.
    assert!(grid.is_wall(GridPos::new(0, 0)));
    assert!(grid.is_wall(GridPos::new(WIDTH as i32 - 1, 0)));
    assert!(grid.is_wall(GridPos::new(0, HEIGHT as i32 - 1)));
    // Out-of-bounds cells count as walls but are not in bounds.
    assert!(!grid.in_bounds(GridPos::new(-1, 0)));
    assert!(grid.is_wall(GridPos::new(-1, 0)));
    assert!(!grid.in_bounds(GridPos::new(0, HEIGHT as i32)));
    // The door above the ghost house is open.
    assert!(!grid.is_wall(GridPos::new(10, 8)));
    // Spawn cells are open.
    assert!(!grid.is_wall(grid.pacman_spawn()));
    assert!(!grid.is_wall(grid.ghost_spawn()));
    // Sanity: 21x17 grid with 169 open cells (357 - 188 walls).
    let open = (0..HEIGHT)
        .flat_map(|y| (0..WIDTH).map(move |x| GridPos::new(x as i32, y as i32)))
        .filter(|pos| !grid.is_wall(*pos))
        .count();
    assert_eq!(open, 169);
}

#[test]
fn spawn_positions_match_ascii_layout() {
    let grid = MazeGrid::default();
    assert_eq!(grid.pacman_spawn(), GridPos::new(9, 1));
    assert_eq!(grid.ghost_spawn(), GridPos::new(10, 7));
}

#[test]
fn from_maze_counts_all_food() {
    let grid = MazeGrid::default();
    let pellets = PelletMap::from_maze(&grid);
    assert_eq!(pellets.remaining(), 162);
    assert_eq!(pellets.remaining_power(), 4);
}

#[test]
fn eat_consumes_pellets_and_reports_kind() {
    let grid = MazeGrid::default();
    let mut pellets = PelletMap::from_maze(&grid);
    // A plain dot next to the Pac-Man spawn.
    assert_eq!(pellets.eat(GridPos::new(1, 1)), Some(PelletKind::Pellet));
    assert_eq!(pellets.remaining(), 161);
    // Power pellets sit at the outer corners of rows 3 and 13.
    assert_eq!(pellets.eat(GridPos::new(1, 3)), Some(PelletKind::Power));
    assert_eq!(pellets.remaining_power(), 3);
    // Eating an already-empty cell reports nothing.
    assert_eq!(pellets.eat(GridPos::new(1, 1)), None);
    assert_eq!(pellets.eat(GridPos::new(10, 7)), None); // ghost house center
    assert_eq!(pellets.eat(GridPos::new(-5, -5)), None); // out of bounds
}

#[test]
fn clear_level_resets_all_food() {
    let grid = MazeGrid::default();
    let mut pellets = PelletMap::from_maze(&grid);
    pellets.clear_level();
    assert_eq!(pellets.remaining(), 0);
    assert_eq!(pellets.remaining_power(), 0);
    assert_eq!(pellets.eat(GridPos::new(1, 1)), None);
}

#[test]
fn every_open_cell_is_reachable_from_pacman_spawn() {
    let grid = MazeGrid::default();
    let pellets = PelletMap::from_maze(&grid);
    let start = grid.pacman_spawn();
    let mut reachable = HashSet::from([start]);
    let mut queue = VecDeque::from([start]);
    let deltas = [
        GridPos::new(1, 0),
        GridPos::new(-1, 0),
        GridPos::new(0, 1),
        GridPos::new(0, -1),
    ];
    while let Some(pos) = queue.pop_front() {
        for delta in deltas {
            let next = pos.plus(delta);
            if grid.in_bounds(next) && !grid.is_wall(next) && reachable.insert(next) {
                queue.push_back(next);
            }
        }
    }
    assert_eq!(reachable.len(), 169);
    for y in 0..HEIGHT {
        for x in 0..WIDTH {
            let pos = GridPos::new(x as i32, y as i32);
            if !grid.is_wall(pos) {
                assert!(reachable.contains(&pos), "unreachable cell {pos:?}");
            }
        }
    }
    assert_eq!(pellets.remaining(), 162);
}

#[test]
fn default_pellet_map_is_an_empty_board() {
    let mut pellets = PelletMap::default();
    assert_eq!(pellets.remaining(), 0);
    assert_eq!(pellets.remaining_power(), 0);
    assert!(!pellets.has_food(GridPos::new(1, 1)));
    assert_eq!(pellets.eat(GridPos::new(1, 1)), None);
}

#[test]
fn has_food_tracks_eating_and_total_initial_counts_the_board() {
    let grid = MazeGrid::default();
    let mut pellets = PelletMap::from_maze(&grid);
    assert!(pellets.has_food(GridPos::new(1, 1)));
    assert!(pellets.has_food(GridPos::new(19, 13)));
    assert!(!pellets.has_food(GridPos::new(0, 0)));
    assert!(!pellets.has_food(GridPos::new(9, 1)));
    assert!(!pellets.has_food(GridPos::new(30, 1)));
    assert_eq!(pellets.eat(GridPos::new(19, 13)), Some(PelletKind::Power));
    assert!(!pellets.has_food(GridPos::new(19, 13)));
    assert_eq!(PelletMap::total_initial(&grid), 162);
}
