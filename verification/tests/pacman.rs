use pacman_lite::events::Direction;
use pacman_lite::grid_pos::GridPos;
use pacman_lite::maze::{MazeGrid, PelletKind, PelletMap, HEIGHT, WIDTH};
use pacman_lite::pacman::{
    requested_direction, resolve_step, tried_steps_in_range, KeyHistory, Moved, Player,
};
use std::collections::HashSet;

fn grid() -> MazeGrid {
    MazeGrid::default()
}

#[test]
fn default_player_faces_left_at_origin() {
    let player = Player::default();
    assert_eq!(player.pos, GridPos::zero());
    assert_eq!(player.dir, Direction::Left);
    assert_eq!(player.queued, None);
}

#[test]
fn resolve_step_falls_back_to_heading_when_turn_blocked() {
    let g = grid();
    // From (1, 15): left is the border wall, right is an open corridor,
    // so the queued Left turn cannot fire and Right takes over.
    let mut queued = Some(Direction::Left);
    let step = resolve_step(GridPos::new(1, 15), Direction::Right, &mut queued, &g);
    assert_eq!(step, Some((GridPos::new(2, 15), Direction::Right)));
    assert_eq!(queued, Some(Direction::Left), "blocked turns stay queued");
}

#[test]
fn resolve_step_is_none_when_both_paths_are_walls() {
    let g = grid();
    // At (1, 1) both left (border) and down (border below) are walls.
    let mut queued = Some(Direction::Down);
    let step = resolve_step(GridPos::new(1, 1), Direction::Left, &mut queued, &g);
    assert_eq!(step, None);
    assert_eq!(queued, Some(Direction::Down), "nothing consumed when blocked");
}

#[test]
fn eating_a_dot_reports_pellet_then_exhausts_the_tile() {
    let mut pellets = PelletMap::from_maze(&grid());
    let before = pellets.remaining();
    assert_eq!(pellets.eat(GridPos::new(1, 15)), Some(PelletKind::Pellet));
    assert_eq!(pellets.remaining(), before - 1);
    assert_eq!(pellets.eat(GridPos::new(1, 15)), None, "tile must be exhausted");
}

#[test]
fn eating_a_power_pellet_is_distinguished_from_a_dot() {
    let mut pellets = PelletMap::from_maze(&grid());
    assert_eq!(pellets.eat(GridPos::new(1, 13)), Some(PelletKind::Power));
    assert_eq!(pellets.eat(GridPos::new(1, 13)), None);
    assert_eq!(pellets.remaining_power(), 3, "one of four power pellets gone");
}

#[test]
fn eating_spawn_and_wall_tiles_eats_nothing() {
    let g = grid();
    let mut pellets = PelletMap::from_maze(&g);
    assert_eq!(pellets.eat(g.pacman_spawn()), None, "spawn tiles hold no food");
    assert_eq!(pellets.eat(GridPos::new(0, 0)), None, "walls hold no food");
    assert_eq!(pellets.eat(GridPos::new(-1, -1)), None, "out-of-bounds holds no food");
}

#[test]
fn player_spawn_tile_is_an_open_cell_in_the_real_maze() {
    let g = grid();
    assert!(!g.is_wall(g.pacman_spawn()));
    // Every neighbor of the spawn must not trap the player immediately.
    let open_neighbors = Direction::ALL
        .iter()
        .filter(|d| !g.is_wall(g.pacman_spawn().plus(d.to_delta())))
        .count();
    assert!(open_neighbors >= 2, "spawn needs room to maneuver");
}

#[test]
fn every_food_position_from_maze_is_eatable_exactly_once() {
    let mut pellets = PelletMap::from_maze(&grid());
    let total = pellets.remaining();
    assert!(total > 0, "the real maze must contain food");
    let mut hit_positions: HashSet<GridPos> = HashSet::new();
    for y in 0..HEIGHT as i32 {
        for x in 0..WIDTH as i32 {
            let pos = GridPos::new(x, y);
            if pellets.eat(pos).is_some() {
                assert!(hit_positions.insert(pos), "double-reported {pos:?}");
            }
        }
    }
    assert_eq!(hit_positions.len(), total);
    assert_eq!(pellets.remaining(), 0, "board fully swept");
}

#[test]
fn resolve_step_consumes_a_legal_turn() {
    let g = grid();
    // From the spawn (9, 1) heading left, a queued Up turn leads to (9, 2).
    let mut queued = Some(Direction::Up);
    let step = resolve_step(GridPos::new(9, 1), Direction::Left, &mut queued, &g);
    assert_eq!(step, Some((GridPos::new(9, 2), Direction::Up)));
    assert_eq!(queued, None);
}

#[test]
fn advance_moves_eats_and_reports() {
    let g = grid();
    let mut pellets = PelletMap::from_maze(&g);
    let mut player = Player { pos: g.pacman_spawn(), dir: Direction::Left, queued: None };
    let moved = player.advance(&g, &mut pellets);
    assert_eq!(moved, Some(Moved { pos: GridPos::new(8, 1), eaten: Some(PelletKind::Pellet) }));
    assert_eq!(player.pos, GridPos::new(8, 1));
    assert_eq!(pellets.remaining(), 161);
    // Facing down into the border: nothing happens.
    let mut stuck = Player { pos: GridPos::new(1, 1), dir: Direction::Down, queued: None };
    assert_eq!(stuck.advance(&g, &mut pellets), None);
    assert_eq!(stuck.pos, GridPos::new(1, 1));
    assert_eq!(pellets.remaining(), 161);
}

#[test]
fn respawn_and_touch() {
    let g = grid();
    let mut player = Player { pos: GridPos::new(3, 3), dir: Direction::Up, queued: Some(Direction::Right) };
    assert!(player.touches(GridPos::new(3, 3)));
    assert!(!player.touches(GridPos::new(3, 4)));
    player.respawn(&g);
    assert_eq!(player, Player { pos: GridPos::new(9, 1), dir: Direction::Left, queued: None });
}

#[test]
fn requested_direction_takes_the_newest_held_key() {
    assert_eq!(requested_direction([None, None, None, None]), None);
    assert_eq!(requested_direction([None, Some(4), Some(2), None]), Some(Direction::Down));
    assert_eq!(requested_direction([Some(1), None, Some(7), None]), Some(Direction::Left));
    // Pressed in the same frame: the order up, down, left, right decides.
    assert_eq!(requested_direction([Some(3), Some(3), Some(3), Some(3)]), Some(Direction::Up));
    assert_eq!(requested_direction([None, None, None, Some(0)]), Some(Direction::Right));
}

#[test]
fn a_later_press_wins_while_the_first_key_is_still_held() {
    let mut keys = KeyHistory::new();
    assert_eq!(keys.newest(), None);
    keys.record([true, false, false, false]);
    assert_eq!(keys.newest(), Some(Direction::Up));
    keys.record([true, false, true, false]);
    assert_eq!(keys.newest(), Some(Direction::Left));
    keys.record([true, false, true, false]);
    assert_eq!(keys.newest(), Some(Direction::Left));
    assert_eq!(keys.held_since, [Some(0), None, Some(1), None]);
    keys.record([true, false, false, false]);
    assert_eq!(keys.newest(), Some(Direction::Up));
    keys.record([false, false, false, false]);
    assert_eq!(keys.newest(), None);
    assert_eq!(keys.clock, 5);
}

#[test]
fn steps_far_from_the_board_need_only_the_tried_sums_in_range() {
    let g = grid();
    let mut queued = None;
    // At the left end of the i32 range, heading right: only x + 1 is computed.
    assert!(tried_steps_in_range(GridPos::new(i32::MIN, 5), Direction::Right, None));
    assert_eq!(resolve_step(GridPos::new(i32::MIN, 5), Direction::Right, &mut queued, &g), None);
    assert!(!tried_steps_in_range(GridPos::new(i32::MIN, 5), Direction::Left, None));
    assert!(!tried_steps_in_range(GridPos::new(i32::MIN, 5), Direction::Right, Some(Direction::Left)));
    assert!(tried_steps_in_range(GridPos::new(3_000_000, 7), Direction::Up, Some(Direction::Down)));
}
