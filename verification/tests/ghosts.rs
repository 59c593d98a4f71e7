use pacman_lite::events::Direction;
use pacman_lite::ghosts::{
    advance_ghost, advance_in_range, candidate_directions, choose_direction, ghost_pack, ghosts_active,
    target_in_range, FrightRng,
    GhostKind, GhostMode, ScriptedGhost, FRIGHT_RNG_SEED,
};
use pacman_lite::grid_pos::GridPos;
use pacman_lite::maze::{MazeGrid, PelletMap};
use rand::rngs::StdRng;
use rand::SeedableRng;

fn at(kind: GhostKind, x: i32, y: i32, dir: Direction, mode: GhostMode) -> ScriptedGhost {
    ScriptedGhost { kind, pos: GridPos::new(x, y), dir, mode }
}

#[test]
fn target_heuristics_follow_the_personalities() {
    let pac = GridPos::new(5, 5);
    assert_eq!(GhostKind::Blinky.target_heuristic(pac, Direction::Up, GridPos::new(1, 1)), pac);
    assert_eq!(
        GhostKind::Pinky.target_heuristic(pac, Direction::Up, GridPos::new(1, 1)),
        GridPos::new(5, 9)
    );
    assert_eq!(
        GhostKind::Inky.target_heuristic(pac, Direction::Up, GridPos::new(7, 3)),
        GridPos::new(3, 7)
    );
    assert_eq!(GhostKind::Clyde.target_heuristic(pac, Direction::Up, GridPos::new(20, 20)), pac);
    assert_eq!(
        GhostKind::Clyde.target_heuristic(pac, Direction::Up, GridPos::new(6, 6)),
        GridPos::new(-8, 17)
    );
    assert_eq!(GhostKind::ALL.len(), 4);
    assert_eq!(FRIGHT_RNG_SEED, 0x0F1F_71ED);
}

#[test]
fn candidates_exclude_walls_and_reversal() {
    let grid = MazeGrid::default();
    let g = at(GhostKind::Blinky, 10, 7, Direction::Left, GhostMode::Chase);
    assert_eq!(candidate_directions(&grid, &g), vec![Direction::Up, Direction::Left]);
    // Blocked ahead in a corner: it turns, but does not reverse.
    let g = at(GhostKind::Blinky, 1, 1, Direction::Down, GhostMode::Chase);
    assert_eq!(candidate_directions(&grid, &g), vec![Direction::Right]);
    // A dead end: reversing is the only way out.
    let g = at(GhostKind::Blinky, 8, 7, Direction::Left, GhostMode::Chase);
    assert_eq!(candidate_directions(&grid, &g), vec![Direction::Right]);
    // Boxed in (inside a wall): nothing.
    let g = at(GhostKind::Blinky, 0, 0, Direction::Left, GhostMode::Chase);
    assert!(candidate_directions(&grid, &g).is_empty());
}

#[test]
fn choose_direction_by_mode() {
    let grid = MazeGrid::default();
    let mut rng = StdRng::seed_from_u64(FRIGHT_RNG_SEED);
    let pac = GridPos::new(9, 1);
    let g = at(GhostKind::Blinky, 10, 7, Direction::Left, GhostMode::Chase);
    assert_eq!(choose_direction(&grid, &g, pac, false, &mut rng), Direction::Left);
    // Heading home: both candidates are one step from the house; ties go to Up.
    assert_eq!(choose_direction(&grid, &g, pac, true, &mut rng), Direction::Up);
    // Frightened: a random candidate.
    let f = at(GhostKind::Blinky, 10, 7, Direction::Left, GhostMode::Frightened);
    for _ in 0..10 {
        let d = choose_direction(&grid, &f, pac, false, &mut rng);
        assert!(d == Direction::Up || d == Direction::Left);
    }
    // No candidate: reverse.
    let boxed = at(GhostKind::Blinky, 0, 0, Direction::Left, GhostMode::Chase);
    assert_eq!(choose_direction(&grid, &boxed, pac, false, &mut rng), Direction::Right);
}

#[test]
fn advancing_ghosts_moves_or_rests_at_home() {
    let grid = MazeGrid::default();
    let mut rng = FrightRng::new();
    let mut g = at(GhostKind::Blinky, 10, 7, Direction::Left, GhostMode::Chase);
    assert!(!advance_ghost(&grid, &mut g, GridPos::new(9, 1), &mut rng));
    assert_eq!(g, at(GhostKind::Blinky, 9, 7, Direction::Left, GhostMode::Chase));
    let mut home = at(GhostKind::Inky, 10, 7, Direction::Up, GhostMode::Eaten);
    assert!(advance_ghost(&grid, &mut home, GridPos::new(9, 1), &mut rng));
    assert_eq!(home, at(GhostKind::Inky, 10, 7, Direction::Up, GhostMode::Chase));
    let mut boxed = at(GhostKind::Blinky, 0, 0, Direction::Left, GhostMode::Chase);
    assert!(!advance_ghost(&grid, &mut boxed, GridPos::new(9, 1), &mut rng));
    assert_eq!(boxed, at(GhostKind::Blinky, 0, 0, Direction::Right, GhostMode::Chase));
}

#[test]
fn mode_changes_and_respawn() {
    let grid = MazeGrid::default();
    let mut g = at(GhostKind::Pinky, 3, 3, Direction::Up, GhostMode::Chase);
    assert!(g.frighten());
    assert_eq!(g.mode, GhostMode::Frightened);
    assert!(g.frighten());
    g.calm_down();
    assert_eq!(g.mode, GhostMode::Chase);
    let mut eaten = at(GhostKind::Pinky, 3, 3, Direction::Up, GhostMode::Eaten);
    assert!(!eaten.frighten());
    assert_eq!(eaten.mode, GhostMode::Eaten);
    eaten.return_to_house(&grid);
    assert_eq!(eaten, at(GhostKind::Pinky, 10, 7, Direction::Left, GhostMode::Chase));
}

#[test]
fn pack_spawns_in_the_house_in_order() {
    let grid = MazeGrid::default();
    let pack = ghost_pack(&grid);
    let kinds: Vec<GhostKind> = pack.iter().map(|g| g.kind).collect();
    assert_eq!(kinds, GhostKind::ALL.to_vec());
    for g in &pack {
        assert_eq!(g.pos, GridPos::new(10, 7));
        assert_eq!(g.dir, Direction::Left);
        assert_eq!(g.mode, GhostMode::Chase);
    }
    assert!(ghosts_active(&PelletMap::from_maze(&grid)));
    assert!(!ghosts_active(&PelletMap::default()));
}

#[test]
fn fresh_fright_generators_steer_alike() {
    let grid = MazeGrid::default();
    let mut first = FrightRng::new();
    let mut second = FrightRng::new();
    let mut a = at(GhostKind::Clyde, 10, 7, Direction::Left, GhostMode::Frightened);
    let mut b = a;
    for _ in 0..40 {
        advance_ghost(&grid, &mut a, GridPos::new(9, 1), &mut first);
        advance_ghost(&grid, &mut b, GridPos::new(9, 1), &mut second);
        assert_eq!(a, b);
    }
}

#[test]
fn a_ghost_in_a_corner_turns_instead_of_reversing() {
    let grid = MazeGrid::default();
    let g = at(GhostKind::Blinky, 1, 1, Direction::Left, GhostMode::Chase);
    let mut rng = StdRng::seed_from_u64(0);
    assert_eq!(choose_direction(&grid, &g, GridPos::new(9, 1), false, &mut rng), Direction::Up);
    let mut fright = FrightRng::new();
    let mut moving = g;
    assert!(!advance_ghost(&grid, &mut moving, GridPos::new(9, 1), &mut fright));
    assert_eq!(moving, at(GhostKind::Blinky, 1, 2, Direction::Up, GhostMode::Chase));
}

#[test]
fn ghosts_chase_a_pac_man_far_from_the_origin() {
    let grid = MazeGrid::default();
    let far = GridPos::new(2_000_000, 1);
    let mut rng = FrightRng::new();
    let mut g = at(GhostKind::Blinky, 10, 7, Direction::Left, GhostMode::Chase);
    assert!(advance_in_range(&grid, &g, far));
    assert!(!advance_ghost(&grid, &mut g, far, &mut rng));
    // Heading left it may go up or left; both are as near, and ties go to up.
    assert_eq!(g, at(GhostKind::Blinky, 10, 8, Direction::Up, GhostMode::Chase));
    assert!(target_in_range(GhostKind::Inky, far, GridPos::new(10, 7)));
    assert!(!target_in_range(GhostKind::Inky, GridPos::new(i32::MAX / 2 + 1, 0), GridPos::new(0, 0)));
    assert!(!target_in_range(GhostKind::Pinky, GridPos::new(i32::MAX - 3, 0), GridPos::new(0, 0)));
    let edge = at(GhostKind::Blinky, i32::MAX, 7, Direction::Left, GhostMode::Chase);
    assert!(!advance_in_range(&grid, &edge, far));
    let home = at(GhostKind::Blinky, 10, 7, Direction::Left, GhostMode::Eaten);
    assert!(advance_in_range(&grid, &home, GridPos::new(i32::MIN, i32::MIN)));
}

#[test]
fn choices_without_a_draw_leave_the_generator_alone() {
    let grid = MazeGrid::default();
    let pac = GridPos::new(9, 1);
    let mut used = StdRng::seed_from_u64(11);
    let mut fresh = StdRng::seed_from_u64(11);
    let chaser = at(GhostKind::Blinky, 10, 7, Direction::Left, GhostMode::Chase);
    choose_direction(&grid, &chaser, pac, false, &mut used);
    choose_direction(&grid, &chaser, pac, true, &mut used);
    let f = at(GhostKind::Blinky, 10, 7, Direction::Left, GhostMode::Frightened);
    for _ in 0..8 {
        assert_eq!(
            choose_direction(&grid, &f, pac, false, &mut used),
            choose_direction(&grid, &f, pac, false, &mut fresh)
        );
    }
}
