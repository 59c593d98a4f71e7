use pacman_lite::events::Direction;
use pacman_lite::ghosts::GhostMode;
use pacman_lite::grid_pos::GridPos;
use pacman_lite::headless_env::live_observation_features;
use pacman_lite::maze::{MazeGrid, PelletMap};
use pacman_lite::headless_env::{
    action_face, Action, GhostThreat, HeadlessGhost, PacEnv, RewardTerm, OBS_DIM,
};

fn ghost(x: i32, y: i32, frightened_steps: u32, rng_state: u64) -> HeadlessGhost {
    HeadlessGhost { x, y, frightened_steps, rng_state, heading: None }
}

fn headed(x: i32, y: i32, frightened_steps: u32, rng_state: u64, d: Direction) -> HeadlessGhost {
    HeadlessGhost { x, y, frightened_steps, rng_state, heading: Some(d) }
}

#[test]
fn actions_convert_to_and_from_indices() {
    assert_eq!(Action::COUNT, 4);
    for (i, a) in Action::ALL.iter().enumerate() {
        assert_eq!(a.index(), i);
        assert_eq!(Action::from_index(i), Some(*a));
        assert_eq!(Action::wrap_index(i + 4), *a);
    }
    assert_eq!(Action::Up.to_delta(), 21);
    assert_eq!(Action::Down.to_delta(), -21);
    assert_eq!(Action::Left.to_delta(), -1);
    assert_eq!(Action::Right.to_delta(), 1);
    assert_eq!(Action::Up.to_delta() + Action::Down.to_delta(), 0);
    assert_eq!(Action::Left.to_delta() + Action::Right.to_delta(), 0);
    assert_eq!(Action::from_index(4), None);
    assert_eq!(Action::wrap_index(7), Action::Right);
    assert_eq!(Action::Up.delta(), (0, 1));
    assert_eq!(Action::Down.delta(), (0, -1));
    assert_eq!(Action::Left.delta(), (-1, 0));
    assert_eq!(Action::Right.delta(), (1, 0));
    assert_eq!(action_face(Action::Down), Direction::Down);
}

#[test]
fn xorshift_generator_advances_deterministically() {
    let mut g = ghost(0, 0, 0, 0x5EED_0000);
    assert_eq!(g.next_random(), 1699125809787230720);
    assert_eq!(g.rng_state, 1699125809787230720);
    let mut h = ghost(0, 0, 0, 12345);
    assert_eq!(h.next_random(), 13289605635609);
}

#[test]
fn new_environment_starts_at_the_spawns() {
    let env = PacEnv::new();
    assert_eq!((env.px, env.py), (9, 1));
    assert_eq!(env.facing, Direction::Left);
    assert_eq!(env.ghosts.len(), 4);
    for (i, g) in env.ghosts.iter().enumerate() {
        assert_eq!(*g, ghost(9 + i as i32, 7, 0, 0x5EED_0000 + i as u64));
    }
    assert_eq!((env.steps, env.max_steps, env.score, env.lives), (0, 600, 0, 3));
    assert!(!env.is_done());
    assert!(!env.frightened_active());
    assert_eq!(env.pellet_positions().len(), 162);
    let default_env = PacEnv::default();
    assert_eq!(default_env.pellet_positions(), env.pellet_positions());
}

#[test]
fn first_moves_eat_dots_while_ghosts_chase() {
    let mut env = PacEnv::new();
    let r = env.step(Action::Left);
    assert_eq!(r.terms, vec![RewardTerm::Pellet]);
    assert!(!r.done);
    assert_eq!((env.px, env.py), (8, 1));
    assert_eq!(env.score, 10);
    let positions: Vec<(i32, i32)> = env.ghosts.iter().map(|g| (g.x, g.y)).collect();
    assert_eq!(positions, vec![(8, 7), (9, 7), (10, 7), (11, 7)]);
    let r = env.step(Action::Left);
    assert_eq!(r.terms, vec![RewardTerm::Pellet]);
    let positions: Vec<(i32, i32)> = env.ghosts.iter().map(|g| (g.x, g.y)).collect();
    assert_eq!(positions, vec![(9, 7), (8, 7), (9, 7), (10, 7)]);
    assert_eq!(env.steps, 2);
    assert_eq!(env.pellet_positions().len(), 160);
    assert!(!env.pellet_positions().contains(&GridPos::new(8, 1)));
}

#[test]
fn bumping_a_wall_costs_and_keeps_position() {
    let mut env = PacEnv::new();
    let r = env.step(Action::Right);
    assert_eq!(r.terms, vec![RewardTerm::WallBump]);
    assert_eq!((env.px, env.py), (9, 1));
    assert_eq!(env.facing, Direction::Left);
    assert_eq!(env.score, 0);
}

#[test]
fn being_caught_costs_a_life_and_respawns_everyone() {
    let mut env = PacEnv::new();
    env.ghosts = vec![ghost(7, 1, 0, 1), ghost(15, 5, 0, 2)];
    let r = env.step(Action::Left);
    assert_eq!(r.terms, vec![RewardTerm::Pellet, RewardTerm::Caught]);
    assert!(!r.done);
    assert_eq!((env.px, env.py), (9, 1));
    assert_eq!(env.lives, 2);
    assert_eq!(env.score, 10);
    assert_eq!(env.ghosts.len(), 4);
    assert_eq!(env.ghosts[0], ghost(9, 7, 0, 1592590336));
}

#[test]
fn power_pellet_frightens_and_frightened_ghosts_wander() {
    let mut env = PacEnv::new();
    env.px = 1;
    env.py = 2;
    env.ghosts = vec![ghost(1, 5, 0, 0x5EED_0000), ghost(3, 3, 0, 7)];
    let r = env.step(Action::Up);
    assert_eq!(r.terms, vec![RewardTerm::PowerPellet]);
    assert_eq!(env.score, 50);
    assert_eq!(
        env.ghosts,
        vec![
            headed(1, 4, 39, 1699125809787230720, Direction::Down),
            headed(4, 3, 39, 7575888327, Direction::Right),
        ]
    );
    assert!(env.frightened_active());
    let r = env.step(Action::Down);
    assert_eq!(r.terms, vec![RewardTerm::Pellet]);
    assert_eq!(env.score, 60);
    assert_eq!(
        env.ghosts,
        vec![
            headed(1, 3, 38, 16053748544006028212, Direction::Down),
            headed(5, 3, 38, 8070950887952051652, Direction::Right),
        ]
    );
}

#[test]
fn eating_a_frightened_ghost_sends_it_home() {
    let mut env = PacEnv::new();
    env.px = 1;
    env.py = 2;
    env.ghosts = vec![ghost(1, 4, 0, 5)];
    let r = env.step(Action::Up);
    assert_eq!(r.terms, vec![RewardTerm::PowerPellet, RewardTerm::GhostEaten]);
    assert_eq!(env.score, 250);
    assert_eq!(env.lives, 3);
    assert_eq!(env.ghosts, vec![ghost(10, 7, 0, 5411348805)]);
}

#[test]
fn finished_episodes_are_frozen_and_reset_restores_everything() {
    let mut env = PacEnv::new();
    env.max_steps = 1;
    let r = env.step(Action::Left);
    assert!(r.done);
    assert!(env.is_done());
    let r = env.step(Action::Left);
    assert!(r.done);
    assert!(r.terms.is_empty());
    assert_eq!((env.px, env.py, env.steps), (8, 1, 1));
    env.reset();
    assert!(!env.is_done());
    assert_eq!((env.px, env.py, env.steps, env.score, env.lives), (9, 1, 0, 0, 3));
    assert_eq!(env.max_steps, 1);
    assert_eq!(env.pellet_positions().len(), 162);
}

#[test]
fn losing_the_last_life_ends_the_episode() {
    let mut env = PacEnv::new();
    env.lives = 1;
    env.ghosts = vec![ghost(7, 1, 0, 1)];
    let r = env.step(Action::Left);
    assert_eq!(r.terms, vec![RewardTerm::Pellet, RewardTerm::Caught]);
    assert!(r.done);
    assert_eq!(env.lives, 0);
}

#[test]
fn observation_features_at_the_spawn() {
    let env = PacEnv::new();
    let f = env.observation_features();
    assert_eq!(f.walls, vec![false, true, false, true]);
    assert_eq!(f.food, vec![true, false, true, false]);
    assert!(!f.fright_active);
    assert_eq!(f.remaining, 162);
    assert_eq!(f.total, 162);
    assert_eq!(f.facing_slot, 17);
    assert!(f.facing_slot < OBS_DIM);
    // Ghosts at (9..12, 7), Pac-Man at (9, 1): dy dominates, all up.
    assert_eq!(
        f.threats,
        vec![
            GhostThreat { slot: Some(8), distance: 6, frightened: false },
            GhostThreat { slot: Some(8), distance: 7, frightened: false },
            GhostThreat { slot: Some(8), distance: 8, frightened: false },
            GhostThreat { slot: Some(8), distance: 9, frightened: false },
        ]
    );
}

#[test]
fn observation_threat_slots_follow_the_dominant_axis() {
    let mut env = PacEnv::new();
    env.ghosts = vec![
        ghost(12, 1, 5, 0), // right, frightened
        ghost(6, 1, 0, 0),  // left
        ghost(9, 0, 0, 0),  // below
        ghost(9, 1, 0, 0),  // on Pac-Man
    ];
    let f = env.observation_features();
    assert_eq!(
        f.threats,
        vec![
            GhostThreat { slot: Some(11), distance: 3, frightened: true },
            GhostThreat { slot: Some(10), distance: 3, frightened: false },
            GhostThreat { slot: Some(9), distance: 1, frightened: false },
            GhostThreat { slot: None, distance: 0, frightened: false },
        ]
    );
    assert!(f.fright_active);
}

#[test]
fn long_episode_keeps_everyone_on_open_cells_and_counters_monotone() {
    let grid = MazeGrid::default();
    let mut env = PacEnv::new();
    let mut score = env.score;
    let mut lives = env.lives;
    let mut food = env.pellet_positions().len();
    let initial = env.pellet_positions();
    for k in 0..400usize {
        let action = Action::wrap_index(k * 7 / 3);
        let was_done = env.is_done();
        let steps = env.steps;
        let r = env.step(action);
        if was_done {
            assert!(r.terms.is_empty());
            assert_eq!(env.steps, steps);
        } else {
            assert_eq!(env.steps, steps + 1);
        }
        assert!(!grid.is_wall(GridPos::new(env.px, env.py)));
        for g in &env.ghosts {
            assert!(!grid.is_wall(GridPos::new(g.x, g.y)));
        }
        assert!(env.score >= score);
        assert!(env.lives <= lives && env.lives + 1 >= lives);
        assert_eq!(env.ghosts.len(), 4);
        assert!(env.ghosts.iter().all(|g| g.frightened_steps <= 40));
        assert!(env.lives <= 3 && env.steps <= env.max_steps);
        assert!(env.score as usize <= 850 * env.steps);
        assert!(env.pellet_positions().iter().all(|p| initial.contains(p)));
        let now = env.pellet_positions().len();
        assert!(now <= food);
        if env.lives == 0 || now == 0 {
            assert!(env.is_done());
        }
        score = env.score;
        lives = env.lives;
        food = now;
    }
}

#[test]
fn ghosts_turn_back_only_in_dead_ends() {
    let mut env = PacEnv::new();
    env.step(Action::Left);
    env.step(Action::Left);
    // (8, 7) is a dead end: ghost 0 had to turn back to (9, 7).
    assert_eq!(env.ghosts[0], headed(9, 7, 0, 0x5EED_0000, Direction::Right));
    env.step(Action::Left);
    // (9, 7) is a corridor: ghost 0 keeps going right instead of returning.
    assert_eq!(env.ghosts[0], headed(10, 7, 0, 0x5EED_0000, Direction::Right));
    let positions: Vec<(i32, i32)> = env.ghosts.iter().map(|g| (g.x, g.y)).collect();
    assert_eq!(positions, vec![(10, 7), (9, 7), (8, 7), (9, 7)]);
}

#[test]
fn a_ghost_straight_above_presses_on_the_up_slot() {
    let mut env = PacEnv::new();
    env.ghosts = vec![ghost(9, 2, 0, 1)];
    let f = env.observation_features();
    assert_eq!(f.threats, vec![GhostThreat { slot: Some(8), distance: 1, frightened: false }]);
}

#[test]
fn reward_terms_add_up_in_hundredths() {
    assert_eq!(RewardTerm::WallBump.centis(), -1);
    assert_eq!(RewardTerm::Pellet.centis(), 100);
    assert_eq!(RewardTerm::PowerPellet.centis(), 200);
    assert_eq!(RewardTerm::GhostEaten.centis(), 500);
    assert_eq!(RewardTerm::Caught.centis(), -1000);
    assert_eq!(RewardTerm::LevelCleared.centis(), 2000);
    let mut env = PacEnv::new();
    env.ghosts = vec![ghost(7, 1, 0, 1)];
    let r = env.step(Action::Left);
    assert_eq!(r.reward_centis(), 100 - 1000);
    let mut env = PacEnv::new();
    let r = env.step(Action::Right);
    assert_eq!(r.reward_centis(), -1);
}

#[test]
fn reset_works_from_any_state() {
    let mut env = PacEnv::new();
    env.px = 2_000_000_000;
    env.ghosts = vec![ghost(-5, 9, 3, 1)];
    env.score = 77;
    env.reset();
    assert_eq!((env.px, env.py, env.score, env.lives, env.steps), (9, 1, 0, 3, 0));
    assert_eq!(env.ghosts.len(), 4);
}

#[test]
fn two_fresh_environments_run_alike() {
    let mut a = PacEnv::new();
    let mut b = PacEnv::new();
    for k in 0..200usize {
        let action = Action::wrap_index(k * 5 / 2);
        let ra = a.step(action);
        let rb = b.step(action);
        assert_eq!(ra.terms, rb.terms);
        assert_eq!((a.px, a.py, a.score, a.lives, a.steps), (b.px, b.py, b.score, b.lives, b.steps));
        assert_eq!(a.ghosts, b.ghosts);
        assert_eq!(a.pellet_positions(), b.pellet_positions());
    }
}

#[test]
fn live_features_match_the_headless_rules() {
    let grid = MazeGrid::default();
    let pellets = PelletMap::from_maze(&grid);
    let ghosts = vec![
        (GridPos::new(9, 2), GhostMode::Chase),
        (GridPos::new(6, 1), GhostMode::Frightened),
        (GridPos::new(9, 1), GhostMode::Eaten),
    ];
    let f = live_observation_features(&grid, &pellets, GridPos::new(9, 1), Direction::Up, &ghosts, 162);
    assert_eq!(f.walls, vec![false, true, false, true]);
    assert_eq!(f.food, vec![true, false, true, false]);
    assert_eq!(
        f.threats,
        vec![
            GhostThreat { slot: Some(8), distance: 1, frightened: false },
            GhostThreat { slot: Some(10), distance: 3, frightened: true },
            GhostThreat { slot: None, distance: 0, frightened: false },
        ]
    );
    assert!(f.fright_active);
    assert_eq!((f.remaining, f.total, f.facing_slot), (162, 162, 15));
    // The headless environment builds the same features from the same scene.
    let mut env = PacEnv::new();
    env.facing = Direction::Up;
    env.ghosts = vec![ghost(9, 2, 0, 1), ghost(6, 1, 4, 1), ghost(9, 1, 0, 1)];
    let h = env.observation_features();
    assert_eq!((h.walls, h.food, h.threats), (f.walls, f.food, f.threats));
    assert_eq!(h.facing_slot, f.facing_slot);
}

#[test]
fn step_range_checks_are_exact() {
    let mut env = PacEnv::new();
    assert!(env.arith_in_range(Action::Left));
    assert!(env.counters_fit(Action::Left));
    env.score = u32::MAX - 10;
    // Eating the dot at (8, 1) takes the score exactly to the limit.
    assert!(env.counters_fit(Action::Left));
    env.score = u32::MAX - 9;
    assert!(!env.counters_fit(Action::Left));
    // Bumping the wall eats nothing, so a score at the limit still fits.
    env.score = u32::MAX;
    assert!(env.counters_fit(Action::Right));
    env.score = 0;
    env.steps = usize::MAX;
    assert!(!env.counters_fit(Action::Right));
    env.steps = 0;
    env.lives = 0;
    env.ghosts = vec![ghost(7, 1, 0, 1)];
    assert!(!env.counters_fit(Action::Left));
    env.lives = 1;
    assert!(env.counters_fit(Action::Left));
    env.ghosts = vec![ghost(i32::MAX, 3, 0, 1)];
    assert!(!env.arith_in_range(Action::Left));
    env.ghosts = vec![];
    env.px = 2_000_000;
    assert!(env.arith_in_range(Action::Up));
    env.px = i32::MAX;
    assert!(!env.arith_in_range(Action::Right));
}

#[test]
fn a_pac_man_far_from_the_board_still_steps_and_observes() {
    let mut env = PacEnv::new();
    env.px = 2_000_000;
    env.py = 1;
    assert!(env.arith_in_range(Action::Up) && env.counters_fit(Action::Up));
    let r = env.step(Action::Up);
    assert_eq!(r.terms, vec![RewardTerm::WallBump]);
    assert_eq!((env.px, env.py), (2_000_000, 1));
    let f = env.observation_features();
    assert_eq!(f.walls, vec![true, true, true, true]);
    assert_eq!(f.threats.len(), 4);
}
