use pacman_lite::events::Direction;
use pacman_lite::ghosts::{GhostKind, GhostMode, ScriptedGhost};
use pacman_lite::grid_pos::GridPos;
use pacman_lite::maze::{MazeGrid, PelletMap};
use pacman_lite::ui::{GameSession, HighScore, Lives, Score};

fn ghost(mode: GhostMode) -> ScriptedGhost {
    ScriptedGhost { kind: GhostKind::Inky, pos: GridPos::new(5, 5), dir: Direction::Up, mode }
}

#[test]
fn scoring_pellets_and_power_pellets() {
    let grid = MazeGrid::default();
    let board = PelletMap::from_maze(&grid);
    let mut score = Score::default();
    assert_eq!(score.0, 0);
    assert!(!score.on_pellet_eaten(&board));
    assert_eq!(score.0, 10);
    assert!(!score.on_power_pellet(&board));
    assert_eq!(score.0, 60);
    assert!(score.on_pellet_eaten(&PelletMap::default()));
    assert_eq!(score.0, 70);
    assert_eq!(HighScore::default().0, 0);
}

#[test]
fn eating_the_last_food_as_a_power_pellet_clears_the_level() {
    let grid = MazeGrid::default();
    let mut board = PelletMap::from_maze(&grid);
    // Eat everything but the power pellet at (1, 3).
    for y in 0..17 {
        for x in 0..21 {
            if (x, y) != (1, 3) {
                board.eat(GridPos::new(x, y));
            }
        }
    }
    assert_eq!(board.remaining(), 1);
    let mut score = Score(100);
    assert!(!score.on_power_pellet(&board));
    board.eat(GridPos::new(1, 3));
    assert!(score.on_power_pellet(&board));
    assert_eq!(score.0, 200);
}

#[test]
fn collisions_cost_lives_unless_the_ghost_is_frightened() {
    let mut lives = Lives::default();
    assert_eq!(lives.0, 3);
    let mut frightened = ghost(GhostMode::Frightened);
    lives.on_ghost_collision(&mut frightened);
    assert_eq!(lives.0, 3);
    assert_eq!(frightened, ghost(GhostMode::Eaten));
    let mut chasing = ghost(GhostMode::Chase);
    lives.on_ghost_collision(&mut chasing);
    assert_eq!(lives.0, 2);
    assert_eq!(chasing, ghost(GhostMode::Chase));
    let mut eaten = ghost(GhostMode::Eaten);
    lives.on_ghost_collision(&mut eaten);
    assert_eq!(lives.0, 1);
    assert_eq!(eaten, ghost(GhostMode::Eaten));
    assert!(!lives.is_exhausted());
    lives.on_ghost_collision(&mut chasing);
    assert!(lives.is_exhausted());
    lives.on_ghost_collision(&mut chasing);
    assert_eq!(lives.0, 0);
}

#[test]
fn level_is_won_only_when_a_stocked_board_is_cleared() {
    let grid = MazeGrid::default();
    let full = PelletMap::from_maze(&grid);
    let empty = PelletMap::default();
    let session = GameSession::new(full.remaining());
    assert_eq!(session.pellets_at_start, 162);
    assert!(!session.level_won(&full));
    assert!(session.level_won(&empty));
    assert!(!GameSession::new(0).level_won(&empty));
}
