//! Deterministic headless Pac-Man environment mirroring the game rules.
//!
//! Shares the maze blueprint semantics with [`crate::maze`] but runs without
//! any rendering, so thousands of episodes can train per second. Ghosts chase
//! Pac-Man by Manhattan distance and move randomly (seeded xorshift) while
//! frightened; like the visual ghosts they never turn back onto the cell
//! they just left except in a dead end.
//!
//! Rewards are reported as an ordered list of [`RewardTerm`]s; the caller
//! adds up their numeric values in that order.

use vstd::prelude::*;
use crate::events::{Direction, delta_of, direction_at, opposite_of};
use crate::ghosts::{moves_avoiding, moves_from, candidate_cells, cells_toward, lemma_moves_allowed};
use crate::pacman::step_cell;
use crate::grid_pos::{GridPos, steppable, manhattan_spec, closest_index, closest_candidate, lemma_closest_index_in_range};
use crate::maze::{
    MazeGrid, MazeModel, PelletKind, PelletMap, in_grid, food_at, food_count, board_after_eat,
    initial_board, CELLS, WIDTH, HEIGHT,
};

verus! {

/// Actions available to the learning agent.
#[derive(Debug, Clone, Copy, PartialEq, Eq, Structural)]
pub enum Action {
    Up,
    Down,
    Left,
    Right,
}

/// Position of an action in the stable order `Up, Down, Left, Right`.
pub open spec fn action_index(a: Action) -> nat {
    match a {
        Action::Up => 0,
        Action::Down => 1,
        Action::Left => 2,
        Action::Right => 3,
    }
}

/// The action at position `i` of the stable order (positions wrap modulo 4).
pub open spec fn action_at(i: nat) -> Action {
    let k = i % 4;
    if k == 0 {
        Action::Up
    } else if k == 1 {
        Action::Down
    } else if k == 2 {
        Action::Left
    } else {
        Action::Right
    }
}

/// Grid displacement `(dx, dy)` of an action (`+y` is up).
pub open spec fn action_delta(a: Action) -> (i32, i32) {
    match a {
        Action::Up => (0i32, 1i32),
        Action::Down => (0i32, -1i32),
        Action::Left => (-1i32, 0i32),
        Action::Right => (1i32, 0i32),
    }
}

/// The direction Pac-Man faces after moving with an action.
pub open spec fn action_face_spec(a: Action) -> Direction {
    match a {
        Action::Up => Direction::Up,
        Action::Down => Direction::Down,
        Action::Left => Direction::Left,
        Action::Right => Direction::Right,
    }
}

impl Action {
    /// Number of discrete actions.
    pub const COUNT: usize = 4;

    /// All actions.
    pub const ALL: [Action; 4] = [Action::Up, Action::Down, Action::Left, Action::Right];

    /// Converts an index into an action, wrapping modulo [`Action::COUNT`].
    pub fn wrap_index(index: usize) -> (r: Action)
        ensures
            r == action_at(index as nat),
            action_index(r) == index % 4,
    {
        let k = index % 4;
        if k == 0 {
            Action::Up
        } else if k == 1 {
            Action::Down
        } else if k == 2 {
            Action::Left
        } else {
            Action::Right
        }
    }

    /// Converts an index into an action, `None` when out of range.
    pub fn from_index(index: usize) -> (r: Option<Action>)
        ensures
            r is Some <==> index < 4,
            r matches Some(a) ==> a == action_at(index as nat) && action_index(a) == index,
    {
        if index < Self::COUNT {
            Some(Self::wrap_index(index))
        } else {
            None
        }
    }

    /// The action's index for network heads.
    pub fn index(self) -> (r: usize)
        ensures
            r == action_index(self),
    {
        match self {
            Action::Up => 0,
            Action::Down => 1,
            Action::Left => 2,
            Action::Right => 3,
        }
    }

    /// Grid delta for this action: the change of the row-major cell index
    /// ([`crate::maze::cell_index`]) that one move in this direction makes,
    /// `dx + dy * WIDTH`; opposite actions cancel.
    pub fn to_delta(self) -> (r: i32)
        ensures
            r == action_grid_delta(self),
    {
        match self {
            Action::Up => 21,
            Action::Down => -21,
            Action::Left => -1,
            Action::Right => 1,
        }
    }

    /// Grid displacement `(dx, dy)` of this action.
    pub fn delta(self) -> (r: (i32, i32))
        ensures
            r == action_delta(self),
    {
        match self {
            Action::Up => (0, 1),
            Action::Down => (0, -1),
            Action::Left => (-1, 0),
            Action::Right => (1, 0),
        }
    }
}

/// Index and action convert into each other: `index` inverts `from_index`
/// on `0..4`, and `wrap_index` only depends on the index modulo 4.
pub proof fn lemma_action_index_roundtrip(a: Action, i: nat)
    ensures
        action_at(action_index(a)) == a,
        action_index(a) < 4,
        action_at(i) == action_at(i % 4),
        action_index(action_at(i)) == i % 4,
{
}

/// The grid delta of an action: how one move changes a cell's row-major
/// index.
pub open spec fn action_grid_delta(a: Action) -> int {
    action_delta(a).0 + action_delta(a).1 * WIDTH
}

/// One move in direction `a` changes a cell's row-major index by the
/// action's grid delta, and opposite actions cancel.
pub proof fn lemma_action_delta_moves_index(a: Action, p: GridPos)
    requires
        steppable(p),
    ensures
        crate::maze::cell_index(GridPos { x: (p.x + action_delta(a).0) as i32, y: (p.y + action_delta(a).1) as i32 })
            == crate::maze::cell_index(p) + action_grid_delta(a),
        action_grid_delta(Action::Up) + action_grid_delta(Action::Down) == 0,
        action_grid_delta(Action::Left) + action_grid_delta(Action::Right) == 0,
{
}

/// The direction Pac-Man faces after moving with `action`.
pub fn action_face(action: Action) -> (r: Direction)
    ensures
        r == action_face_spec(action),
{
    match action {
        Action::Up => Direction::Up,
        Action::Down => Direction::Down,
        Action::Left => Direction::Left,
        Action::Right => Direction::Right,
    }
}

/// One scripted ghost in the headless world.
#[derive(Debug, Clone, Copy, PartialEq, Eq, Structural)]
pub struct HeadlessGhost {
    pub x: i32,
    pub y: i32,
    /// Steps of fright left.
    pub frightened_steps: u32,
    /// State of the ghost's xorshift64 generator.
    pub rng_state: u64,
    /// Direction of the ghost's last move (`None` until it first moves
    /// after spawning); the ghost does not turn back against it unless it
    /// stands in a dead end.
    pub heading: Option<Direction>,
}

/// One xorshift64 step (shifts 13, 7, 17).
pub open spec fn xorshift64(s: u64) -> u64 {
    let a = s ^ (s << 13u64);
    let b = a ^ (a >> 7u64);
    b ^ (b << 17u64)
}

impl HeadlessGhost {
    /// Advances the ghost's xorshift64 generator and returns the new state.
    pub fn next_random(&mut self) -> (r: u64)
        ensures
            r == xorshift64(old(self).rng_state),
            *final(self) == (HeadlessGhost { rng_state: r, ..*old(self) }),
    {
        let mut s = self.rng_state;
        s ^= s << 13;
        s ^= s >> 7;
        s ^= s << 17;
        self.rng_state = s;
        s
    }
}

/// The cell next to `p` in the `k`-th direction of the stable order.
pub open spec fn neighbor(p: GridPos, k: int) -> GridPos {
    GridPos {
        x: (p.x + delta_of(direction_at(k)).x) as i32,
        y: (p.y + delta_of(direction_at(k)).y) as i32,
    }
}

/// Position of a headless ghost.
pub open spec fn ghost_pos(g: HeadlessGhost) -> GridPos {
    GridPos { x: g.x, y: g.y }
}

/// The reverse of a heading (none for a ghost that has not moved since it
/// spawned).
pub open spec fn reverse_heading(h: Option<Direction>) -> Option<Direction> {
    match h {
        Some(d) => Some(opposite_of(d)),
        None => None,
    }
}

/// The moves open to a headless ghost, in the order up, down, left, right:
/// never into a wall, and back onto the cell it just left only in a dead end
/// (see [`moves_avoiding`]).
pub open spec fn headless_moves(grid: MazeModel, g: HeadlessGhost) -> Seq<Direction> {
    moves_avoiding(grid, ghost_pos(g), reverse_heading(g.heading))
}

/// One ghost move: the fright counter ticks down; a frightened ghost takes a
/// pseudo-random move, otherwise it takes the move that brings it closest to
/// Pac-Man (the first such). A ghost with no move stays.
pub open spec fn headless_ghost_step(grid: MazeModel, g: HeadlessGhost, pac: GridPos) -> HeadlessGhost {
    let fs: u32 = if g.frightened_steps > 0 { (g.frightened_steps - 1) as u32 } else { 0u32 };
    let moves = headless_moves(grid, g);
    let cells = candidate_cells(moves, ghost_pos(g));
    if moves.len() == 0 {
        HeadlessGhost { frightened_steps: fs, ..g }
    } else if fs > 0 {
        let r = xorshift64(g.rng_state);
        let k = (r % (moves.len() as u64)) as int;
        HeadlessGhost { x: cells[k].x, y: cells[k].y, frightened_steps: fs, rng_state: r, heading: Some(moves[k]) }
    } else {
        let k = closest_index(cells, pac);
        HeadlessGhost { x: cells[k].x, y: cells[k].y, frightened_steps: fs, heading: Some(moves[k]), ..g }
    }
}

/// The four ghosts placed in and beside the ghost house at the start of a
/// life.
pub open spec fn initial_ghosts(house: GridPos) -> Seq<HeadlessGhost> {
    Seq::new(
        4,
        |i: int|
            HeadlessGhost {
                x: (house.x + i - 1) as i32,
                y: house.y,
                frightened_steps: 0,
                rng_state: (0x5EED_0000 + i) as u64,
                heading: None,
            },
    )
}

/// One additive component of a step's reward, in the order it is earned.
#[derive(Debug, Clone, Copy, PartialEq, Eq, Structural)]
pub enum RewardTerm {
    /// The move ran into a wall (`-0.01`).
    WallBump,
    /// A dot pellet was eaten (`+1`).
    Pellet,
    /// A power pellet was eaten (`+2`).
    PowerPellet,
    /// A frightened ghost was eaten (`+5`).
    GhostEaten,
    /// Pac-Man was caught by a ghost (`-10`).
    Caught,
    /// The last food item was eaten (`+20`).
    LevelCleared,
}

/// Numeric value of a reward term, in hundredths.
pub open spec fn term_centis(t: RewardTerm) -> int {
    match t {
        RewardTerm::WallBump => -1,
        RewardTerm::Pellet => 100,
        RewardTerm::PowerPellet => 200,
        RewardTerm::GhostEaten => 500,
        RewardTerm::Caught => -1000,
        RewardTerm::LevelCleared => 2000,
    }
}

/// Total value of a sequence of reward terms, in hundredths.
pub open spec fn reward_centis(terms: Seq<RewardTerm>) -> int
    decreases terms.len(),
{
    if terms.len() == 0 {
        0
    } else {
        reward_centis(terms.drop_last()) + term_centis(terms.last())
    }
}

impl RewardTerm {
    /// Value of this term in hundredths (see [`term_centis`]).
    pub fn centis(self) -> (r: i32)
        ensures
            r == term_centis(self),
    {
        match self {
            RewardTerm::WallBump => -1,
            RewardTerm::Pellet => 100,
            RewardTerm::PowerPellet => 200,
            RewardTerm::GhostEaten => 500,
            RewardTerm::Caught => -1000,
            RewardTerm::LevelCleared => 2000,
        }
    }
}

/// Total value of a sequence of reward terms, in hundredths.
pub fn total_centis(terms: &Vec<RewardTerm>) -> (r: i128)
    ensures
        r == reward_centis(terms@),
{
    let mut acc: i128 = 0;
    let mut i: usize = 0;
    while i < terms.len()
        invariant
            i <= terms.len(),
            acc == reward_centis(terms@.take(i as int)),
            -2000 * i <= acc <= 2000 * i,
        decreases terms.len() - i,
    {
        assert(terms@.take(i + 1).drop_last() =~= terms@.take(i as int));
        let v = terms[i].centis();
        acc = acc + v as i128;
        i += 1;
    }
    assert(terms@.take(terms.len() as int) =~= terms@);
    acc
}

/// Abstract state of the headless environment.
pub struct EnvModel {
    pub grid: MazeModel,
    pub board: Seq<Option<PelletKind>>,
    pub total_pellets: int,
    pub px: i32,
    pub py: i32,
    pub facing: Direction,
    pub ghosts: Seq<HeadlessGhost>,
    pub steps: int,
    pub max_steps: int,
    pub score: int,
    pub lives: int,
    pub done: bool,
}

/// Pac-Man's cell.
pub open spec fn pac_pos(m: EnvModel) -> GridPos {
    GridPos { x: m.px, y: m.py }
}

/// Pac-Man and the ghosts back at their spawns (pellets, score and lives
/// untouched).
pub open spec fn reset_positions_spec(m: EnvModel) -> EnvModel {
    EnvModel {
        px: m.grid.pacman_spawn.x,
        py: m.grid.pacman_spawn.y,
        facing: Direction::Left,
        ghosts: initial_ghosts(m.grid.ghost_spawn),
        ..m
    }
}

/// Movement phase: the step counter advances; Pac-Man moves unless the
/// target cell is a wall. The flag reports a wall bump.
pub open spec fn move_phase(m: EnvModel, a: Action) -> (EnvModel, bool) {
    let (dx, dy) = action_delta(a);
    let next = GridPos { x: (m.px + dx) as i32, y: (m.py + dy) as i32 };
    if m.grid.wall_at(next) {
        (EnvModel { steps: m.steps + 1, ..m }, true)
    } else {
        (EnvModel { steps: m.steps + 1, px: next.x, py: next.y, facing: action_face_spec(a), ..m }, false)
    }
}

/// Every ghost with `frightened_steps` set to 40.
pub open spec fn frighten_all_ghosts(gs: Seq<HeadlessGhost>) -> Seq<HeadlessGhost> {
    gs.map_values(|g: HeadlessGhost| HeadlessGhost { frightened_steps: 40, ..g })
}

/// Eating phase: the food under Pac-Man is consumed; a dot scores 10, a
/// power pellet scores 50 and frightens every ghost for 40 steps.
pub open spec fn eat_phase(m: EnvModel) -> (EnvModel, Option<PelletKind>) {
    let here = pac_pos(m);
    let food = food_at(m.board, here);
    let board = board_after_eat(m.board, here);
    match food {
        Some(PelletKind::Pellet) => (EnvModel { board, score: m.score + 10, ..m }, food),
        Some(PelletKind::Power) => (
            EnvModel { board, score: m.score + 50, ghosts: frighten_all_ghosts(m.ghosts), ..m },
            food,
        ),
        None => (EnvModel { board, ..m }, food),
    }
}

/// Ghost phase, from ghost `i` on: each ghost moves, then a ghost on
/// Pac-Man's cell is either eaten (frightened: +200, back to the house) or
/// catches Pac-Man (a life is lost, everyone respawns, the phase ends).
pub open spec fn ghost_phase(m: EnvModel, i: int, n: int, terms: Seq<RewardTerm>) -> (
    EnvModel,
    Seq<RewardTerm>,
)
    decreases n - i,
{
    if i >= n || i < 0 || i >= m.ghosts.len() {
        (m, terms)
    } else {
        let g = headless_ghost_step(m.grid, m.ghosts[i], pac_pos(m));
        let m1 = EnvModel { ghosts: m.ghosts.update(i, g), ..m };
        if g.x == m.px && g.y == m.py {
            if g.frightened_steps > 0 {
                let home = HeadlessGhost {
                    x: m.grid.ghost_spawn.x,
                    y: m.grid.ghost_spawn.y,
                    frightened_steps: 0,
                    rng_state: g.rng_state,
                    heading: None,
                };
                let m2 = EnvModel { score: m.score + 200, ghosts: m.ghosts.update(i, home), ..m };
                ghost_phase(m2, i + 1, n, terms.push(RewardTerm::GhostEaten))
            } else {
                (reset_positions_spec(EnvModel { lives: m.lives - 1, ..m1 }), terms.push(RewardTerm::Caught))
            }
        } else {
            ghost_phase(m1, i + 1, n, terms)
        }
    }
}

/// Termination phase: the episode ends when no life or no food is left or
/// the step budget is spent; clearing the board earns a bonus.
pub open spec fn finish_phase(m: EnvModel, terms: Seq<RewardTerm>) -> (EnvModel, Seq<RewardTerm>) {
    if m.lives == 0 || food_count(m.board) == 0 || m.steps >= m.max_steps {
        let terms2 = if food_count(m.board) == 0 { terms.push(RewardTerm::LevelCleared) } else { terms };
        (EnvModel { done: true, ..m }, terms2)
    } else {
        (m, terms)
    }
}

/// Movement and eating of a step, with the reward terms they earn.
pub open spec fn move_and_eat(m: EnvModel, a: Action) -> (EnvModel, Seq<RewardTerm>) {
    let (m1, bumped) = move_phase(m, a);
    let t1: Seq<RewardTerm> = if bumped { seq![RewardTerm::WallBump] } else { seq![] };
    let (m2, food) = eat_phase(m1);
    let t2 = match food {
        Some(PelletKind::Pellet) => t1.push(RewardTerm::Pellet),
        Some(PelletKind::Power) => t1.push(RewardTerm::PowerPellet),
        None => t1,
    };
    (m2, t2)
}

/// One environment step: movement, eating, ghosts, termination. A finished
/// episode does not change and earns nothing.
pub open spec fn env_step(m: EnvModel, a: Action) -> (EnvModel, Seq<RewardTerm>) {
    if m.done {
        (m, seq![])
    } else {
        let (m2, t2) = move_and_eat(m, a);
        let (m3, t3) = ghost_phase(m2, 0, m2.ghosts.len() as int, t2);
        finish_phase(m3, t3)
    }
}

/// Environment states the step function accepts: a board covering every
/// cell, spawns on the board, and every ghost far enough from the `i32`
/// limits that the cells around it can be computed.
pub open spec fn env_wf(m: EnvModel) -> bool {
    &&& m.board.len() == CELLS
    &&& in_grid(m.grid.pacman_spawn)
    &&& in_grid(m.grid.ghost_spawn)
    &&& forall|i: int| 0 <= i < m.ghosts.len() ==> steppable(#[trigger] ghost_pos(m.ghosts[i]))
}

/// The arithmetic of a step stays inside the `i32` range: Pac-Man's target
/// cell is computed, and the chasing ghosts measure the distance from their
/// candidate cells on the board to Pac-Man's cell after the move.
pub open spec fn step_arith_fits(m: EnvModel, a: Action) -> bool {
    &&& i32::MIN <= m.px + action_delta(a).0 <= i32::MAX
    &&& i32::MIN <= m.py + action_delta(a).1 <= i32::MAX
    &&& crate::maze::near_board(pac_pos(move_phase(m, a).0))
}

/// A step whose counters all stay within their machine types.
pub open spec fn step_fits(m: EnvModel, a: Action) -> bool {
    let r = env_step(m, a).0;
    &&& r.score <= u32::MAX
    &&& r.lives >= 0
    &&& r.steps <= usize::MAX
}

/// One ghost move (see [`headless_ghost_step`]).
fn step_ghost(grid: &MazeGrid, g: HeadlessGhost, pac: GridPos) -> (r: HeadlessGhost)
    requires
        steppable(ghost_pos(g)),
        crate::maze::near_board(pac),
    ensures
        r == headless_ghost_step(grid@, g, pac),
{
    let mut g = g;
    if g.frightened_steps > 0 {
        g.frightened_steps -= 1;
    }
    let reverse: Option<Direction> = match g.heading {
        Some(d) => Some(d.opposite()),
        None => None,
    };
    let pos = GridPos::new(g.x, g.y);
    let moves = moves_from(grid, pos, reverse);
    proof {
        lemma_moves_allowed(grid@, pos, reverse);
    }
    if moves.len() == 0 {
        return g;
    }
    let cells = cells_toward(&moves, pos);
    assert forall|j: int| 0 <= j < cells.len() implies #[trigger] manhattan_spec(pac, cells@[j]) <= i32::MAX by {
        assert(cells@[j] == step_cell(pos, moves@[j]));
        assert(!grid@.wall_at(step_cell(pos, moves@[j])));
        crate::maze::lemma_near_board(pac, cells@[j]);
    }
    if g.frightened_steps > 0 {
        let r = g.next_random() % (moves.len() as u64);
        let k = r as usize;
        let c = cells[k];
        g.x = c.x;
        g.y = c.y;
        g.heading = Some(moves[k]);
        return g;
    }
    let k = closest_candidate(&cells, pac);
    let c = cells[k];
    g.x = c.x;
    g.y = c.y;
    g.heading = Some(moves[k]);
    g
}

/// A ghost either stays where it is or moves onto an open cell of the board.
pub proof fn lemma_ghost_step_lands_on_board(grid: MazeModel, g: HeadlessGhost, pac: GridPos)
    ensures
        ghost_pos(headless_ghost_step(grid, g, pac)) == ghost_pos(g) || (in_grid(
            ghost_pos(headless_ghost_step(grid, g, pac)),
        ) && !grid.wall_at(ghost_pos(headless_ghost_step(grid, g, pac)))),
{
    let moves = headless_moves(grid, g);
    let cells = candidate_cells(moves, ghost_pos(g));
    lemma_moves_allowed(grid, ghost_pos(g), reverse_heading(g.heading));
    if moves.len() > 0 {
        lemma_closest_index_in_range(cells, pac);
        let r = headless_ghost_step(grid, g, pac);
        let k = if r.frightened_steps > 0 {
            (xorshift64(g.rng_state) % (moves.len() as u64)) as int
        } else {
            closest_index(cells, pac)
        };
        assert(0 <= k < moves.len());
        assert(cells[k] == step_cell(ghost_pos(g), moves[k]));
        assert(ghost_pos(r) == cells[k]);
    }
}

/// Resetting positions keeps the state acceptable.
pub proof fn lemma_reset_positions_wf(m: EnvModel)
    requires
        m.board.len() == CELLS,
        in_grid(m.grid.pacman_spawn),
        in_grid(m.grid.ghost_spawn),
    ensures
        env_wf(reset_positions_spec(m)),
{
}

/// The ghost phase only touches positions, the fright counters, the score
/// (upward) and at most one life; it keeps acceptable states acceptable.
pub proof fn lemma_ghost_phase_frame(m: EnvModel, i: int, n: int, terms: Seq<RewardTerm>)
    requires
        env_wf(m),
    ensures
        env_wf(ghost_phase(m, i, n, terms).0),
        ghost_phase(m, i, n, terms).0.score >= m.score,
        m.lives - 1 <= ghost_phase(m, i, n, terms).0.lives <= m.lives,
        ghost_phase(m, i, n, terms).0.board == m.board,
        ghost_phase(m, i, n, terms).0.grid == m.grid,
        ghost_phase(m, i, n, terms).0.steps == m.steps,
        ghost_phase(m, i, n, terms).0.max_steps == m.max_steps,
        ghost_phase(m, i, n, terms).0.total_pellets == m.total_pellets,
        ghost_phase(m, i, n, terms).0.done == m.done,
        (0 <= i < n && i < m.ghosts.len() && ghost_pos(
            headless_ghost_step(m.grid, m.ghosts[i], pac_pos(m)),
        ) == pac_pos(m) && headless_ghost_step(m.grid, m.ghosts[i], pac_pos(m)).frightened_steps
            > 0) ==> ghost_phase(m, i, n, terms).0.score >= m.score + 200,
    decreases n - i,
{
    if i >= n || i < 0 || i >= m.ghosts.len() {
    } else {
        let g = headless_ghost_step(m.grid, m.ghosts[i], pac_pos(m));
        lemma_ghost_step_lands_on_board(m.grid, m.ghosts[i], pac_pos(m));
        let m1 = EnvModel { ghosts: m.ghosts.update(i, g), ..m };
        if g.x == m.px && g.y == m.py {
            if g.frightened_steps > 0 {
                let home = HeadlessGhost {
                    x: m.grid.ghost_spawn.x,
                    y: m.grid.ghost_spawn.y,
                    frightened_steps: 0,
                    rng_state: g.rng_state,
                    heading: None,
                };
                let m2 = EnvModel { score: m.score + 200, ghosts: m.ghosts.update(i, home), ..m };
                assert(env_wf(m2)) by {
                    assert forall|j: int| 0 <= j < m2.ghosts.len() implies steppable(#[trigger] ghost_pos(m2.ghosts[j])) by {
                        if j != i {
                            assert(steppable(ghost_pos(m.ghosts[j])));
                        }
                    }
                }
                lemma_ghost_phase_frame(m2, i + 1, n, terms.push(RewardTerm::GhostEaten));
            } else {
                lemma_reset_positions_wf(EnvModel { lives: m.lives - 1, ..m1 });
            }
        } else {
            assert(env_wf(m1)) by {
                assert forall|j: int| 0 <= j < m1.ghosts.len() implies steppable(#[trigger] ghost_pos(m1.ghosts[j])) by {
                    if j != i {
                        assert(steppable(ghost_pos(m.ghosts[j])));
                    } else {
                        assert(steppable(ghost_pos(m.ghosts[i])));
                    }
                }
            }
            lemma_ghost_phase_frame(m1, i + 1, n, terms);
        }
    }
}

/// A copy of a list of ghosts.
fn copy_ghosts(v: &Vec<HeadlessGhost>) -> (r: Vec<HeadlessGhost>)
    ensures
        r@ == v@,
{
    let mut out: Vec<HeadlessGhost> = Vec::new();
    let mut i: usize = 0;
    while i < v.len()
        invariant
            i <= v.len(),
            out@ == v@.take(i as int),
        decreases v.len() - i,
    {
        out.push(v[i]);
        assert(v@.take(i + 1) =~= v@.take(i as int).push(v@[i as int]));
        i += 1;
    }
    assert(v@.take(v.len() as int) =~= v@);
    out
}

/// Sets every ghost's fright counter to 40 steps.
fn frighten_ghosts(ghosts: &mut Vec<HeadlessGhost>)
    ensures
        final(ghosts)@ == frighten_all_ghosts(old(ghosts)@),
{
    let ghost start = ghosts@;
    let mut j: usize = 0;
    while j < ghosts.len()
        invariant
            j <= ghosts.len(),
            ghosts.len() == start.len(),
            forall|k: int| 0 <= k < j ==> #[trigger] ghosts@[k] == frighten_all_ghosts(start)[k],
            forall|k: int| j <= k < ghosts.len() ==> #[trigger] ghosts@[k] == start[k],
        decreases ghosts.len() - j,
    {
        let mut g = ghosts[j];
        g.frightened_steps = 40;
        ghosts.set(j, g);
        j += 1;
    }
    assert(ghosts@ =~= frighten_all_ghosts(start));
}

/// Replacing one ghost by a ghost whose neighbouring cells can be computed
/// keeps the state acceptable.
pub proof fn lemma_env_wf_update_ghost(m: EnvModel, i: int, g: HeadlessGhost)
    requires
        env_wf(m),
        0 <= i < m.ghosts.len(),
        steppable(ghost_pos(g)),
    ensures
        env_wf(EnvModel { ghosts: m.ghosts.update(i, g), ..m }),
{
    let m1 = EnvModel { ghosts: m.ghosts.update(i, g), ..m };
    assert forall|j: int| 0 <= j < m1.ghosts.len() implies steppable(#[trigger] ghost_pos(m1.ghosts[j])) by {
        if j != i {
            assert(steppable(ghost_pos(m.ghosts[j])));
        }
    }
}

/// How one ghost weighs on the observation: the slot of the direction it
/// lies in (`8` up, `9` down, `10` left, `11` right; none for a ghost on
/// Pac-Man's own cell), its Manhattan distance, and whether it is frightened.
/// It adds `+1/(1 + distance)` to its slot, or `-1/(1 + distance)` when
/// frightened.
#[derive(Debug, Clone, Copy, PartialEq, Eq, Structural)]
pub struct GhostThreat {
    pub slot: Option<usize>,
    pub distance: i32,
    pub frightened: bool,
}

/// The threat a ghost at `ghost` exerts on Pac-Man at `pac`: its offset's
/// dominant axis and sign pick the direction slot (the horizontal axis wins
/// ties), in the order up, down, left, right of slots `8..12`.
pub open spec fn threat_at(ghost: GridPos, frightened: bool, pac: GridPos) -> GhostThreat {
    let dx = ghost.x - pac.x;
    let dy = ghost.y - pac.y;
    let ax = crate::grid_pos::abs_spec(dx);
    let ay = crate::grid_pos::abs_spec(dy);
    GhostThreat {
        slot: if dx == 0 && dy == 0 {
            None
        } else if ax >= ay {
            if dx < 0 { Some(10usize) } else { Some(11usize) }
        } else {
            if dy > 0 { Some(8usize) } else { Some(9usize) }
        },
        distance: (ax + ay) as i32,
        frightened,
    }
}

/// The threat of a headless ghost (frightened while its counter runs).
pub open spec fn threat_of(g: HeadlessGhost, pac: GridPos) -> GhostThreat {
    threat_at(ghost_pos(g), g.frightened_steps > 0, pac)
}

/// The threat a ghost at `ghost` exerts on Pac-Man at `pac` (see
/// [`threat_at`]).
pub fn ghost_threat(ghost: GridPos, frightened: bool, pac: GridPos) -> (r: GhostThreat)
    requires
        manhattan_spec(ghost, pac) <= i32::MAX,
    ensures
        r == threat_at(ghost, frightened, pac),
{
    let dx = ghost.x - pac.x;
    let dy = ghost.y - pac.y;
    let ax: i32 = if dx < 0 { -dx } else { dx };
    let ay: i32 = if dy < 0 { -dy } else { dy };
    let slot: Option<usize> = if dx == 0 && dy == 0 {
        None
    } else if ax >= ay {
        if dx < 0 { Some(10) } else { Some(11) }
    } else {
        if dy > 0 { Some(8) } else { Some(9) }
    };
    GhostThreat { slot, distance: ax + ay, frightened }
}

/// Observation slot of the one-hot facing flag.
pub open spec fn facing_slot_of(d: Direction) -> usize {
    match d {
        Direction::Up => 15,
        Direction::Down => 16,
        Direction::Left => 17,
        Direction::Right => 18,
    }
}

/// Observation vector dimensionality.
pub const OBS_DIM: usize = 20;

/// The integer facts from which the observation vector is assembled:
/// `[0..4]` wall presence up/down/left/right, `[4..8]` pellet adjacency,
/// `[8..12]` per-ghost directional pressure `±1/(1 + distance)`
/// accumulated in ghost order (see [`GhostThreat`]), `[12]` fright flag, `[13]` remaining/total pellet fraction,
/// `[15..19]` facing one-hot (`facing_slot`), `[14]` and `[19]` zero.
#[derive(Debug)]
pub struct ObservationFeatures {
    pub walls: Vec<bool>,
    pub food: Vec<bool>,
    pub threats: Vec<GhostThreat>,
    pub fright_active: bool,
    pub remaining: usize,
    pub total: usize,
    pub facing_slot: usize,
}

/// Observation slot of the facing flag (see [`facing_slot_of`]).
pub fn facing_slot(d: Direction) -> (r: usize)
    ensures
        r == facing_slot_of(d),
{
    match d {
        Direction::Up => 15,
        Direction::Down => 16,
        Direction::Left => 17,
        Direction::Right => 18,
    }
}

/// Wall presence and food presence on the four cells next to `pac`, in the
/// order up, down, left, right.
fn neighbor_facts(grid: &MazeGrid, pellets: &PelletMap, pac: GridPos) -> (r: (Vec<bool>, Vec<bool>))
    requires
        pellets.wf(),
        steppable(pac),
    ensures
        r.0@.len() == 4,
        r.1@.len() == 4,
        forall|k: int| 0 <= k < 4 ==> #[trigger] r.0@[k] == grid@.wall_at(neighbor(pac, k)),
        forall|k: int| 0 <= k < 4 ==> #[trigger] r.1@[k] == (food_at(pellets@, neighbor(pac, k)) is Some),
{
    let mut walls: Vec<bool> = Vec::new();
    let mut food: Vec<bool> = Vec::new();
    let mut k: usize = 0;
    while k < 4
        invariant
            k <= 4,
            pellets.wf(),
            steppable(pac),
            walls@.len() == k,
            food@.len() == k,
            forall|j: int| 0 <= j < k ==> #[trigger] walls@[j] == grid@.wall_at(neighbor(pac, j)),
            forall|j: int| 0 <= j < k ==> #[trigger] food@[j] == (food_at(pellets@, neighbor(pac, j)) is Some),
        decreases 4 - k,
    {
        let d = Direction::ALL[k].to_delta();
        assert(Direction::ALL[k as int] == direction_at(k as int));
        let c = GridPos::new(pac.x + d.x, pac.y + d.y);
        walls.push(grid.is_wall(c));
        food.push(pellets.has_food(c));
        k += 1;
    }
    (walls, food)
}

/// The integer facts behind the observation vector of the live game, built
/// by the same rules as [`PacEnv::observation_features`]: Pac-Man at `pac`
/// facing `facing`, the ghosts at their cells in their modes (a ghost
/// pushes negatively while frightened), and `total` the food count the
/// level started with.
pub fn live_observation_features(
    grid: &MazeGrid,
    pellets: &PelletMap,
    pac: GridPos,
    facing: Direction,
    ghosts: &Vec<(GridPos, crate::ghosts::GhostMode)>,
    total: usize,
) -> (r: ObservationFeatures)
    requires
        pellets.wf(),
        steppable(pac),
        forall|i: int| 0 <= i < ghosts@.len() ==> manhattan_spec(#[trigger] ghosts@[i].0, pac) <= i32::MAX,
    ensures
        r.walls@.len() == 4,
        r.food@.len() == 4,
        forall|k: int| 0 <= k < 4 ==> #[trigger] r.walls@[k] == grid@.wall_at(neighbor(pac, k)),
        forall|k: int| 0 <= k < 4 ==> #[trigger] r.food@[k] == (food_at(pellets@, neighbor(pac, k)) is Some),
        r.threats@.len() == ghosts@.len(),
        forall|i: int| 0 <= i < ghosts@.len() ==> #[trigger] r.threats@[i] == threat_at(
            ghosts@[i].0,
            ghosts@[i].1 == crate::ghosts::GhostMode::Frightened,
            pac,
        ),
        r.fright_active == exists|i: int|
            0 <= i < ghosts@.len() && #[trigger] ghosts@[i].1 == crate::ghosts::GhostMode::Frightened,
        r.remaining == food_count(pellets@),
        r.total == total,
        r.facing_slot == facing_slot_of(facing),
{
    let (walls, food) = neighbor_facts(grid, pellets, pac);
    let mut threats: Vec<GhostThreat> = Vec::new();
    let mut fright_active = false;
    let mut i: usize = 0;
    while i < ghosts.len()
        invariant
            i <= ghosts.len(),
            forall|j: int| 0 <= j < ghosts@.len() ==> manhattan_spec(#[trigger] ghosts@[j].0, pac) <= i32::MAX,
            threats@.len() == i,
            forall|j: int| 0 <= j < i ==> #[trigger] threats@[j] == threat_at(
                ghosts@[j].0,
                ghosts@[j].1 == crate::ghosts::GhostMode::Frightened,
                pac,
            ),
            fright_active == exists|j: int|
                0 <= j < i && #[trigger] ghosts@[j].1 == crate::ghosts::GhostMode::Frightened,
        decreases ghosts.len() - i,
    {
        let (pos, mode) = ghosts[i];
        let frightened = mode == crate::ghosts::GhostMode::Frightened;
        assert(manhattan_spec(ghosts@[i as int].0, pac) <= i32::MAX);
        threats.push(ghost_threat(pos, frightened, pac));
        if frightened {
            assert(ghosts@[i as int].1 == crate::ghosts::GhostMode::Frightened);
            fright_active = true;
        }
        i += 1;
    }
    ObservationFeatures {
        walls,
        food,
        threats,
        fright_active,
        remaining: pellets.remaining(),
        total,
        facing_slot: facing_slot(facing),
    }
}

/// Pac-Man and every ghost stand on open cells.
pub open spec fn on_open_cells(m: EnvModel) -> bool {
    &&& !m.grid.wall_at(pac_pos(m))
    &&& forall|i: int| 0 <= i < m.ghosts.len() ==> !m.grid.wall_at(#[trigger] ghost_pos(m.ghosts[i]))
}

/// Respawning puts everyone on open cells of the blueprint maze.
pub proof fn lemma_reset_positions_open(m: EnvModel)
    requires
        crate::maze::is_blueprint_maze(m.grid),
    ensures
        on_open_cells(reset_positions_spec(m)),
{
    crate::maze::lemma_blueprint_spawns(m.grid);
    let r = reset_positions_spec(m);
    assert forall|i: int| 0 <= i < r.ghosts.len() implies !r.grid.wall_at(#[trigger] ghost_pos(r.ghosts[i])) by {
        assert(ghost_pos(r.ghosts[i]) == GridPos { x: (9 + i) as i32, y: 7 });
        assert(!m.grid.wall_at(GridPos { x: (9 + i) as i32, y: 7 }));
    }
}

/// A fresh environment is acceptable to the step function and has everyone
/// on open cells.
pub proof fn lemma_fresh_env_ok(grid: MazeModel)
    requires
        crate::maze::is_blueprint_maze(grid),
    ensures
        env_wf(fresh_env(grid)),
        on_open_cells(fresh_env(grid)),
{
    crate::maze::lemma_spawns_in_grid(grid);
    crate::maze::lemma_initial_board_food(grid, grid.pacman_spawn);
    lemma_reset_positions_open(fresh_env(grid));
    assert(reset_positions_spec(fresh_env(grid)) == fresh_env(grid));
}

/// The ghost phase keeps everyone on open cells.
proof fn lemma_ghost_phase_open(m: EnvModel, i: int, n: int, terms: Seq<RewardTerm>)
    requires
        crate::maze::is_blueprint_maze(m.grid),
        on_open_cells(m),
    ensures
        on_open_cells(ghost_phase(m, i, n, terms).0),
    decreases n - i,
{
    if i >= n || i < 0 || i >= m.ghosts.len() {
    } else {
        let g = headless_ghost_step(m.grid, m.ghosts[i], pac_pos(m));
        lemma_ghost_step_lands_on_board(m.grid, m.ghosts[i], pac_pos(m));
        let m1 = EnvModel { ghosts: m.ghosts.update(i, g), ..m };
        assert(!m.grid.wall_at(ghost_pos(m.ghosts[i])));
        if g.x == m.px && g.y == m.py {
            if g.frightened_steps > 0 {
                crate::maze::lemma_blueprint_spawns(m.grid);
                let home = HeadlessGhost {
                    x: m.grid.ghost_spawn.x,
                    y: m.grid.ghost_spawn.y,
                    frightened_steps: 0,
                    rng_state: g.rng_state,
                    heading: None,
                };
                let m2 = EnvModel { score: m.score + 200, ghosts: m.ghosts.update(i, home), ..m };
                assert(!m.grid.wall_at(GridPos { x: 10, y: 7 }));
                assert forall|j: int| 0 <= j < m2.ghosts.len() implies !m2.grid.wall_at(#[trigger] ghost_pos(m2.ghosts[j])) by {
                    if j != i {
                        assert(!m.grid.wall_at(ghost_pos(m.ghosts[j])));
                    }
                }
                lemma_ghost_phase_open(m2, i + 1, n, terms.push(RewardTerm::GhostEaten));
            } else {
                lemma_reset_positions_open(EnvModel { lives: m.lives - 1, ..m1 });
            }
        } else {
            assert forall|j: int| 0 <= j < m1.ghosts.len() implies !m1.grid.wall_at(#[trigger] ghost_pos(m1.ghosts[j])) by {
                if j != i {
                    assert(!m.grid.wall_at(ghost_pos(m.ghosts[j])));
                }
            }
            lemma_ghost_phase_open(m1, i + 1, n, terms);
        }
    }
}

/// Movement and eating keep the state acceptable; they count one more step,
/// leave the ghosts where they are (a power pellet sets every fright counter
/// to 40), raise the score by at most 50, and remove only the food at
/// Pac-Man's cell after the move.
pub proof fn lemma_move_and_eat(m: EnvModel, a: Action)
    requires
        env_wf(m),
    ensures
        ({
            let m1 = move_phase(m, a).0;
            let m2 = move_and_eat(m, a).0;
            &&& env_wf(m2)
            &&& m2 == eat_phase(m1).0
            &&& m2.ghosts.len() == m.ghosts.len()
            &&& forall|j: int|
                0 <= j < m2.ghosts.len() ==> ghost_pos(#[trigger] m2.ghosts[j]) == ghost_pos(m.ghosts[j]) && (
                m2.ghosts[j].frightened_steps == m.ghosts[j].frightened_steps
                    || m2.ghosts[j].frightened_steps == 40)
            &&& m.score <= m2.score <= m.score + 50
            &&& m2.steps == m.steps + 1
            &&& pac_pos(m2) == pac_pos(m1)
            &&& m2.board == board_after_eat(m.board, pac_pos(m1))
            &&& food_count(m2.board) <= food_count(m.board)
            &&& m2.grid == m.grid && m2.lives == m.lives && m2.max_steps == m.max_steps
            &&& m2.total_pellets == m.total_pellets && m2.done == m.done
        }),
{
    let m1 = move_phase(m, a).0;
    let m2 = move_and_eat(m, a).0;
    crate::maze::lemma_eat_count(m1.board, pac_pos(m1));
    assert forall|j: int| 0 <= j < m2.ghosts.len() implies steppable(#[trigger] ghost_pos(m2.ghosts[j])) by {
        assert(ghost_pos(m2.ghosts[j]) == ghost_pos(m.ghosts[j]));
        assert(steppable(ghost_pos(m.ghosts[j])));
    }
}

/// Nobody walks through walls: if Pac-Man and the ghosts stand on open cells
/// before a step, they do after it.
pub proof fn lemma_step_keeps_everyone_on_open_cells(m: EnvModel, a: Action)
    requires
        crate::maze::is_blueprint_maze(m.grid),
        on_open_cells(m),
    ensures
        on_open_cells(env_step(m, a).0),
{
    if !m.done {
        let m1 = move_phase(m, a).0;
        let (m2, t2) = move_and_eat(m, a);
        assert(on_open_cells(m1));
        assert(on_open_cells(m2)) by {
            assert forall|j: int| 0 <= j < m2.ghosts.len() implies !m2.grid.wall_at(#[trigger] ghost_pos(m2.ghosts[j])) by {
                assert(!m1.grid.wall_at(ghost_pos(m1.ghosts[j])));
            }
        }
        lemma_ghost_phase_open(m2, 0, m2.ghosts.len() as int, t2);
    }
}

/// What every step guarantees: a finished episode is frozen; otherwise the
/// step counter advances by one, the score never drops, at most one life is
/// lost, food is never added, the maze, budget and pellet total never
/// change, and the episode ends as soon as no life or no food is left (a
/// cleared board earning the closing bonus).
pub proof fn lemma_step_laws(m: EnvModel, a: Action)
    requires
        env_wf(m),
    ensures
        m.done ==> env_step(m, a) == (m, Seq::<RewardTerm>::empty()),
        env_wf(env_step(m, a).0),
        !m.done ==> env_step(m, a).0.steps == m.steps + 1,
        env_step(m, a).0.score >= m.score,
        m.lives - 1 <= env_step(m, a).0.lives <= m.lives,
        food_count(env_step(m, a).0.board) <= food_count(m.board),
        env_step(m, a).0.grid == m.grid,
        env_step(m, a).0.max_steps == m.max_steps,
        env_step(m, a).0.total_pellets == m.total_pellets,
        !m.done && env_step(m, a).0.lives == 0 ==> env_step(m, a).0.done,
        !m.done && food_count(env_step(m, a).0.board) == 0 ==> env_step(m, a).0.done
            && env_step(m, a).1.last() == RewardTerm::LevelCleared,
        !m.done && env_step(m, a).0.steps >= m.max_steps ==> env_step(m, a).0.done,
{
    if !m.done {
        lemma_move_and_eat(m, a);
        let (m2, t2) = move_and_eat(m, a);
        lemma_ghost_phase_frame(m2, 0, m2.ghosts.len() as int, t2);
    }
}

/// Headless ghost rules: a ghost takes one of its moves (or stays put when
/// it has none) and then heads the way it moved; it never steps into a wall
/// and turns back onto the cell it just left only in a dead end; a chasing
/// ghost takes the move that brings it closest to Pac-Man, the first such
/// in the order up, down, left, right; the fright counter ticks down by one
/// while positive.
pub proof fn lemma_headless_ghost_rules(grid: MazeModel, g: HeadlessGhost, pac: GridPos)
    ensures
        ({
            let r = headless_ghost_step(grid, g, pac);
            let c = headless_moves(grid, g);
            &&& r.frightened_steps == (if g.frightened_steps > 0 { g.frightened_steps - 1 } else { 0 })
            &&& c.len() == 0 ==> r == (HeadlessGhost { frightened_steps: r.frightened_steps, ..g })
            &&& c.len() > 0 ==> exists|k: int|
                0 <= k < c.len() && r.heading == Some(c[k]) && ghost_pos(r) == step_cell(
                    ghost_pos(g),
                    #[trigger] c[k],
                )
            &&& c.len() > 0 ==> !grid.wall_at(ghost_pos(r))
            &&& c.len() > 0 && r.heading == reverse_heading(g.heading) ==> forall|m: int|
                0 <= m < 4 && Some(direction_at(m)) != r.heading ==> grid.wall_at(
                    #[trigger] step_cell(ghost_pos(g), direction_at(m)),
                )
            &&& c.len() > 0 && r.frightened_steps == 0 ==> forall|j: int| 0 <= j < c.len() ==>
                manhattan_spec(pac, ghost_pos(r)) <= manhattan_spec(
                    pac,
                    #[trigger] step_cell(ghost_pos(g), c[j]),
                )
        }),
{
    let c = headless_moves(grid, g);
    let cells = candidate_cells(c, ghost_pos(g));
    lemma_moves_allowed(grid, ghost_pos(g), reverse_heading(g.heading));
    if c.len() > 0 {
        lemma_closest_index_in_range(cells, pac);
        crate::grid_pos::lemma_closest_is_first_minimum(cells, pac);
        let r = headless_ghost_step(grid, g, pac);
        let k = if r.frightened_steps > 0 {
            (xorshift64(g.rng_state) % (c.len() as u64)) as int
        } else {
            closest_index(cells, pac)
        };
        assert(0 <= k < c.len());
        assert(cells[k] == step_cell(ghost_pos(g), c[k]));
        assert(ghost_pos(r) == step_cell(ghost_pos(g), c[k]));
        assert(r.heading == Some(c[k]));
        if r.frightened_steps == 0 {
            assert forall|j: int| 0 <= j < c.len() implies manhattan_spec(pac, ghost_pos(r)) <= manhattan_spec(
                pac,
                #[trigger] step_cell(ghost_pos(g), c[j]),
            ) by {
                assert(cells[j] == step_cell(ghost_pos(g), c[j]));
            }
        }
        if r.heading == reverse_heading(g.heading) {
            assert(reverse_heading(g.heading) == Some(c[k]));
        }
    }
}

/// A freshly built environment on maze `grid`: full board, everyone at the
/// spawns, 3 lives, a 600-step horizon.
pub open spec fn fresh_env(grid: MazeModel) -> EnvModel {
    EnvModel {
        grid,
        board: initial_board(grid),
        total_pellets: food_count(initial_board(grid)) as int,
        px: grid.pacman_spawn.x,
        py: grid.pacman_spawn.y,
        facing: Direction::Left,
        ghosts: initial_ghosts(grid.ghost_spawn),
        steps: 0,
        max_steps: 600,
        score: 0,
        lives: 3,
        done: false,
    }
}

/// The state after a full restart: the board is restored and the counters
/// cleared; the step budget and the recorded pellet total are kept.
pub open spec fn reset_spec(m: EnvModel) -> EnvModel {
    EnvModel { total_pellets: m.total_pellets, max_steps: m.max_steps, ..fresh_env(m.grid) }
}

/// The states an environment passes through from a fresh one by steps and
/// resets: the blueprint maze with everyone on open cells, four ghosts
/// frightened for at most 40 more steps, at most 3 lives, a 600-step budget
/// not yet exceeded (and not yet reached, nor the lives used up, while the
/// episode runs), a score of at most 850 per step taken, the recorded pellet
/// total of the full board, and only food of the full board left on it.
pub open spec fn reachable_inv(m: EnvModel) -> bool {
    &&& crate::maze::is_blueprint_maze(m.grid)
    &&& env_wf(m)
    &&& on_open_cells(m)
    &&& m.ghosts.len() == 4
    &&& forall|i: int| 0 <= i < m.ghosts.len() ==> #[trigger] m.ghosts[i].frightened_steps <= 40
    &&& 0 <= m.lives <= 3
    &&& m.max_steps == 600
    &&& 0 <= m.steps <= m.max_steps
    &&& !m.done ==> m.steps < m.max_steps && m.lives > 0
    &&& 0 <= m.score <= 850 * m.steps
    &&& m.total_pellets == food_count(initial_board(m.grid))
    &&& forall|p: GridPos| #[trigger] food_at(m.board, p) is Some ==> food_at(m.board, p) == food_at(initial_board(m.grid), p)
}

/// The ghost phase keeps four ghosts with at most 40 steps of fright, and
/// each ghost it handles adds at most 200 to the score.
proof fn lemma_ghost_phase_bounds(m: EnvModel, i: int, n: int, terms: Seq<RewardTerm>)
    requires
        m.ghosts.len() == 4,
        forall|j: int| 0 <= j < m.ghosts.len() ==> #[trigger] m.ghosts[j].frightened_steps <= 40,
        0 <= i,
    ensures
        ghost_phase(m, i, n, terms).0.ghosts.len() == 4,
        forall|j: int| 0 <= j < 4 ==> #[trigger] ghost_phase(m, i, n, terms).0.ghosts[j].frightened_steps <= 40,
        ghost_phase(m, i, n, terms).0.score <= m.score + 200 * (if n > i { n - i } else { 0 }),
    decreases n - i,
{
    if i >= n || i < 0 || i >= m.ghosts.len() {
    } else {
        let g = headless_ghost_step(m.grid, m.ghosts[i], pac_pos(m));
        lemma_headless_ghost_rules(m.grid, m.ghosts[i], pac_pos(m));
        let m1 = EnvModel { ghosts: m.ghosts.update(i, g), ..m };
        if g.x == m.px && g.y == m.py {
            if g.frightened_steps > 0 {
                let home = HeadlessGhost {
                    x: m.grid.ghost_spawn.x,
                    y: m.grid.ghost_spawn.y,
                    frightened_steps: 0,
                    rng_state: g.rng_state,
                    heading: None,
                };
                let m2 = EnvModel { score: m.score + 200, ghosts: m.ghosts.update(i, home), ..m };
                assert forall|j: int| 0 <= j < m2.ghosts.len() implies #[trigger] m2.ghosts[j].frightened_steps <= 40 by {
                    if j != i {
                        assert(m.ghosts[j].frightened_steps <= 40);
                    }
                }
                lemma_ghost_phase_bounds(m2, i + 1, n, terms.push(RewardTerm::GhostEaten));
            } else {
                let r = reset_positions_spec(EnvModel { lives: m.lives - 1, ..m1 });
                assert forall|j: int| 0 <= j < 4 implies #[trigger] r.ghosts[j].frightened_steps <= 40 by {}
            }
        } else {
            assert forall|j: int| 0 <= j < m1.ghosts.len() implies #[trigger] m1.ghosts[j].frightened_steps <= 40 by {
                if j != i {
                    assert(m.ghosts[j].frightened_steps <= 40);
                } else {
                    assert(m.ghosts[i].frightened_steps <= 40);
                }
            }
            lemma_ghost_phase_bounds(m1, i + 1, n, terms);
        }
    }
}

/// Eating only removes food: what is left at a cell after eating was there
/// before.
proof fn lemma_eat_only_removes(board: Seq<Option<PelletKind>>, p: GridPos, q: GridPos)
    requires
        board.len() == CELLS,
    ensures
        food_at(board_after_eat(board, p), q) is Some ==> food_at(board_after_eat(board, p), q) == food_at(board, q),
{
    if p != q {
        crate::maze::lemma_eat_is_local(board, p, q);
    }
}

/// A fresh environment is reachable.
pub proof fn lemma_fresh_env_reachable(grid: MazeModel)
    requires
        crate::maze::is_blueprint_maze(grid),
    ensures
        reachable_inv(fresh_env(grid)),
{
    lemma_fresh_env_ok(grid);
}

/// A full restart of a reachable environment is the fresh environment, so
/// it is reachable again.
pub proof fn lemma_reset_reachable(m: EnvModel)
    requires
        reachable_inv(m),
    ensures
        reset_spec(m) == fresh_env(m.grid),
        reachable_inv(reset_spec(m)),
{
    assert(reset_spec(m) == fresh_env(m.grid));
    lemma_fresh_env_ok(m.grid);
}

/// From a reachable state every step fits the machine counters and leads to
/// a reachable state.
pub proof fn lemma_reachable_step(m: EnvModel, a: Action)
    requires
        reachable_inv(m),
    ensures
        step_fits(m, a),
        step_arith_fits(m, a),
        reachable_inv(env_step(m, a).0),
{
    crate::maze::lemma_in_grid_near_board(pac_pos(move_phase(m, a).0));
    lemma_step_laws(m, a);
    lemma_step_keeps_everyone_on_open_cells(m, a);
    if !m.done {
        let m1 = move_phase(m, a).0;
        lemma_move_and_eat(m, a);
        let (m2, t2) = move_and_eat(m, a);
        assert forall|j: int| 0 <= j < m2.ghosts.len() implies #[trigger] m2.ghosts[j].frightened_steps <= 40 by {
            assert(m.ghosts[j].frightened_steps <= 40);
        }
        lemma_ghost_phase_bounds(m2, 0, m2.ghosts.len() as int, t2);
        lemma_ghost_phase_frame(m2, 0, m2.ghosts.len() as int, t2);
        let m3 = ghost_phase(m2, 0, m2.ghosts.len() as int, t2).0;
        let r = env_step(m, a).0;
        assert(r.board == m3.board);
        assert(m3.board == m2.board);
        assert forall|p: GridPos| #[trigger] food_at(r.board, p) is Some implies food_at(r.board, p) == food_at(
            initial_board(r.grid),
            p,
        ) by {
            lemma_eat_only_removes(m1.board, pac_pos(m1), p);
        }
        assert(r.ghosts == m3.ghosts);
        assert(r.score <= 850 * r.steps);
    }
}

/// The state after taking `actions` one after another from `m`.
pub open spec fn run_actions(m: EnvModel, actions: Seq<Action>) -> EnvModel
    decreases actions.len(),
{
    if actions.len() == 0 {
        m
    } else {
        run_actions(env_step(m, actions[0]).0, actions.drop_first())
    }
}

/// Any sequence of actions from a reachable state leads to a reachable
/// state (so every step on the way fits the machine counters).
pub proof fn lemma_run_reachable(m: EnvModel, actions: Seq<Action>)
    requires
        reachable_inv(m),
    ensures
        reachable_inv(run_actions(m, actions)),
    decreases actions.len(),
{
    if actions.len() > 0 {
        lemma_reachable_step(m, actions[0]);
        lemma_run_reachable(env_step(m, actions[0]).0, actions.drop_first());
    }
}

/// The environment is deterministic: every fresh environment is the same
/// state, so two runs that take the same actions from fresh environments
/// pass through the same states and earn the same reward terms.
pub proof fn lemma_fresh_envs_agree(g1: MazeModel, g2: MazeModel, actions: Seq<Action>)
    requires
        crate::maze::is_blueprint_maze(g1),
        crate::maze::is_blueprint_maze(g2),
    ensures
        fresh_env(g1) == fresh_env(g2),
        run_actions(fresh_env(g1), actions) == run_actions(fresh_env(g2), actions),
{
    crate::maze::lemma_blueprint_unique(g1, g2);
}

/// Outcome of one environment step.
#[derive(Debug)]
pub struct StepReport {
    /// The reward components earned, in order; the step's reward is their sum.
    pub terms: Vec<RewardTerm>,
    /// Whether the episode has terminated.
    pub done: bool,
}

impl StepReport {
    /// The step's reward in hundredths: the sum of its terms' values.
    pub fn reward_centis(&self) -> (r: i128)
        ensures
            r == reward_centis(self.terms@),
    {
        total_centis(&self.terms)
    }
}

/// Full deterministic game state for headless training.
#[derive(Debug)]
pub struct PacEnv {
    /// The maze (always the blueprint maze).
    pub grid: MazeGrid,
    /// The food left on the board.
    pub pellets: PelletMap,
    /// Food on the board when the episode started.
    pub total_pellets: usize,
    pub px: i32,
    pub py: i32,
    pub facing: Direction,
    pub ghosts: Vec<HeadlessGhost>,
    pub steps: usize,
    pub max_steps: usize,
    pub score: u32,
    pub lives: u32,
    /// Whether the episode has terminated.
    pub done: bool,
}

impl View for PacEnv {
    type V = EnvModel;

    open spec fn view(&self) -> EnvModel {
        EnvModel {
            grid: self.grid@,
            board: self.pellets@,
            total_pellets: self.total_pellets as int,
            px: self.px,
            py: self.py,
            facing: self.facing,
            ghosts: self.ghosts@,
            steps: self.steps as int,
            max_steps: self.max_steps as int,
            score: self.score as int,
            lives: self.lives as int,
            done: self.done,
        }
    }
}

impl Default for PacEnv {
    fn default() -> (r: Self)
        ensures
            r.wf(),
            crate::maze::is_blueprint_maze(r@.grid),
            r@ == fresh_env(r@.grid),
    {
        Self::new()
    }
}

impl PacEnv {
    /// The board is well formed and the state is one the step accepts.
    pub open spec fn wf(&self) -> bool {
        &&& env_wf(self@)
        &&& self.pellets.wf()
        &&& crate::maze::is_blueprint_maze(self.grid@)
    }

    /// Creates a fresh environment with 4 chase ghosts and a 600-step horizon.
    pub fn new() -> (r: PacEnv)
        ensures
            r.wf(),
            crate::maze::is_blueprint_maze(r@.grid),
            r@ == fresh_env(r@.grid),
            reachable_inv(r@),
    {
        let grid = MazeGrid::default();
        let pellets = PelletMap::from_maze(&grid);
        let total_pellets = pellets.remaining();
        let mut env = PacEnv {
            pellets,
            total_pellets,
            grid,
            px: 0,
            py: 0,
            facing: Direction::Left,
            ghosts: Vec::new(),
            steps: 0,
            max_steps: 600,
            score: 0,
            lives: 3,
            done: false,
        };
        proof {
            crate::maze::lemma_spawns_in_grid(env.grid@);
        }
        env.reset_positions();
        proof {
            lemma_fresh_env_reachable(env@.grid);
        }
        env
    }

    /// Returns Pac-Man and the ghosts to their spawns.
    fn reset_positions(&mut self)
        requires
            in_grid(old(self)@.grid.pacman_spawn),
            in_grid(old(self)@.grid.ghost_spawn),
        ensures
            final(self)@ == reset_positions_spec(old(self)@),
            final(self).grid == old(self).grid,
            final(self).pellets == old(self).pellets,
    {
        let spawn = self.grid.pacman_spawn();
        self.px = spawn.x;
        self.py = spawn.y;
        self.facing = Direction::Left;
        let house = self.grid.ghost_spawn();
        let mut ghosts: Vec<HeadlessGhost> = Vec::new();
        let mut i: i32 = 0;
        while i < 4
            invariant
                0 <= i <= 4,
                in_grid(house),
                ghosts@ =~= initial_ghosts(house).take(i as int),
            decreases 4 - i,
        {
            ghosts.push(
                HeadlessGhost {
                    x: house.x + i - 1,
                    y: house.y,
                    frightened_steps: 0,
                    rng_state: 0x5EED_0000 + i as u64,
                    heading: None,
                },
            );
            i += 1;
        }
        assert(initial_ghosts(house).take(4) =~= initial_ghosts(house));
        self.ghosts = ghosts;
    }

    /// Restarts the episode fully (pellets restored), from any state.
    pub fn reset(&mut self)
        ensures
            final(self).wf(),
            final(self)@ == reset_spec(old(self)@),
            reachable_inv(old(self)@) ==> reachable_inv(final(self)@),
    {
        proof {
            use_type_invariant(&self.grid);
        }
        self.pellets = PelletMap::from_maze(&self.grid);
        self.steps = 0;
        self.score = 0;
        self.lives = 3;
        self.done = false;
        proof {
            crate::maze::lemma_spawns_in_grid(self.grid@);
        }
        self.reset_positions();
        proof {
            assert(self@ =~= reset_spec(old(self)@));
            if reachable_inv(old(self)@) {
                lemma_reset_reachable(old(self)@);
            }
        }
    }

    /// Whether Pac-Man currently has a fright advantage over some ghost.
    pub fn frightened_active(&self) -> (r: bool)
        ensures
            r == exists|i: int|
                0 <= i < self@.ghosts.len() && #[trigger] self@.ghosts[i].frightened_steps > 0,
    {
        let mut i: usize = 0;
        while i < self.ghosts.len()
            invariant
                i <= self.ghosts.len(),
                forall|j: int| 0 <= j < i ==> #[trigger] self.ghosts@[j].frightened_steps == 0,
            decreases self.ghosts.len() - i,
        {
            if self.ghosts[i].frightened_steps > 0 {
                assert(self@.ghosts[i as int].frightened_steps > 0);
                return true;
            }
            i += 1;
        }
        assert(forall|j: int| 0 <= j < self@.ghosts.len() ==> #[trigger] self@.ghosts[j].frightened_steps == 0);
        false
    }

    /// Moves ghost `idx` one step (no-op for an out-of-range index).
    fn ghost_step(&mut self, idx: usize)
        requires
            env_wf(old(self)@),
            crate::maze::near_board(pac_pos(old(self)@)),
        ensures
            idx < old(self)@.ghosts.len() ==> final(self)@ == (EnvModel {
                ghosts: old(self)@.ghosts.update(
                    idx as int,
                    headless_ghost_step(old(self)@.grid, old(self)@.ghosts[idx as int], pac_pos(old(self)@)),
                ),
                ..old(self)@
            }),
            idx >= old(self)@.ghosts.len() ==> final(self)@ == old(self)@,
            final(self).grid == old(self).grid,
            final(self).pellets == old(self).pellets,
    {
        if idx >= self.ghosts.len() {
            return;
        }
        let pac = GridPos::new(self.px, self.py);
        let g = self.ghosts[idx];
        assert(steppable(ghost_pos(self@.ghosts[idx as int])));
        let moved = step_ghost(&self.grid, g, pac);
        self.ghosts.set(idx, moved);
    }

    /// Applies one action and reports the reward terms earned and whether
    /// the episode is over (see [`env_step`]).
    pub fn step(&mut self, action: Action) -> (r: StepReport)
        requires
            old(self).wf(),
            step_fits(old(self)@, action),
            step_arith_fits(old(self)@, action),
        ensures
            final(self).wf(),
            (final(self)@, r.terms@) == env_step(old(self)@, action),
            r.done == final(self)@.done,
            reachable_inv(old(self)@) ==> reachable_inv(final(self)@),
    {
        proof {
            if reachable_inv(old(self)@) {
                lemma_reachable_step(old(self)@, action);
            }
        }
        if self.done {
            return StepReport { terms: Vec::new(), done: true };
        }
        let ghost m0 = self@;
        let ghost mm1 = move_phase(m0, action).0;
        let ghost t1: Seq<RewardTerm> = if move_phase(m0, action).1 {
            seq![RewardTerm::WallBump]
        } else {
            seq![]
        };
        let ghost mm2 = move_and_eat(m0, action).0;
        let ghost t2 = move_and_eat(m0, action).1;
        let ghost target = ghost_phase(mm2, 0, mm2.ghosts.len() as int, t2);
        proof {
            lemma_move_and_eat(m0, action);
            lemma_ghost_phase_frame(mm2, 0, mm2.ghosts.len() as int, t2);
        }
        self.steps += 1;
        let (dx, dy) = action.delta();
        let nx = self.px + dx;
        let ny = self.py + dy;
        let mut terms: Vec<RewardTerm> = Vec::new();
        if self.grid.is_wall(GridPos::new(nx, ny)) {
            terms.push(RewardTerm::WallBump);
        } else {
            self.px = nx;
            self.py = ny;
            self.facing = action_face(action);
        }
        assert(self@ == mm1);
        assert(terms@ =~= t1);
        let here = GridPos::new(self.px, self.py);
        let eaten = self.pellets.eat(here);
        match eaten {
            Some(PelletKind::Pellet) => {
                terms.push(RewardTerm::Pellet);
                self.score += 10;
            },
            Some(PelletKind::Power) => {
                terms.push(RewardTerm::PowerPellet);
                self.score += 50;
                frighten_ghosts(&mut self.ghosts);
            },
            None => {},
        }
        assert(self@ == mm2);
        assert(terms@ =~= t2);
        let n = self.ghosts.len();
        let mut i: usize = 0;
        let mut stop = false;
        while i < n && !stop
            invariant
                i <= n,
                n == mm2.ghosts.len(),
                env_wf(self@),
                self.pellets.wf(),
                crate::maze::is_blueprint_maze(self.grid@),
                self.grid@ == mm2.grid,
                self@.board == mm2.board,
                self@.steps == mm2.steps,
                self@.max_steps == mm2.max_steps,
                self@.total_pellets == mm2.total_pellets,
                !self@.done,
                target == ghost_phase(mm2, 0, n as int, t2),
                target.0.score <= u32::MAX,
                target.0.lives >= 0,
                !stop ==> self.ghosts.len() == n,
                !stop ==> crate::maze::near_board(pac_pos(self@)),
                !stop ==> ghost_phase(self@, i as int, n as int, terms@) == target,
                stop ==> (self@, terms@) == target,
            decreases n - i,
        {
            proof {
                lemma_ghost_phase_frame(self@, i as int, n as int, terms@);
                lemma_ghost_step_lands_on_board(self@.grid, self@.ghosts[i as int], pac_pos(self@));
                assert(steppable(ghost_pos(self@.ghosts[i as int])));
                lemma_env_wf_update_ghost(
                    self@,
                    i as int,
                    headless_ghost_step(self@.grid, self@.ghosts[i as int], pac_pos(self@)),
                );
            }
            let ghost before = self@;
            self.ghost_step(i);
            let g = self.ghosts[i];
            if g.x == self.px && g.y == self.py {
                if g.frightened_steps > 0 {
                    terms.push(RewardTerm::GhostEaten);
                    self.score += 200;
                    let house = self.grid.ghost_spawn();
                    self.ghosts.set(
                        i,
                        HeadlessGhost {
                            x: house.x,
                            y: house.y,
                            frightened_steps: 0,
                            rng_state: g.rng_state,
                            heading: None,
                        },
                    );
                    proof {
                        assert(self@.ghosts =~= before.ghosts.update(
                            i as int,
                            HeadlessGhost {
                                x: house.x,
                                y: house.y,
                                frightened_steps: 0,
                                rng_state: g.rng_state,
                                heading: None,
                            },
                        ));
                        lemma_env_wf_update_ghost(
                            before,
                            i as int,
                            HeadlessGhost {
                                x: house.x,
                                y: house.y,
                                frightened_steps: 0,
                                rng_state: g.rng_state,
                                heading: None,
                            },
                        );
                    }
                } else {
                    terms.push(RewardTerm::Caught);
                    self.lives -= 1;
                    proof {
                        crate::maze::lemma_spawns_in_grid(self.grid@);
                    }
                    self.reset_positions();
                    stop = true;
                    proof {
                        lemma_reset_positions_wf(self@);
                    }
                }
            } else {
                proof {
                    lemma_ghost_phase_frame(self@, i + 1, n as int, terms@);
                }
            }
            i += 1;
        }
        assert((self@, terms@) == target);
        let remaining = self.pellets.remaining();
        if self.lives == 0 || remaining == 0 || self.steps >= self.max_steps {
            self.done = true;
            if remaining == 0 {
                terms.push(RewardTerm::LevelCleared);
            }
        }
        StepReport { terms, done: self.done }
    }

    /// Whether the coordinate arithmetic of a step stays inside the `i32`
    /// range: every ghost's neighbouring cells can be computed, and so can
    /// the step's own arithmetic (see [`step_arith_fits`]).
    pub fn arith_in_range(&self, action: Action) -> (r: bool)
        ensures
            r == ((forall|i: int| 0 <= i < self@.ghosts.len() ==> steppable(#[trigger] ghost_pos(self@.ghosts[i])))
                && step_arith_fits(self@, action)),
    {
        let mut i: usize = 0;
        while i < self.ghosts.len()
            invariant
                i <= self.ghosts.len(),
                forall|j: int| 0 <= j < i ==> steppable(#[trigger] ghost_pos(self@.ghosts[j])),
            decreases self.ghosts.len() - i,
        {
            let g = self.ghosts[i];
            if !crate::grid_pos::is_steppable(GridPos::new(g.x, g.y)) {
                assert(!steppable(ghost_pos(self@.ghosts[i as int])));
                return false;
            }
            i += 1;
        }
        let (dx, dy) = action.delta();
        let nx: i64 = self.px as i64 + dx as i64;
        let ny: i64 = self.py as i64 + dy as i64;
        if nx < i32::MIN as i64 || nx > i32::MAX as i64 || ny < i32::MIN as i64 || ny > i32::MAX as i64 {
            return false;
        }
        let target = GridPos::new(nx as i32, ny as i32);
        let pac = if self.grid.is_wall(target) {
            GridPos::new(self.px, self.py)
        } else {
            target
        };
        assert(pac == pac_pos(move_phase(self@, action).0));
        crate::maze::is_near_board(pac)
    }

    /// Whether one step's counters would stay within their machine types
    /// (see [`step_fits`]). The step's score and lives arithmetic is run on
    /// copies wide enough not to overflow; the environment is left as it is.
    pub fn counters_fit(&self, action: Action) -> (r: bool)
        requires
            self.wf(),
            step_arith_fits(self@, action),
        ensures
            r == step_fits(self@, action),
    {
        let ghost m = self@;
        proof {
            lemma_step_laws(m, action);
        }
        if self.done {
            return true;
        }
        if self.steps == usize::MAX {
            return false;
        }
        proof {
            lemma_move_and_eat(m, action);
        }
        let ghost m2 = move_and_eat(m, action).0;
        let ghost t2 = move_and_eat(m, action).1;
        let ghost target = ghost_phase(m2, 0, m2.ghosts.len() as int, t2);
        proof {
            lemma_ghost_phase_frame(m2, 0, m2.ghosts.len() as int, t2);
            assert(env_step(m, action) == finish_phase(target.0, target.1));
        }
        let (dx, dy) = action.delta();
        let nx = self.px + dx;
        let ny = self.py + dy;
        let pac = if self.grid.is_wall(GridPos::new(nx, ny)) {
            GridPos::new(self.px, self.py)
        } else {
            GridPos::new(nx, ny)
        };
        assert(pac == pac_pos(m2));
        let mut ghosts = copy_ghosts(&self.ghosts);
        let mut score: u64 = self.score as u64;
        match self.pellets.kind_at(pac) {
            Some(PelletKind::Pellet) => {
                score = score + 10;
            },
            Some(PelletKind::Power) => {
                score = score + 50;
                frighten_ghosts(&mut ghosts);
            },
            None => {},
        }
        let lives: u32 = self.lives;
        let ghost mut model = EnvModel { ghosts: ghosts@, score: score as int, ..m2 };
        assert(model == m2);
        if score > u32::MAX as u64 {
            return false;
        }
        let ghost mut tt = t2;
        let n = ghosts.len();
        let mut i: usize = 0;
        while i < n
            invariant
                i <= n,
                n == m2.ghosts.len(),
                ghosts@.len() == n,
                model == (EnvModel { ghosts: ghosts@, score: score as int, ..m2 }),
                env_wf(model),
                self.grid@ == m2.grid,
                lives == m2.lives,
                crate::maze::near_board(pac),
                pac == pac_pos(m2),
                target == ghost_phase(m2, 0, n as int, t2),
                ghost_phase(model, i as int, n as int, tt) == target,
                score <= u32::MAX,
                m == self@,
                !m.done,
                m.steps < usize::MAX,
                m2.steps == m.steps + 1,
                env_step(m, action) == finish_phase(target.0, target.1),
            decreases n - i,
        {
            proof {
                lemma_ghost_phase_frame(model, i as int, n as int, tt);
                lemma_ghost_step_lands_on_board(model.grid, model.ghosts[i as int], pac);
                assert(steppable(ghost_pos(model.ghosts[i as int])));
                lemma_env_wf_update_ghost(
                    model,
                    i as int,
                    headless_ghost_step(model.grid, model.ghosts[i as int], pac),
                );
            }
            let ghost before = model;
            let g = step_ghost(&self.grid, ghosts[i], pac);
            ghosts.set(i, g);
            assert(g == headless_ghost_step(before.grid, before.ghosts[i as int], pac_pos(before)));
            if g.x == pac.x && g.y == pac.y {
                if g.frightened_steps > 0 {
                    let house = self.grid.ghost_spawn();
                    let home = HeadlessGhost {
                        x: house.x,
                        y: house.y,
                        frightened_steps: 0,
                        rng_state: g.rng_state,
                        heading: None,
                    };
                    proof {
                        lemma_env_wf_update_ghost(model, i as int, home);
                    }
                    let ghost prev = model;
                    ghosts.set(i, home);
                    score = score + 200;
                    proof {
                        model = EnvModel { score: prev.score + 200, ghosts: prev.ghosts.update(i as int, home), ..prev };
                        assert(model.ghosts =~= ghosts@);
                        tt = tt.push(RewardTerm::GhostEaten);
                        lemma_ghost_phase_frame(model, i + 1, n as int, tt);
                    }
                    if score > u32::MAX as u64 {
                        assert(env_step(m, action).0.score == target.0.score);
                        return false;
                    }
                } else {
                    proof {
                        let caught = reset_positions_spec(
                            EnvModel { lives: before.lives - 1, ghosts: before.ghosts.update(i as int, g), ..before },
                        );
                        assert(target.0 == caught);
                        assert(env_step(m, action).0.lives == caught.lives);
                        assert(env_step(m, action).0.score == caught.score);
                        assert(env_step(m, action).0.steps == caught.steps);
                        assert(caught.score == score);
                        assert(caught.lives == lives - 1);
                    }
                    if lives == 0 {
                        return false;
                    }
                    return true;
                }
            } else {
                proof {
                    model = EnvModel { ghosts: ghosts@, ..model };
                    lemma_ghost_phase_frame(model, i + 1, n as int, tt);
                }
            }
            i += 1;
        }
        true
    }

    /// The integer facts behind the observation vector (see
    /// [`ObservationFeatures`]).
    pub fn observation_features(&self) -> (r: ObservationFeatures)
        requires
            self.pellets.wf(),
            steppable(pac_pos(self@)),
            forall|i: int| 0 <= i < self@.ghosts.len() ==> manhattan_spec(#[trigger] ghost_pos(self@.ghosts[i]), pac_pos(self@)) <= i32::MAX,
        ensures
            r.walls@.len() == 4,
            r.food@.len() == 4,
            forall|k: int| 0 <= k < 4 ==> #[trigger] r.walls@[k] == self@.grid.wall_at(neighbor(pac_pos(self@), k)),
            forall|k: int| 0 <= k < 4 ==> #[trigger] r.food@[k] == (food_at(self@.board, neighbor(pac_pos(self@), k)) is Some),
            r.threats@.len() == self@.ghosts.len(),
            forall|i: int| 0 <= i < self@.ghosts.len() ==> #[trigger] r.threats@[i] == threat_of(self@.ghosts[i], pac_pos(self@)),
            r.fright_active == exists|i: int| 0 <= i < self@.ghosts.len() && #[trigger] self@.ghosts[i].frightened_steps > 0,
            r.remaining == food_count(self@.board),
            r.total == self@.total_pellets,
            r.facing_slot == facing_slot_of(self@.facing),
    {
        let pac = GridPos::new(self.px, self.py);
        let (walls, food) = neighbor_facts(&self.grid, &self.pellets, pac);
        let mut threats: Vec<GhostThreat> = Vec::new();
        let mut i: usize = 0;
        while i < self.ghosts.len()
            invariant
                i <= self.ghosts.len(),
                self.pellets.wf(),
                forall|j: int| 0 <= j < self@.ghosts.len() ==> manhattan_spec(#[trigger] ghost_pos(self@.ghosts[j]), pac_pos(self@)) <= i32::MAX,
                pac == pac_pos(self@),
                threats@.len() == i,
                forall|j: int| 0 <= j < i ==> #[trigger] threats@[j] == threat_of(self@.ghosts[j], pac),
            decreases self.ghosts.len() - i,
        {
            let g = self.ghosts[i];
            assert(manhattan_spec(ghost_pos(self@.ghosts[i as int]), pac_pos(self@)) <= i32::MAX);
            threats.push(ghost_threat(GridPos::new(g.x, g.y), g.frightened_steps > 0, pac));
            i += 1;
        }
        ObservationFeatures {
            walls,
            food,
            threats,
            fright_active: self.frightened_active(),
            remaining: self.pellets.remaining(),
            total: self.total_pellets,
            facing_slot: facing_slot(self.facing),
        }
    }

    /// The cells that still hold food, in row-major order (`y` upward).
    pub fn pellet_positions(&self) -> (r: Vec<GridPos>)
        requires
            self.pellets.wf(),
        ensures
            r@.no_duplicates(),
            forall|p: GridPos| r@.contains(p) <==> food_at(self@.board, p) is Some,
    {
        let mut out: Vec<GridPos> = Vec::new();
        let mut i: usize = 0;
        while i < CELLS
            invariant
                i <= CELLS,
                self.pellets.wf(),
                forall|j: int| 0 <= j < out@.len() ==> #[trigger] in_grid(out@[j]) && crate::maze::cell_index(out@[j]) < i,
                forall|a: int, b: int| 0 <= a < b < out@.len() ==> crate::maze::cell_index(#[trigger] out@[a]) < crate::maze::cell_index(#[trigger] out@[b]),
                forall|j: int| 0 <= j < out@.len() ==> food_at(self@.board, #[trigger] out@[j]) is Some,
                forall|p: GridPos| in_grid(p) && crate::maze::cell_index(p) < i && food_at(self@.board, p) is Some ==> #[trigger] out@.contains(p),
            decreases CELLS - i,
        {
            let x = (i % WIDTH) as i32;
            let y = (i / WIDTH) as i32;
            let c = GridPos::new(x, y);
            proof {
                crate::maze::lemma_cell_at_index(i as int);
                assert(c == crate::maze::cell_at_index(i as int));
            }
            if self.pellets.has_food(c) {
                let ghost old_out = out@;
                out.push(c);
                proof {
                    assert forall|p: GridPos| in_grid(p) && crate::maze::cell_index(p) < i + 1 && food_at(self@.board, p) is Some implies #[trigger] out@.contains(p) by {
                        if crate::maze::cell_index(p) == i {
                            crate::maze::lemma_cell_numbering_injective(p, c);
                            assert(out@[out@.len() - 1] == p);
                        } else {
                            assert(old_out.contains(p));
                            let j = choose|j: int| 0 <= j < old_out.len() && old_out[j] == p;
                            assert(out@[j] == p);
                        }
                    }
                }
            } else {
                proof {
                    assert forall|p: GridPos| in_grid(p) && crate::maze::cell_index(p) < i + 1 && food_at(self@.board, p) is Some implies #[trigger] out@.contains(p) by {
                        if crate::maze::cell_index(p) == i {
                            crate::maze::lemma_cell_numbering_injective(p, c);
                        }
                    }
                }
            }
            i += 1;
        }
        proof {
            assert forall|a: int, b: int| 0 <= a < out@.len() && 0 <= b < out@.len() && a != b implies out@[a] != out@[b] by {
                if a < b {
                    assert(crate::maze::cell_index(out@[a]) < crate::maze::cell_index(out@[b]));
                } else {
                    assert(crate::maze::cell_index(out@[b]) < crate::maze::cell_index(out@[a]));
                }
            }
            assert forall|p: GridPos| out@.contains(p) implies food_at(self@.board, p) is Some by {
                let j = choose|j: int| 0 <= j < out@.len() && out@[j] == p;
                assert(food_at(self@.board, out@[j]) is Some);
            }
            assert forall|p: GridPos| food_at(self@.board, p) is Some implies out@.contains(p) by {
                crate::maze::lemma_cell_numbering_injective(p, p);
            }
        }
        out
    }

    /// Whether the episode has terminated.
    pub fn is_done(&self) -> (r: bool)
        ensures
            r == self@.done,
    {
        self.done
    }
}

/// The facing one-hot occupies slots `15..19` in the order up, down, left,
/// right: the `k`-th direction sets slot `15 + k`, so different facings set
/// different slots.
pub proof fn lemma_facing_slots_one_hot(d: Direction, e: Direction, k: int)
    requires
        0 <= k < 4,
    ensures
        facing_slot_of(direction_at(k)) == 15 + k,
        15 <= facing_slot_of(d) < 19,
        d != e ==> facing_slot_of(d) != facing_slot_of(e),
{
}

/// The ghost phase only appends ghost-eaten and caught terms.
proof fn lemma_ghost_phase_terms(m: EnvModel, i: int, n: int, terms: Seq<RewardTerm>)
    ensures
        ghost_phase(m, i, n, terms).1.len() >= terms.len(),
        forall|j: int| 0 <= j < terms.len() ==> #[trigger] ghost_phase(m, i, n, terms).1[j] == terms[j],
        forall|j: int|
            terms.len() <= j < ghost_phase(m, i, n, terms).1.len() ==> #[trigger] ghost_phase(m, i, n, terms).1[j]
                == RewardTerm::GhostEaten || ghost_phase(m, i, n, terms).1[j] == RewardTerm::Caught,
    decreases n - i,
{
    if i >= n || i < 0 || i >= m.ghosts.len() {
    } else {
        let g = headless_ghost_step(m.grid, m.ghosts[i], pac_pos(m));
        let m1 = EnvModel { ghosts: m.ghosts.update(i, g), ..m };
        if g.x == m.px && g.y == m.py {
            if g.frightened_steps > 0 {
                let home = HeadlessGhost {
                    x: m.grid.ghost_spawn.x,
                    y: m.grid.ghost_spawn.y,
                    frightened_steps: 0,
                    rng_state: g.rng_state,
                    heading: None,
                };
                let m2 = EnvModel { score: m.score + 200, ghosts: m.ghosts.update(i, home), ..m };
                lemma_ghost_phase_terms(m2, i + 1, n, terms.push(RewardTerm::GhostEaten));
                let t2 = terms.push(RewardTerm::GhostEaten);
                assert forall|j: int| 0 <= j < terms.len() implies #[trigger] ghost_phase(m, i, n, terms).1[j] == terms[j] by {
                    assert(ghost_phase(m2, i + 1, n, t2).1[j] == t2[j]);
                }
                assert forall|j: int|
                    terms.len() <= j < ghost_phase(m, i, n, terms).1.len() implies #[trigger] ghost_phase(m, i, n, terms).1[j]
                        == RewardTerm::GhostEaten || ghost_phase(m, i, n, terms).1[j] == RewardTerm::Caught by {
                    if j == terms.len() {
                        assert(ghost_phase(m2, i + 1, n, t2).1[j] == t2[j]);
                    }
                }
            }
        } else {
            lemma_ghost_phase_terms(m1, i + 1, n, terms);
        }
    }
}

/// The ghost phase leaves Pac-Man where he is, facing the same way, unless a
/// ghost catches him (which costs a life).
proof fn lemma_ghost_phase_keeps_pac(m: EnvModel, i: int, n: int, terms: Seq<RewardTerm>)
    ensures
        ghost_phase(m, i, n, terms).0.lives == m.lives ==> ghost_phase(m, i, n, terms).0.px == m.px
            && ghost_phase(m, i, n, terms).0.py == m.py && ghost_phase(m, i, n, terms).0.facing == m.facing,
        ghost_phase(m, i, n, terms).0.lives == m.lives || ghost_phase(m, i, n, terms).0.lives == m.lives - 1,
    decreases n - i,
{
    if i >= n || i < 0 || i >= m.ghosts.len() {
    } else {
        let g = headless_ghost_step(m.grid, m.ghosts[i], pac_pos(m));
        let m1 = EnvModel { ghosts: m.ghosts.update(i, g), ..m };
        if g.x == m.px && g.y == m.py {
            if g.frightened_steps > 0 {
                let home = HeadlessGhost {
                    x: m.grid.ghost_spawn.x,
                    y: m.grid.ghost_spawn.y,
                    frightened_steps: 0,
                    rng_state: g.rng_state,
                    heading: None,
                };
                let m2 = EnvModel { score: m.score + 200, ghosts: m.ghosts.update(i, home), ..m };
                lemma_ghost_phase_keeps_pac(m2, i + 1, n, terms.push(RewardTerm::GhostEaten));
            }
        } else {
            lemma_ghost_phase_keeps_pac(m1, i + 1, n, terms);
        }
    }
}

/// The level-cleared bonus is paid exactly when a running episode's step
/// leaves the board without food; an episode that ends for another reason
/// (its step budget, or the last life lost) with food left earns no bonus.
pub proof fn lemma_bonus_only_for_a_cleared_board(m: EnvModel, a: Action)
    ensures
        env_step(m, a).1.contains(RewardTerm::LevelCleared) <==> (!m.done && food_count(env_step(m, a).0.board)
            == 0),
{
    if !m.done {
        let (m2, t2) = move_and_eat(m, a);
        let (m3, t3) = ghost_phase(m2, 0, m2.ghosts.len() as int, t2);
        lemma_ghost_phase_terms(m2, 0, m2.ghosts.len() as int, t2);
        assert(!t3.contains(RewardTerm::LevelCleared)) by {
            if t3.contains(RewardTerm::LevelCleared) {
                let j = choose|j: int| 0 <= j < t3.len() && t3[j] == RewardTerm::LevelCleared;
                if j < t2.len() {
                    assert(t3[j] == t2[j]);
                }
            }
        }
        let r = finish_phase(m3, t3);
        assert(r.0.board == m3.board);
        if food_count(m3.board) == 0 {
            assert(r.1[r.1.len() - 1] == RewardTerm::LevelCleared);
        } else {
            assert(r.1 == t3);
        }
    }
}

/// A step onto an open cell turns Pac-Man the way he moved: unless a ghost
/// catches him, he ends one cell along the action's displacement, and the
/// direction he faces has exactly that displacement.
pub proof fn lemma_step_turns_pac_man(m: EnvModel, a: Action)
    requires
        !m.done,
        i32::MIN <= m.px + action_delta(a).0 <= i32::MAX,
        i32::MIN <= m.py + action_delta(a).1 <= i32::MAX,
        !m.grid.wall_at(GridPos { x: (m.px + action_delta(a).0) as i32, y: (m.py + action_delta(a).1) as i32 }),
        env_step(m, a).0.lives == m.lives,
    ensures
        env_step(m, a).0.px == m.px + action_delta(a).0,
        env_step(m, a).0.py == m.py + action_delta(a).1,
        delta_of(env_step(m, a).0.facing).x == action_delta(a).0,
        delta_of(env_step(m, a).0.facing).y == action_delta(a).1,
{
    let (m2, t2) = move_and_eat(m, a);
    lemma_ghost_phase_keeps_pac(m2, 0, m2.ghosts.len() as int, t2);
}

} // verus!
