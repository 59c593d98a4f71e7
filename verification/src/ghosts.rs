//! Scripted ghost adversaries: chase / frightened / eaten state machine.
//!
//! Each [`GhostKind`] has a distinct targeting heuristic (classic Pac-Man
//! personalities). On power-pellet consumption all non-eaten ghosts switch to
//! [`GhostMode::Frightened`] and move randomly; eaten ghosts return to the
//! ghost house before respawning into chase mode. Frightened movement draws
//! from a fixed-seed generator ([`FrightRng`]), so ghost behaviour is
//! deterministic for a given seed. How long a mode lasts is timed by the
//! caller, which calls [`ScriptedGhost::calm_down`] when the mode's timer runs out.

use vstd::prelude::*;
use rand::rngs::StdRng;
use crate::events::{Direction, delta_of, direction_at, opposite_of};
use crate::grid_pos::{
    GridPos, manhattan, manhattan_spec, closest_index, closest_candidate, steppable, manhattan_fits,
    lemma_closest_index_in_range,
};
use crate::maze::{MazeGrid, MazeModel, PelletMap, HEIGHT, food_count};
use crate::pacman::step_cell;
use crate::random::{seeded_rng, seeded_generator, random_index};

verus! {

/// Fixed seed for the frightened-mode generator, keeping ghost behaviour
/// reproducible.
pub const FRIGHT_RNG_SEED: u64 = 0x0F1F_71ED;

/// Ghost personality, each with a distinct targeting heuristic.
#[derive(Debug, Clone, Copy, PartialEq, Eq, Structural)]
pub enum GhostKind {
    /// Targets Pac-Man's tile directly.
    Blinky,
    /// Targets four tiles ahead of Pac-Man.
    Pinky,
    /// Targets the point mirrored through Pac-Man from this ghost.
    Inky,
    /// Targets Pac-Man when far, retreats to his corner when close.
    Clyde,
}

/// Clyde's retreat corner, left of the board at the top row's height.
pub open spec fn clyde_corner() -> GridPos {
    GridPos { x: -8i32, y: HEIGHT as i32 }
}

/// The tile a ghost of kind `kind` at `self_pos` aims for.
pub open spec fn target_spec(kind: GhostKind, pac_pos: GridPos, pac_dir: Direction, self_pos: GridPos) -> GridPos {
    match kind {
        GhostKind::Blinky => pac_pos,
        GhostKind::Pinky => GridPos {
            x: (pac_pos.x + delta_of(pac_dir).x * 4) as i32,
            y: (pac_pos.y + delta_of(pac_dir).y * 4) as i32,
        },
        GhostKind::Inky => GridPos {
            x: (pac_pos.x * 2 - self_pos.x) as i32,
            y: (pac_pos.y * 2 - self_pos.y) as i32,
        },
        GhostKind::Clyde => if manhattan_spec(pac_pos, self_pos) > 8 {
            pac_pos
        } else {
            clyde_corner()
        },
    }
}

/// Whether the heuristic's arithmetic stays inside the `i32` range.
pub open spec fn target_fits(kind: GhostKind, pac_pos: GridPos, self_pos: GridPos) -> bool {
    match kind {
        GhostKind::Blinky => true,
        GhostKind::Pinky => i32::MIN + 4 <= pac_pos.x <= i32::MAX - 4 && i32::MIN + 4 <= pac_pos.y
            <= i32::MAX - 4,
        GhostKind::Inky => i32::MIN <= pac_pos.x * 2 <= i32::MAX && i32::MIN <= pac_pos.y * 2
            <= i32::MAX && i32::MIN <= pac_pos.x * 2 - self_pos.x <= i32::MAX && i32::MIN
            <= pac_pos.y * 2 - self_pos.y <= i32::MAX,
        GhostKind::Clyde => i32::MIN < pac_pos.x - self_pos.x <= i32::MAX && i32::MIN < pac_pos.y
            - self_pos.y <= i32::MAX && manhattan_spec(pac_pos, self_pos) <= i32::MAX,
    }
}

impl GhostKind {
    /// All four ghosts in spawn order.
    pub const ALL: [GhostKind; 4] = [GhostKind::Blinky, GhostKind::Pinky, GhostKind::Inky, GhostKind::Clyde];

    /// Classic targeting heuristic: the tile this ghost wants to reach.
    pub fn target_heuristic(self, pac_pos: GridPos, pac_dir: Direction, self_pos: GridPos) -> (r: GridPos)
        requires
            target_fits(self, pac_pos, self_pos),
        ensures
            r == target_spec(self, pac_pos, pac_dir, self_pos),
    {
        match self {
            GhostKind::Blinky => pac_pos,
            GhostKind::Pinky => pac_pos.plus(pac_dir.to_delta().times(4)),
            GhostKind::Inky => pac_pos.times(2).minus(self_pos),
            GhostKind::Clyde => {
                if manhattan(pac_pos, self_pos) > 8 {
                    pac_pos
                } else {
                    GridPos::new(-8, HEIGHT as i32)
                }
            },
        }
    }
}

/// Behavioural state of a ghost. The frightened and eaten states last for a
/// time measured by the caller.
#[derive(Debug, Clone, Copy, PartialEq, Eq, Structural)]
pub enum GhostMode {
    /// Actively hunting Pac-Man using the kind heuristic.
    Chase,
    /// Fleeing after a power pellet; moves randomly.
    Frightened,
    /// Returning to the ghost house after being eaten.
    Eaten,
}

/// A scripted ghost adversary.
#[derive(Debug, Clone, Copy, PartialEq, Eq, Structural)]
pub struct ScriptedGhost {
    /// Personality driving the targeting heuristic.
    pub kind: GhostKind,
    /// Current grid tile.
    pub pos: GridPos,
    /// Heading used at the next step.
    pub dir: Direction,
    /// Behavioural state (chase / frightened / eaten).
    pub mode: GhostMode,
}

/// Deterministic generator for frightened movement, seeded with
/// [`FRIGHT_RNG_SEED`].
#[derive(Debug)]
pub struct FrightRng(StdRng);

impl FrightRng {
    /// The standard generator this one draws from.
    pub closed spec fn generator(self) -> StdRng {
        self.0
    }

    /// A generator seeded with [`FRIGHT_RNG_SEED`].
    pub fn new() -> (r: FrightRng)
        ensures
            r.generator() == seeded_generator(FRIGHT_RNG_SEED),
    {
        FrightRng(seeded_rng(FRIGHT_RNG_SEED))
    }
}

/// The open directions from `pos` among the first `k` of the order up,
/// down, left, right, leaving out `excluded`.
pub open spec fn open_dirs_upto(grid: MazeModel, pos: GridPos, excluded: Option<Direction>, k: int) -> Seq<
    Direction,
>
    decreases k,
{
    if k <= 0 {
        seq![]
    } else {
        let prev = open_dirs_upto(grid, pos, excluded, k - 1);
        let d = direction_at(k - 1);
        if excluded != Some(d) && !grid.wall_at(step_cell(pos, d)) {
            prev.push(d)
        } else {
            prev
        }
    }
}

/// The moves open to a ghost at `pos` whose reverse heading is `reverse`:
/// the open directions other than the reverse, in the order up, down, left,
/// right; only where none of them is open (a dead end) the reverse itself,
/// if it is open.
pub open spec fn moves_avoiding(grid: MazeModel, pos: GridPos, reverse: Option<Direction>) -> Seq<Direction> {
    let ahead = open_dirs_upto(grid, pos, reverse, 4);
    if ahead.len() > 0 {
        ahead
    } else {
        open_dirs_upto(grid, pos, None, 4)
    }
}

/// Directions a ghost at `pos` heading `dir` may take next: never into a
/// wall, and back the way it came only in a dead end.
pub open spec fn ghost_candidates(grid: MazeModel, pos: GridPos, dir: Direction) -> Seq<Direction> {
    moves_avoiding(grid, pos, Some(opposite_of(dir)))
}

/// Every direction listed by [`open_dirs_upto`] is open and not the
/// excluded one; when none is listed, every direction of the first `k` is
/// the excluded one or blocked.
pub proof fn lemma_open_dirs(grid: MazeModel, pos: GridPos, excluded: Option<Direction>, k: int)
    ensures
        forall|j: int|
            0 <= j < open_dirs_upto(grid, pos, excluded, k).len() ==> {
                let d = #[trigger] open_dirs_upto(grid, pos, excluded, k)[j];
                &&& !grid.wall_at(step_cell(pos, d))
                &&& excluded != Some(d)
            },
        open_dirs_upto(grid, pos, excluded, k).len() == 0 ==> forall|m: int|
            0 <= m < k ==> excluded == Some(direction_at(m)) || grid.wall_at(
                #[trigger] step_cell(pos, direction_at(m)),
            ),
        open_dirs_upto(grid, pos, excluded, k).len() <= (if k < 0 { 0 } else { k }),
    decreases k,
{
    if k > 0 {
        lemma_open_dirs(grid, pos, excluded, k - 1);
        let prev = open_dirs_upto(grid, pos, excluded, k - 1);
        let cur = open_dirs_upto(grid, pos, excluded, k);
        assert forall|j: int| 0 <= j < cur.len() implies {
            let d = #[trigger] cur[j];
            &&& !grid.wall_at(step_cell(pos, d))
            &&& excluded != Some(d)
        } by {
            if j < prev.len() {
                assert(cur[j] == prev[j]);
            }
        }
    }
}

/// The open directions from `pos` other than `excluded` (see
/// [`open_dirs_upto`]).
fn open_directions(grid: &MazeGrid, pos: GridPos, excluded: Option<Direction>) -> (r: Vec<Direction>)
    requires
        steppable(pos),
    ensures
        r@ == open_dirs_upto(grid@, pos, excluded, 4),
{
    let mut out: Vec<Direction> = Vec::new();
    let mut k: usize = 0;
    while k < 4
        invariant
            k <= 4,
            steppable(pos),
            out@ == open_dirs_upto(grid@, pos, excluded, k as int),
        decreases 4 - k,
    {
        let d = Direction::ALL[k];
        assert(d == direction_at(k as int));
        let allowed = match excluded {
            Some(e) => e != d,
            None => true,
        };
        if allowed && !grid.is_wall(pos.plus(d.to_delta())) {
            out.push(d);
        }
        k += 1;
    }
    out
}

/// The moves open to a ghost at `pos` whose reverse heading is `reverse`
/// (see [`moves_avoiding`]).
pub fn moves_from(grid: &MazeGrid, pos: GridPos, reverse: Option<Direction>) -> (r: Vec<Direction>)
    requires
        steppable(pos),
    ensures
        r@ == moves_avoiding(grid@, pos, reverse),
{
    let ahead = open_directions(grid, pos, reverse);
    if ahead.len() > 0 {
        ahead
    } else {
        open_directions(grid, pos, None)
    }
}

/// The cells the candidate directions lead to.
pub open spec fn candidate_cells(c: Seq<Direction>, pos: GridPos) -> Seq<GridPos> {
    c.map_values(|d: Direction| step_cell(pos, d))
}

/// The direction a ghost picks. With no candidate it reverses; a returning
/// ghost heads for the house; a frightened ghost takes candidate number
/// `draw` (drawn at random by the caller); otherwise it takes the first
/// candidate closest to its kind's target.
pub open spec fn direction_choice(
    grid: MazeModel,
    ghost: ScriptedGhost,
    pac_pos: GridPos,
    returning: bool,
    draw: int,
) -> Direction {
    let c = ghost_candidates(grid, ghost.pos, ghost.dir);
    let cells = candidate_cells(c, ghost.pos);
    if c.len() == 0 {
        opposite_of(ghost.dir)
    } else if returning {
        c[closest_index(cells, grid.ghost_spawn)]
    } else if ghost.mode == GhostMode::Frightened {
        c[draw]
    } else {
        c[closest_index(cells, target_spec(ghost.kind, pac_pos, ghost.dir, ghost.pos))]
    }
}

/// Whether the choice draws a random candidate.
pub open spec fn choice_is_random(grid: MazeModel, ghost: ScriptedGhost, returning: bool) -> bool {
    ghost_candidates(grid, ghost.pos, ghost.dir).len() > 0 && !returning && ghost.mode
        == GhostMode::Frightened
}

/// The candidate directions of a ghost (see [`ghost_candidates`]).
pub fn candidate_directions(grid: &MazeGrid, ghost: &ScriptedGhost) -> (r: Vec<Direction>)
    requires
        steppable(ghost.pos),
    ensures
        r@ == ghost_candidates(grid@, ghost.pos, ghost.dir),
{
    moves_from(grid, ghost.pos, Some(ghost.dir.opposite()))
}

/// The cells a list of directions leads to from `pos`.
pub(crate) fn cells_toward(c: &Vec<Direction>, pos: GridPos) -> (r: Vec<GridPos>)
    requires
        steppable(pos),
    ensures
        r@ == candidate_cells(c@, pos),
{
    let mut out: Vec<GridPos> = Vec::new();
    let mut i: usize = 0;
    while i < c.len()
        invariant
            i <= c.len(),
            steppable(pos),
            out@ == candidate_cells(c@, pos).take(i as int),
        decreases c.len() - i,
    {
        out.push(pos.plus(c[i].to_delta()));
        assert(candidate_cells(c@, pos).take(i + 1) =~= candidate_cells(c@, pos).take(i as int).push(step_cell(pos, c@[i as int])));
        i += 1;
    }
    assert(candidate_cells(c@, pos).take(c.len() as int) =~= candidate_cells(c@, pos));
    out
}

/// Whether the arithmetic of a direction choice stays inside the `i32`
/// range beyond the unit steps around the ghost: a chasing ghost (or an
/// eaten one not yet homing) with somewhere to go computes its kind's target
/// and the distance from each candidate cell to that target.
pub open spec fn choice_fits(grid: MazeModel, ghost: ScriptedGhost, pac_pos: GridPos, returning: bool) -> bool {
    let c = ghost_candidates(grid, ghost.pos, ghost.dir);
    c.len() > 0 && !returning && ghost.mode != GhostMode::Frightened ==> {
        &&& target_fits(ghost.kind, pac_pos, ghost.pos)
        &&& forall|j: int|
            0 <= j < c.len() ==> manhattan_spec(
                target_spec(ghost.kind, pac_pos, ghost.dir, ghost.pos),
                #[trigger] step_cell(ghost.pos, c[j]),
            ) <= i32::MAX
    }
}

/// Whether the heuristic's arithmetic stays inside the `i32` range (see
/// [`target_fits`]).
pub fn target_in_range(kind: GhostKind, pac_pos: GridPos, self_pos: GridPos) -> (r: bool)
    ensures
        r == target_fits(kind, pac_pos, self_pos),
{
    let px: i64 = pac_pos.x as i64;
    let py: i64 = pac_pos.y as i64;
    let lo: i64 = i32::MIN as i64;
    let hi: i64 = i32::MAX as i64;
    match kind {
        GhostKind::Blinky => true,
        GhostKind::Pinky => lo + 4 <= px && px <= hi - 4 && lo + 4 <= py && py <= hi - 4,
        GhostKind::Inky => {
            let x2 = px * 2;
            let y2 = py * 2;
            let tx = x2 - self_pos.x as i64;
            let ty = y2 - self_pos.y as i64;
            lo <= x2 && x2 <= hi && lo <= y2 && y2 <= hi && lo <= tx && tx <= hi && lo <= ty && ty <= hi
        },
        GhostKind::Clyde => manhattan_fits(pac_pos, self_pos),
    }
}

/// Whether the arithmetic of a direction choice stays inside the `i32`
/// range (see [`choice_fits`]).
pub fn choice_in_range(grid: &MazeGrid, ghost: &ScriptedGhost, pac_pos: GridPos, returning: bool) -> (r: bool)
    requires
        steppable(ghost.pos),
    ensures
        r == choice_fits(grid@, *ghost, pac_pos, returning),
{
    if returning || ghost.mode == GhostMode::Frightened {
        return true;
    }
    let candidates = candidate_directions(grid, ghost);
    if candidates.len() == 0 {
        return true;
    }
    if !target_in_range(ghost.kind, pac_pos, ghost.pos) {
        return false;
    }
    let target = ghost.kind.target_heuristic(pac_pos, ghost.dir, ghost.pos);
    let cells = cells_toward(&candidates, ghost.pos);
    let mut j: usize = 0;
    while j < cells.len()
        invariant
            j <= cells.len(),
            candidates@ == ghost_candidates(grid@, ghost.pos, ghost.dir),
            candidates@.len() > 0 && !returning && ghost.mode != GhostMode::Frightened,
            target_fits(ghost.kind, pac_pos, ghost.pos),
            cells@ == candidate_cells(candidates@, ghost.pos),
            target == target_spec(ghost.kind, pac_pos, ghost.dir, ghost.pos),
            forall|k: int| 0 <= k < j ==> manhattan_spec(target, #[trigger] step_cell(ghost.pos, candidates@[k])) <= i32::MAX,
        decreases cells.len() - j,
    {
        assert(cells@[j as int] == step_cell(ghost.pos, candidates@[j as int]));
        if !manhattan_fits(target, cells[j]) {
            assert(manhattan_spec(target, step_cell(ghost.pos, candidates@[j as int])) > i32::MAX);
            return false;
        }
        j += 1;
    }
    true
}

/// Picks the next direction according to the current mode (see
/// [`direction_choice`]). Reversing is only allowed when the ghost is in a
/// dead end; a frightened ghost draws its candidate from `rng`.
pub fn choose_direction(
    grid: &MazeGrid,
    ghost: &ScriptedGhost,
    pac_pos: GridPos,
    returning: bool,
    rng: &mut StdRng,
) -> (r: Direction)
    requires
        steppable(ghost.pos),
        choice_fits(grid@, *ghost, pac_pos, returning),
    ensures
        !choice_is_random(grid@, *ghost, returning) ==> *final(rng) == *old(rng),
        choice_is_random(grid@, *ghost, returning) ==> exists|draw: int|
            0 <= draw < ghost_candidates(grid@, ghost.pos, ghost.dir).len() && r
                == direction_choice(grid@, *ghost, pac_pos, returning, draw),
        !choice_is_random(grid@, *ghost, returning) ==> r == direction_choice(
            grid@,
            *ghost,
            pac_pos,
            returning,
            0,
        ),
{
    proof {
        use_type_invariant(grid);
        crate::maze::lemma_spawns_in_grid(grid@);
    }
    let reverse = ghost.dir.opposite();
    let candidates = candidate_directions(grid, ghost);
    if candidates.len() == 0 {
        return reverse;
    }
    let cells = cells_toward(&candidates, ghost.pos);
    proof {
        lemma_moves_allowed(grid@, ghost.pos, Some(opposite_of(ghost.dir)));
    }
    if returning {
        assert forall|j: int| 0 <= j < cells.len() implies #[trigger] manhattan_spec(grid@.ghost_spawn, cells@[j]) <= i32::MAX by {
            assert(cells@[j] == step_cell(ghost.pos, candidates@[j]));
            assert(!grid@.wall_at(step_cell(ghost.pos, candidates@[j])));
        }
        let best = closest_candidate(&cells, grid.ghost_spawn());
        return candidates[best];
    }
    match ghost.mode {
        GhostMode::Frightened => {
            let idx = random_index(rng, candidates.len());
            assert(candidates@[idx as int] == direction_choice(grid@, *ghost, pac_pos, returning, idx as int));
            candidates[idx]
        },
        GhostMode::Chase | GhostMode::Eaten => {
            let target = ghost.kind.target_heuristic(pac_pos, ghost.dir, ghost.pos);
            assert forall|j: int| 0 <= j < cells.len() implies #[trigger] manhattan_spec(target, cells@[j]) <= i32::MAX by {
                assert(cells@[j] == step_cell(ghost.pos, candidates@[j]));
            }
            let best = closest_candidate(&cells, target);
            candidates[best]
        },
    }
}

/// The ghost after turning to `d` and stepping forward unless a wall is in
/// the way.
pub open spec fn ghost_after_turn(grid: MazeModel, g: ScriptedGhost, d: Direction) -> ScriptedGhost {
    if grid.wall_at(step_cell(g.pos, d)) {
        ScriptedGhost { dir: d, ..g }
    } else {
        ScriptedGhost { dir: d, pos: step_cell(g.pos, d), ..g }
    }
}

/// Whether the arithmetic of one ghost advance stays inside the `i32`
/// range: an eaten ghost at the house only changes mode; any other ghost
/// steps around its cell and makes its choice (see [`choice_fits`]).
pub open spec fn advance_fits(grid: MazeModel, ghost: ScriptedGhost, pac_pos: GridPos) -> bool {
    !(ghost.mode == GhostMode::Eaten && ghost.pos == grid.ghost_spawn) ==> steppable(ghost.pos) && choice_fits(
        grid,
        ghost,
        pac_pos,
        ghost.mode == GhostMode::Eaten,
    )
}

/// Whether the arithmetic of one ghost advance stays inside the `i32`
/// range (see [`advance_fits`]).
pub fn advance_in_range(grid: &MazeGrid, ghost: &ScriptedGhost, pac_pos: GridPos) -> (r: bool)
    ensures
        r == advance_fits(grid@, *ghost, pac_pos),
{
    let house = grid.ghost_spawn();
    if ghost.mode == GhostMode::Eaten && ghost.pos.x == house.x && ghost.pos.y == house.y {
        return true;
    }
    if !crate::grid_pos::is_steppable(ghost.pos) {
        return false;
    }
    choice_in_range(grid, ghost, pac_pos, ghost.mode == GhostMode::Eaten)
}

/// Advances a ghost one grid step (one tick of its step timer). An eaten
/// ghost that has reached the house switches back to chase and reports
/// `true` (the caller pauses it for a beat); otherwise the ghost turns to the
/// chosen direction and steps unless a wall blocks it.
pub fn advance_ghost(
    grid: &MazeGrid,
    ghost: &mut ScriptedGhost,
    pac_pos: GridPos,
    rng: &mut FrightRng,
) -> (home: bool)
    requires
        advance_fits(grid@, *old(ghost), pac_pos),
    ensures
        home == (old(ghost).mode == GhostMode::Eaten && old(ghost).pos == grid@.ghost_spawn),
        home || !choice_is_random(grid@, *old(ghost), old(ghost).mode == GhostMode::Eaten) ==> *final(rng)
            == *old(rng),
        home ==> *final(ghost) == (ScriptedGhost { mode: GhostMode::Chase, ..*old(ghost) }),
        !home && choice_is_random(grid@, *old(ghost), old(ghost).mode == GhostMode::Eaten)
            ==> exists|draw: int|
            0 <= draw < ghost_candidates(grid@, old(ghost).pos, old(ghost).dir).len()
                && *final(ghost) == ghost_after_turn(
                grid@,
                *old(ghost),
                direction_choice(grid@, *old(ghost), pac_pos, false, draw),
            ),
        !home && !choice_is_random(grid@, *old(ghost), old(ghost).mode == GhostMode::Eaten)
            ==> *final(ghost) == ghost_after_turn(
            grid@,
            *old(ghost),
            direction_choice(grid@, *old(ghost), pac_pos, old(ghost).mode == GhostMode::Eaten, 0),
        ),
{
    let returning = ghost.mode == GhostMode::Eaten;
    let house = grid.ghost_spawn();
    if returning && ghost.pos.x == house.x && ghost.pos.y == house.y {
        ghost.mode = GhostMode::Chase;
        return true;
    }
    let ghost old_ghost = *ghost;
    let next_dir = choose_direction(grid, ghost, pac_pos, returning, &mut rng.0);
    ghost.dir = next_dir;
    let candidate = ghost.pos.plus(next_dir.to_delta());
    if !grid.is_wall(candidate) {
        ghost.pos = candidate;
    }
    proof {
        if choice_is_random(grid@, old_ghost, returning) {
            let draw = choose|draw: int|
                0 <= draw < ghost_candidates(grid@, old_ghost.pos, old_ghost.dir).len()
                    && next_dir == direction_choice(grid@, old_ghost, pac_pos, returning, draw);
            assert(*ghost == ghost_after_turn(grid@, old_ghost, direction_choice(grid@, old_ghost, pac_pos, false, draw)));
        }
    }
    false
}

/// Whether ghosts keep moving: once the board is cleared the level is over
/// and the pack stands down.
pub fn ghosts_active(pellets: &PelletMap) -> (r: bool)
    requires
        pellets.wf(),
    ensures
        r == (food_count(pellets@) > 0),
{
    pellets.remaining() != 0
}

impl ScriptedGhost {
    /// Power pellets frighten every ghost that is not eaten (a frightened
    /// ghost is frightened anew). Returns whether this ghost was frightened,
    /// so the caller restarts its fright timer.
    pub fn frighten(&mut self) -> (r: bool)
        ensures
            r == (old(self).mode != GhostMode::Eaten),
            r ==> *final(self) == (ScriptedGhost { mode: GhostMode::Frightened, ..*old(self) }),
            !r ==> *final(self) == *old(self),
    {
        if self.mode != GhostMode::Eaten {
            self.mode = GhostMode::Frightened;
            true
        } else {
            false
        }
    }

    /// The frightened or eaten period is over: back to chase.
    pub fn calm_down(&mut self)
        ensures
            *final(self) == (ScriptedGhost { mode: GhostMode::Chase, ..*old(self) }),
    {
        self.mode = GhostMode::Chase;
    }

    /// On life loss, returns the ghost to the house in chase mode, facing
    /// left.
    pub fn return_to_house(&mut self, grid: &MazeGrid)
        ensures
            *final(self) == (ScriptedGhost {
                pos: grid@.ghost_spawn,
                dir: Direction::Left,
                mode: GhostMode::Chase,
                ..*old(self)
            }),
    {
        self.pos = grid.ghost_spawn();
        self.dir = Direction::Left;
        self.mode = GhostMode::Chase;
    }
}

/// The kind of the `i`-th ghost of the pack.
pub open spec fn kind_at(i: int) -> GhostKind {
    if i == 0 {
        GhostKind::Blinky
    } else if i == 1 {
        GhostKind::Pinky
    } else if i == 2 {
        GhostKind::Inky
    } else {
        GhostKind::Clyde
    }
}

/// The four ghosts at the ghost-house tile, in spawn order, facing left in
/// chase mode.
pub fn ghost_pack(grid: &MazeGrid) -> (r: Vec<ScriptedGhost>)
    ensures
        r@.len() == 4,
        forall|i: int|
            0 <= i < 4 ==> #[trigger] r@[i] == (ScriptedGhost {
                kind: kind_at(i),
                pos: grid@.ghost_spawn,
                dir: Direction::Left,
                mode: GhostMode::Chase,
            }),
{
    let spawn = grid.ghost_spawn();
    let mut pack: Vec<ScriptedGhost> = Vec::new();
    let mut i: usize = 0;
    while i < 4
        invariant
            i <= 4,
            spawn == grid@.ghost_spawn,
            pack@.len() == i,
            forall|j: int|
                0 <= j < i ==> #[trigger] pack@[j] == (ScriptedGhost {
                    kind: kind_at(j),
                    pos: spawn,
                    dir: Direction::Left,
                    mode: GhostMode::Chase,
                }),
        decreases 4 - i,
    {
        let kind = GhostKind::ALL[i];
        assert(kind == kind_at(i as int));
        pack.push(ScriptedGhost { kind, pos: spawn, dir: Direction::Left, mode: GhostMode::Chase });
        i += 1;
    }
    pack
}

/// Every move leads to an open cell, and it is the reverse only when no
/// other direction is open (a dead end).
pub proof fn lemma_moves_allowed(grid: MazeModel, pos: GridPos, reverse: Option<Direction>)
    ensures
        forall|j: int|
            0 <= j < moves_avoiding(grid, pos, reverse).len() ==> {
                let d = #[trigger] moves_avoiding(grid, pos, reverse)[j];
                &&& !grid.wall_at(step_cell(pos, d))
                &&& reverse == Some(d) ==> forall|m: int|
                    0 <= m < 4 && direction_at(m) != d ==> grid.wall_at(
                        #[trigger] step_cell(pos, direction_at(m)),
                    )
            },
        moves_avoiding(grid, pos, reverse).len() <= 4,
{
    lemma_open_dirs(grid, pos, reverse, 4);
    lemma_open_dirs(grid, pos, None, 4);
}

/// Ghost movement rules: a ghost with somewhere to go never heads into a
/// wall and reverses only in a dead end; a ghost with
/// nowhere to go reverses. A chasing (or homing) ghost heads for the
/// candidate cell closest to its target, the first such in the order up,
/// down, left, right.
pub proof fn lemma_choice_rules(grid: MazeModel, ghost: ScriptedGhost, pac_pos: GridPos, returning: bool, draw: int)
    requires
        0 <= draw < ghost_candidates(grid, ghost.pos, ghost.dir).len() || !choice_is_random(grid, ghost, returning),
    ensures
        ghost_candidates(grid, ghost.pos, ghost.dir).len() == 0 ==> direction_choice(grid, ghost, pac_pos, returning, draw)
            == opposite_of(ghost.dir),
        ghost_candidates(grid, ghost.pos, ghost.dir).len() > 0 ==> {
            let d = direction_choice(grid, ghost, pac_pos, returning, draw);
            &&& !grid.wall_at(step_cell(ghost.pos, d))
            &&& d == opposite_of(ghost.dir) ==> forall|m: int|
                0 <= m < 4 && direction_at(m) != d ==> grid.wall_at(
                    #[trigger] step_cell(ghost.pos, direction_at(m)),
                )
        },
        ghost_candidates(grid, ghost.pos, ghost.dir).len() > 0 && !choice_is_random(grid, ghost, returning) ==> {
            let c = ghost_candidates(grid, ghost.pos, ghost.dir);
            let target = if returning { grid.ghost_spawn } else { target_spec(ghost.kind, pac_pos, ghost.dir, ghost.pos) };
            let d = direction_choice(grid, ghost, pac_pos, returning, draw);
            forall|j: int| 0 <= j < c.len() ==> manhattan_spec(target, step_cell(ghost.pos, d))
                <= manhattan_spec(target, #[trigger] step_cell(ghost.pos, c[j]))
        },
{
    let c = ghost_candidates(grid, ghost.pos, ghost.dir);
    lemma_moves_allowed(grid, ghost.pos, Some(opposite_of(ghost.dir)));
    if c.len() > 0 {
        let cells = candidate_cells(c, ghost.pos);
        let target = if returning { grid.ghost_spawn } else { target_spec(ghost.kind, pac_pos, ghost.dir, ghost.pos) };
        lemma_closest_index_in_range(cells, target);
        crate::grid_pos::lemma_closest_is_first_minimum(cells, target);
        if !choice_is_random(grid, ghost, returning) {
            let d = direction_choice(grid, ghost, pac_pos, returning, draw);
            assert(d == c[closest_index(cells, target)]);
            assert forall|j: int| 0 <= j < c.len() implies manhattan_spec(target, step_cell(ghost.pos, d))
                <= manhattan_spec(target, #[trigger] step_cell(ghost.pos, c[j])) by {
                assert(cells[j] == step_cell(ghost.pos, c[j]));
            }
        }
    }
}

/// Pinky targets four tiles ahead of Pac-Man: four tiles up when he heads
/// up, down when he heads down, left when he heads left and right when he
/// heads right; the other coordinate is Pac-Man's own. Its own position
/// plays no part.
pub proof fn lemma_pinky_targets_four_ahead(pac_pos: GridPos, pac_dir: Direction, self_pos: GridPos, other: GridPos)
    requires
        target_fits(GhostKind::Pinky, pac_pos, self_pos),
    ensures
        ({
            let t = target_spec(GhostKind::Pinky, pac_pos, pac_dir, self_pos);
            &&& pac_dir == Direction::Up ==> t.x == pac_pos.x && t.y == pac_pos.y + 4
            &&& pac_dir == Direction::Down ==> t.x == pac_pos.x && t.y == pac_pos.y - 4
            &&& pac_dir == Direction::Left ==> t.x == pac_pos.x - 4 && t.y == pac_pos.y
            &&& pac_dir == Direction::Right ==> t.x == pac_pos.x + 4 && t.y == pac_pos.y
            &&& manhattan_spec(pac_pos, t) == 4
            &&& t == target_spec(GhostKind::Pinky, pac_pos, pac_dir, other)
        }),
{
}

} // verus!
