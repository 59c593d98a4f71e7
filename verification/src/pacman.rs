//! The player: grid-based Pac-Man movement, input buffering, and pellet eating.
//!
//! Movement is discrete: each movement tick advances the player one tile
//! along its current [`Direction`]. A desired turn is *buffered* in
//! [`Player::queued`] and applied at the next tick if the target tile is free,
//! which gives the classic forgiving cornering feel without continuous motion.

use vstd::prelude::*;
use crate::events::{Direction, delta_of, direction_at};
use crate::grid_pos::GridPos;
use crate::maze::{MazeGrid, MazeModel, PelletKind, PelletMap, food_at, board_after_eat};

verus! {

/// The player pawn. `pos` is the source of truth for the sprite.
#[derive(Debug, Clone, Copy, PartialEq, Eq, Structural)]
pub struct Player {
    /// Current grid tile.
    pub pos: GridPos,
    /// Heading used when no turn is queued.
    pub dir: Direction,
    /// Buffered turn request, consumed on the next successful step.
    pub queued: Option<Direction>,
}

impl Default for Player {
    fn default() -> (r: Self)
        ensures
            r.pos == (GridPos { x: 0, y: 0 }),
            r.dir == Direction::Left,
            r.queued is None,
    {
        Player { pos: GridPos { x: 0, y: 0 }, dir: Direction::Left, queued: None }
    }
}

/// The cell one step from `pos` in direction `d`.
pub open spec fn step_cell(pos: GridPos, d: Direction) -> GridPos {
    GridPos { x: (pos.x + delta_of(d).x) as i32, y: (pos.y + delta_of(d).y) as i32 }
}

/// Whether the step from `pos` in direction `d` stays inside the `i32`
/// range.
pub open spec fn can_step(pos: GridPos, d: Direction) -> bool {
    i32::MIN <= pos.x + delta_of(d).x <= i32::MAX && i32::MIN <= pos.y + delta_of(d).y <= i32::MAX
}

/// Whether the steps a movement tick may try stay inside the `i32` range:
/// the buffered turn, if any, and the current heading.
pub open spec fn tried_steps_fit(pos: GridPos, dir: Direction, queued: Option<Direction>) -> bool {
    &&& can_step(pos, dir)
    &&& queued matches Some(t) ==> can_step(pos, t)
}

/// Whether the step from `pos` in direction `d` stays inside the `i32`
/// range (see [`can_step`]).
fn step_in_range(pos: GridPos, d: Direction) -> (r: bool)
    ensures
        r == can_step(pos, d),
{
    let v = d.to_delta();
    let x: i64 = pos.x as i64 + v.x as i64;
    let y: i64 = pos.y as i64 + v.y as i64;
    i32::MIN as i64 <= x && x <= i32::MAX as i64 && i32::MIN as i64 <= y && y <= i32::MAX as i64
}

/// Whether the steps a movement tick may try stay inside the `i32` range
/// (see [`tried_steps_fit`]).
pub fn tried_steps_in_range(pos: GridPos, dir: Direction, queued: Option<Direction>) -> (r: bool)
    ensures
        r == tried_steps_fit(pos, dir, queued),
{
    step_in_range(pos, dir) && match queued {
        Some(t) => step_in_range(pos, t),
        None => true,
    }
}

/// One grid step: the buffered turn if its cell is open (consuming the
/// buffer), else the current heading if its cell is open, else no move.
/// Returns the move and the buffer afterwards.
pub open spec fn resolve_step_spec(
    grid: MazeModel,
    pos: GridPos,
    dir: Direction,
    queued: Option<Direction>,
) -> (Option<(GridPos, Direction)>, Option<Direction>) {
    if queued is Some && !grid.wall_at(step_cell(pos, queued->0)) {
        (Some((step_cell(pos, queued->0), queued->0)), None)
    } else if grid.wall_at(step_cell(pos, dir)) {
        (None, queued)
    } else {
        (Some((step_cell(pos, dir), dir)), queued)
    }
}

/// Resolves the next tile and heading for one grid step.
///
/// Tries the buffered turn first, falling back to the current heading;
/// returns `None` when both lead into walls. The buffer is cleared only when
/// actually consumed, so a blocked turn stays pending.
pub fn resolve_step(
    pos: GridPos,
    dir: Direction,
    queued: &mut Option<Direction>,
    grid: &MazeGrid,
) -> (r: Option<(GridPos, Direction)>)
    requires
        tried_steps_fit(pos, dir, *old(queued)),
    ensures
        (r, *final(queued)) == resolve_step_spec(grid@, pos, dir, *old(queued)),
{
    if let Some(turned) = *queued {
        let d = turned.to_delta();
        let candidate = pos.plus(d);
        if !grid.is_wall(candidate) {
            *queued = None;
            return Some((candidate, turned));
        }
    }
    let forward = pos.plus(dir.to_delta());
    if grid.is_wall(forward) {
        None
    } else {
        Some((forward, dir))
    }
}

/// A completed grid step: where the player arrived and what it ate there.
#[derive(Debug, Clone, Copy, PartialEq, Eq, Structural)]
pub struct Moved {
    pub pos: GridPos,
    pub eaten: Option<PelletKind>,
}

impl Player {
    /// Advances the player one tile (a movement tick) and eats the food on
    /// the tile it reaches. Returns `None` when the player could not move.
    pub fn advance(&mut self, grid: &MazeGrid, pellets: &mut PelletMap) -> (r: Option<Moved>)
        requires
            tried_steps_fit(old(self).pos, old(self).dir, old(self).queued),
            old(pellets).wf(),
        ensures
            final(pellets).wf(),
            ({
                let (mv, q) = resolve_step_spec(grid@, old(self).pos, old(self).dir, old(self).queued);
                &&& final(self).queued == q
                &&& mv is None ==> r is None && final(self).pos == old(self).pos && final(self).dir
                    == old(self).dir && final(pellets)@ == old(pellets)@
                &&& mv matches Some((p, d)) ==> r == Some(
                    Moved { pos: p, eaten: food_at(old(pellets)@, p) },
                ) && final(self).pos == p && final(self).dir == d && final(pellets)@
                    == board_after_eat(old(pellets)@, p)
            }),
    {
        match resolve_step(self.pos, self.dir, &mut self.queued, grid) {
            Some((next, heading)) => {
                self.dir = heading;
                self.pos = next;
                let eaten = pellets.eat(next);
                Some(Moved { pos: next, eaten })
            },
            None => None,
        }
    }

    /// On life loss, returns Pac-Man to his spawn tile facing left with an
    /// empty buffer.
    pub fn respawn(&mut self, grid: &MazeGrid)
        ensures
            final(self).pos == grid@.pacman_spawn,
            final(self).dir == Direction::Left,
            final(self).queued is None,
    {
        self.pos = grid.pacman_spawn();
        self.dir = Direction::Left;
        self.queued = None;
    }

    /// Whether a ghost at `ghost_pos` shares the player's tile.
    pub fn touches(&self, ghost_pos: GridPos) -> (r: bool)
        ensures
            r == (self.pos == ghost_pos),
    {
        self.pos.x == ghost_pos.x && self.pos.y == ghost_pos.y
    }
}

/// Index of the group pressed last among the first `k` held groups (ties go
/// to the earlier group), or `None` when none of them is held.
pub open spec fn newest_upto(held: [Option<u64>; 4], k: int) -> Option<int>
    decreases k,
{
    if k <= 0 {
        None
    } else {
        let prev = newest_upto(held, k - 1);
        match held[k - 1] {
            None => prev,
            Some(t) => match prev {
                None => Some(k - 1),
                Some(b) => if t > held[b]->0 {
                    Some(k - 1)
                } else {
                    prev
                },
            },
        }
    }
}

/// The newest requested direction given when each direction key group was
/// pressed (`None`: not held), in the order up, down, left, right.
pub open spec fn newest_press(held: [Option<u64>; 4]) -> Option<Direction> {
    match newest_upto(held, 4) {
        Some(i) => Some(direction_at(i)),
        None => None,
    }
}

/// The newest press is the held group pressed last: no other held group
/// was pressed later, and one pressed in the same frame comes later in the
/// order up, down, left, right. Nothing is requested when nothing is held.
pub proof fn lemma_newest_press_is_latest(held: [Option<u64>; 4], k: int)
    requires
        0 <= k <= 4,
    ensures
        newest_upto(held, k) is None <==> (forall|j: int| 0 <= j < k ==> #[trigger] held[j] is None),
        newest_upto(held, k) matches Some(i) ==> 0 <= i < k && held[i] is Some && forall|j: int|
            0 <= j < k && j != i && #[trigger] held[j] is Some ==> (held[j]->0 < held[i]->0 || (
            held[j]->0 == held[i]->0 && i < j)),
    decreases k,
{
    if k > 0 {
        lemma_newest_press_is_latest(held, k - 1);
    }
}

/// The newest requested direction: among the held direction key groups
/// (`held_since[i]` is the input frame at which group `i` was pressed, in the
/// order up, down, left, right), the one pressed last; groups pressed in the
/// same frame go by that order.
pub fn requested_direction(held_since: [Option<u64>; 4]) -> (r: Option<Direction>)
    ensures
        r == newest_press(held_since),
        r is None <==> (forall|i: int| 0 <= i < 4 ==> #[trigger] held_since[i] is None),
        r matches Some(d) ==> exists|i: int|
            0 <= i < 4 && direction_at(i) == d && held_since[i] is Some && forall|j: int|
                0 <= j < 4 && j != i && #[trigger] held_since[j] is Some ==> (held_since[j]->0
                    < held_since[i]->0 || (held_since[j]->0 == held_since[i]->0 && i < j)),
{
    proof {
        lemma_newest_press_is_latest(held_since, 4);
    }
    let mut best: Option<usize> = None;
    let mut i: usize = 0;
    while i < 4
        invariant
            i <= 4,
            match best {
                Some(b) => newest_upto(held_since, i as int) == Some(b as int) && b < i,
                None => newest_upto(held_since, i as int) is None,
            },
        decreases 4 - i,
    {
        proof {
            lemma_newest_press_is_latest(held_since, i as int);
        }
        match held_since[i] {
            Some(t) => {
                match best {
                    Some(b) => {
                        match held_since[b] {
                            Some(tb) => {
                                if t > tb {
                                    best = Some(i);
                                }
                            },
                            None => {},
                        }
                    },
                    None => {
                        best = Some(i);
                    },
                }
            },
            None => {},
        }
        i += 1;
    }
    match best {
        Some(b) => {
            let d = Direction::ALL[b];
            assert(d == direction_at(b as int));
            Some(d)
        },
        None => None,
    }
}

/// The input frame at which a direction key group counts as pressed, after
/// one more frame: a released group is cleared, a group pressed anew gets
/// the current frame, a group still held keeps its frame.
pub open spec fn next_press_frame(prev: Option<u64>, pressed: bool, clock: u64) -> Option<u64> {
    if !pressed {
        None
    } else if prev is Some {
        prev
    } else {
        Some(clock)
    }
}

fn next_press(prev: Option<u64>, pressed: bool, clock: u64) -> (r: Option<u64>)
    ensures
        r == next_press_frame(prev, pressed, clock),
{
    if !pressed {
        None
    } else {
        match prev {
            Some(t) => Some(t),
            None => Some(clock),
        }
    }
}

/// The held direction key groups (in the order up, down, left, right), each
/// with the input frame at which it was pressed, and the current frame.
#[derive(Debug, Clone, Copy)]
pub struct KeyHistory {
    pub held_since: [Option<u64>; 4],
    pub clock: u64,
}

impl KeyHistory {
    /// No key held, at frame 0.
    pub fn new() -> (r: KeyHistory)
        ensures
            r.clock == 0,
            forall|i: int| 0 <= i < 4 ==> #[trigger] r.held_since[i] is None,
    {
        KeyHistory { held_since: [None, None, None, None], clock: 0 }
    }

    /// Records one input frame: `pressed[i]` tells whether group `i` is
    /// held now.
    pub fn record(&mut self, pressed: [bool; 4])
        requires
            old(self).clock < u64::MAX,
        ensures
            final(self).clock == old(self).clock + 1,
            forall|i: int| 0 <= i < 4 ==> #[trigger] final(self).held_since[i] == next_press_frame(
                old(self).held_since[i],
                pressed[i],
                old(self).clock,
            ),
    {
        let c = self.clock;
        let h = self.held_since;
        let next = [
            next_press(h[0], pressed[0], c),
            next_press(h[1], pressed[1], c),
            next_press(h[2], pressed[2], c),
            next_press(h[3], pressed[3], c),
        ];
        proof {
            assert forall|i: int| 0 <= i < 4 implies #[trigger] next[i] == next_press_frame(h[i], pressed[i], c) by {
                if i == 0 {} else if i == 1 {} else if i == 2 {} else {}
            }
        }
        self.held_since = next;
        self.clock = c + 1;
    }

    /// The newest requested direction (see [`requested_direction`]).
    pub fn newest(&self) -> (r: Option<Direction>)
        ensures
            r == newest_press(self.held_since),
    {
        requested_direction(self.held_since)
    }
}

/// A step never lands on a wall: whenever the player moves, it moves one
/// cell in the chosen heading onto an open cell, and a turn is taken only
/// when it was buffered.
pub proof fn lemma_step_lands_on_open_cell(
    grid: MazeModel,
    pos: GridPos,
    dir: Direction,
    queued: Option<Direction>,
)
    ensures
        resolve_step_spec(grid, pos, dir, queued).0 matches Some((p, d)) ==> !grid.wall_at(p)
            && p == step_cell(pos, d) && (d == dir || queued == Some(d)),
        resolve_step_spec(grid, pos, dir, queued).0 is None ==> resolve_step_spec(
            grid,
            pos,
            dir,
            queued,
        ).1 == queued,
        resolve_step_spec(grid, pos, dir, queued).1 is Some ==> resolve_step_spec(
            grid,
            pos,
            dir,
            queued,
        ).1 == queued,
{
}

/// A buffered turn whose cell is open is always taken, whatever the current
/// heading (even straight back): the player moves one cell that way, now
/// heads that way, and the buffer is emptied. Two players at the same cell
/// with the same buffered open turn move alike, whichever way they headed.
pub proof fn lemma_open_turn_is_taken(
    grid: MazeModel,
    pos: GridPos,
    dir: Direction,
    other_dir: Direction,
    t: Direction,
)
    requires
        can_step(pos, t),
        !grid.wall_at(GridPos { x: (pos.x + delta_of(t).x) as i32, y: (pos.y + delta_of(t).y) as i32 }),
    ensures
        ({
            let (mv, q) = resolve_step_spec(grid, pos, dir, Some(t));
            &&& q is None
            &&& mv matches Some((p, d)) && d == t && p.x == pos.x + delta_of(t).x && p.y == pos.y
                + delta_of(t).y
            &&& mv matches Some((p, _)) && crate::grid_pos::manhattan_spec(pos, p) == 1
        }),
        resolve_step_spec(grid, pos, dir, Some(t)) == resolve_step_spec(grid, pos, other_dir, Some(t)),
{
}

/// A buffered turn into a wall is kept for later, and the player keeps its
/// heading: it moves one cell ahead when that cell is open and stays put
/// otherwise.
pub proof fn lemma_blocked_turn_waits(grid: MazeModel, pos: GridPos, dir: Direction, queued: Option<Direction>)
    requires
        queued is None || grid.wall_at(step_cell(pos, queued->0)),
        can_step(pos, dir),
    ensures
        resolve_step_spec(grid, pos, dir, queued).1 == queued,
        !grid.wall_at(step_cell(pos, dir)) ==> resolve_step_spec(grid, pos, dir, queued).0 == Some(
            (GridPos { x: (pos.x + delta_of(dir).x) as i32, y: (pos.y + delta_of(dir).y) as i32 }, dir),
        ),
        grid.wall_at(step_cell(pos, dir)) ==> resolve_step_spec(grid, pos, dir, queued).0 is None,
{
}

} // verus!
