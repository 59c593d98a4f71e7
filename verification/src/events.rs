//! The four cardinal grid directions.
//!
//! [`Direction::to_delta`] and [`Direction::from_ivec2`] are inverse
//! conversions between directions and unit grid displacements;
//! [`Direction::ALL`] iterates in a stable order (`Up, Down, Left, Right`)
//! shared with the learning agent's action head.

use vstd::prelude::*;
use crate::grid_pos::GridPos;

verus! {

/// One of the four cardinal directions on the grid.
#[derive(Debug, Clone, Copy, PartialEq, Eq, Structural, Hash, PartialOrd, Ord)]
pub enum Direction {
    Up,
    Down,
    Left,
    Right,
}

/// Unit displacement of a direction (`+y` is up).
pub open spec fn delta_of(d: Direction) -> GridPos {
    match d {
        Direction::Up => GridPos { x: 0, y: 1 },
        Direction::Down => GridPos { x: 0, y: -1i32 },
        Direction::Left => GridPos { x: -1i32, y: 0 },
        Direction::Right => GridPos { x: 1, y: 0 },
    }
}

/// The direction pointing the opposite way.
pub open spec fn opposite_of(d: Direction) -> Direction {
    match d {
        Direction::Up => Direction::Down,
        Direction::Down => Direction::Up,
        Direction::Left => Direction::Right,
        Direction::Right => Direction::Left,
    }
}

/// The direction at position `i` of the stable order `Up, Down, Left, Right`.
pub open spec fn direction_at(i: int) -> Direction {
    if i == 0 {
        Direction::Up
    } else if i == 1 {
        Direction::Down
    } else if i == 2 {
        Direction::Left
    } else {
        Direction::Right
    }
}

/// Whether `delta` is one of the four unit cardinal steps.
pub open spec fn is_unit_cardinal(delta: GridPos) -> bool {
    (delta.x == 0 && (delta.y == 1 || delta.y == -1)) || (delta.y == 0 && (delta.x == 1
        || delta.x == -1))
}

impl Direction {
    /// All four directions in stable order.
    pub const ALL: [Direction; 4] = [Direction::Up, Direction::Down, Direction::Left, Direction::Right];

    /// Unit displacement in grid coordinates (`+y` is up).
    pub fn to_delta(self) -> (r: GridPos)
        ensures
            r == delta_of(self),
    {
        match self {
            Direction::Up => GridPos { x: 0, y: 1 },
            Direction::Down => GridPos { x: 0, y: -1 },
            Direction::Left => GridPos { x: -1, y: 0 },
            Direction::Right => GridPos { x: 1, y: 0 },
        }
    }

    /// The direction pointing the opposite way.
    pub fn opposite(self) -> (r: Direction)
        ensures
            r == opposite_of(self),
    {
        match self {
            Direction::Up => Direction::Down,
            Direction::Down => Direction::Up,
            Direction::Left => Direction::Right,
            Direction::Right => Direction::Left,
        }
    }

    /// The unique cardinal direction whose [`Direction::to_delta`] equals
    /// `delta`, or `None` if `delta` is not a unit cardinal step.
    pub fn from_ivec2(delta: GridPos) -> (r: Option<Direction>)
        ensures
            r matches Some(d) ==> delta_of(d) == delta,
            r is None <==> !is_unit_cardinal(delta),
    {
        if delta.x == 0 && delta.y == 1 {
            Some(Direction::Up)
        } else if delta.x == 0 && delta.y == -1 {
            Some(Direction::Down)
        } else if delta.x == -1 && delta.y == 0 {
            Some(Direction::Left)
        } else if delta.x == 1 && delta.y == 0 {
            Some(Direction::Right)
        } else {
            None
        }
    }
}

/// Converting a direction to its delta and back yields the same direction.
pub proof fn lemma_from_ivec2_roundtrip(d: Direction)
    ensures
        is_unit_cardinal(delta_of(d)),
        forall|r: Direction| delta_of(r) == delta_of(d) ==> r == d,
{
}

/// The opposite of the opposite is the direction itself, and no direction
/// is its own opposite.
pub proof fn lemma_opposite_involutive(d: Direction)
    ensures
        opposite_of(opposite_of(d)) == d,
        opposite_of(d) != d,
{
}

/// A direction's delta and its opposite's delta cancel out.
pub proof fn lemma_opposite_deltas_cancel(d: Direction)
    ensures
        delta_of(d).x + delta_of(opposite_of(d)).x == 0,
        delta_of(d).y + delta_of(opposite_of(d)).y == 0,
{
}

/// Position of a direction in the stable order `Up, Down, Left, Right`.
pub open spec fn direction_index(d: Direction) -> int {
    match d {
        Direction::Up => 0,
        Direction::Down => 1,
        Direction::Left => 2,
        Direction::Right => 3,
    }
}

/// The stable order lists four pairwise distinct directions, and every
/// direction appears in it.
pub proof fn lemma_all_directions_distinct()
    ensures
        forall|i: int, j: int| 0 <= i < j < 4 ==> direction_at(i) != direction_at(j),
        forall|d: Direction|
            0 <= #[trigger] direction_index(d) < 4 && direction_at(direction_index(d)) == d,
{
}

} // verus!
