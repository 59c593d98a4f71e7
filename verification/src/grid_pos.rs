//! Integer grid coordinates.
//!
//! Grid coordinates are `(x, y)` with `(0, 0)` at the bottom-left corner;
//! `x` grows right and `y` grows up.

use vstd::prelude::*;

verus! {

/// A cell (or a displacement between cells) on the integer grid.
#[derive(Debug, Clone, Copy, PartialEq, Eq, Structural, Hash)]
pub struct GridPos {
    pub x: i32,
    pub y: i32,
}

/// Whether `v` can take part in a sum or difference with a small offset
/// (at most `m` in absolute value) without leaving the `i32` range.
pub open spec fn fits_with_margin(v: int, m: int) -> bool {
    i32::MIN + m <= v <= i32::MAX - m
}

/// Manhattan (taxicab) distance between two cells, as a mathematical integer.
pub open spec fn manhattan_spec(a: GridPos, b: GridPos) -> int {
    abs_spec(a.x - b.x) + abs_spec(a.y - b.y)
}

/// Absolute value of a mathematical integer.
pub open spec fn abs_spec(v: int) -> int {
    if v < 0 { -v } else { v }
}

impl GridPos {
    /// Builds a cell from its two coordinates.
    pub fn new(x: i32, y: i32) -> (r: GridPos)
        ensures
            r.x == x,
            r.y == y,
    {
        GridPos { x, y }
    }

    /// The origin `(0, 0)`.
    pub fn zero() -> (r: GridPos)
        ensures
            r.x == 0,
            r.y == 0,
    {
        GridPos { x: 0, y: 0 }
    }

    /// Component-wise sum.
    pub fn plus(self, other: GridPos) -> (r: GridPos)
        requires
            i32::MIN <= self.x + other.x <= i32::MAX,
            i32::MIN <= self.y + other.y <= i32::MAX,
        ensures
            r.x == self.x + other.x,
            r.y == self.y + other.y,
    {
        GridPos { x: self.x + other.x, y: self.y + other.y }
    }

    /// Component-wise difference.
    pub fn minus(self, other: GridPos) -> (r: GridPos)
        requires
            i32::MIN <= self.x - other.x <= i32::MAX,
            i32::MIN <= self.y - other.y <= i32::MAX,
        ensures
            r.x == self.x - other.x,
            r.y == self.y - other.y,
    {
        GridPos { x: self.x - other.x, y: self.y - other.y }
    }

    /// Multiplies both components by `k`.
    pub fn times(self, k: i32) -> (r: GridPos)
        requires
            i32::MIN <= self.x * k <= i32::MAX,
            i32::MIN <= self.y * k <= i32::MAX,
        ensures
            r.x == self.x * k,
            r.y == self.y * k,
    {
        GridPos { x: self.x * k, y: self.y * k }
    }
}

/// Manhattan distance between two grid cells. It is computed in `i32`, as
/// `|dx| + |dy|`, so the distance must fit an `i32`.
pub fn manhattan(a: GridPos, b: GridPos) -> (d: i32)
    requires
        manhattan_spec(a, b) <= i32::MAX,
    ensures
        d == manhattan_spec(a, b),
{
    let dx = a.x - b.x;
    let dy = a.y - b.y;
    let ax: i32 = if dx < 0 { -dx } else { dx };
    let ay: i32 = if dy < 0 { -dy } else { dy };
    ax + ay
}

/// Whether the Manhattan distance from `a` to `b` fits an `i32`.
pub fn manhattan_fits(a: GridPos, b: GridPos) -> (r: bool)
    ensures
        r == (manhattan_spec(a, b) <= i32::MAX),
{
    let dx: i64 = a.x as i64 - b.x as i64;
    let dy: i64 = a.y as i64 - b.y as i64;
    let ax: i64 = if dx < 0 { -dx } else { dx };
    let ay: i64 = if dy < 0 { -dy } else { dy };
    ax + ay <= i32::MAX as i64
}

/// Whether a unit step from `pos` in any direction stays inside the `i32`
/// range.
pub open spec fn steppable(pos: GridPos) -> bool {
    fits_with_margin(pos.x as int, 1) && fits_with_margin(pos.y as int, 1)
}

/// Whether a unit step from `pos` in any direction stays inside the `i32`
/// range (see [`steppable`]).
pub fn is_steppable(pos: GridPos) -> (r: bool)
    ensures
        r == steppable(pos),
{
    i32::MIN < pos.x && pos.x < i32::MAX && i32::MIN < pos.y && pos.y < i32::MAX
}

/// Index of the first cell of `c` closest to `target` (Manhattan distance);
/// ties go to the earliest cell.
pub open spec fn closest_index(c: Seq<GridPos>, target: GridPos) -> int
    decreases c.len(),
{
    if c.len() <= 1 {
        0
    } else {
        let j = closest_index(c.drop_last(), target);
        if manhattan_spec(target, c.last()) < manhattan_spec(target, c[j]) {
            c.len() - 1
        } else {
            j
        }
    }
}

/// The chosen candidate index is in range.
pub proof fn lemma_closest_index_in_range(c: Seq<GridPos>, target: GridPos)
    requires
        c.len() > 0,
    ensures
        0 <= closest_index(c, target) < c.len(),
    decreases c.len(),
{
    if c.len() > 1 {
        lemma_closest_index_in_range(c.drop_last(), target);
    }
}

/// Index of the first candidate closest to `target`.
pub fn closest_candidate(c: &Vec<GridPos>, target: GridPos) -> (r: usize)
    requires
        c.len() > 0,
        forall|j: int| 0 <= j < c.len() ==> #[trigger] manhattan_spec(target, c@[j]) <= i32::MAX,
    ensures
        r == closest_index(c@, target),
        r < c.len(),
{
    let mut best: usize = 0;
    assert(manhattan_spec(target, c@[0]) <= i32::MAX);
    let mut best_dist: i32 = manhattan(target, c[0]);
    let mut k: usize = 1;
    proof {
        assert(c@.take(1).len() == 1);
    }
    while k < c.len()
        invariant
            1 <= k <= c.len(),
            forall|j: int| 0 <= j < c.len() ==> #[trigger] manhattan_spec(target, c@[j]) <= i32::MAX,
            best < k,
            best == closest_index(c@.take(k as int), target),
            best_dist == manhattan_spec(target, c@[best as int]),
        decreases c.len() - k,
    {
        assert(manhattan_spec(target, c@[k as int]) <= i32::MAX);
        let d = manhattan(target, c[k]);
        proof {
            assert(c@.take(k + 1).drop_last() =~= c@.take(k as int));
            assert(c@.take(k + 1).last() == c@[k as int]);
        }
        if d < best_dist {
            best = k;
            best_dist = d;
        }
        k += 1;
    }
    proof {
        assert(c@.take(c.len() as int) =~= c@);
    }
    best
}

/// The chosen index is a closest cell, and every earlier cell is strictly
/// farther (ties go to the earliest cell).
pub proof fn lemma_closest_is_first_minimum(c: Seq<GridPos>, target: GridPos)
    requires
        c.len() > 0,
    ensures
        forall|j: int| 0 <= j < c.len() ==> manhattan_spec(target, c[closest_index(c, target)])
            <= manhattan_spec(target, #[trigger] c[j]),
        forall|j: int| 0 <= j < closest_index(c, target) ==> manhattan_spec(target, #[trigger] c[j])
            > manhattan_spec(target, c[closest_index(c, target)]),
    decreases c.len(),
{
    lemma_closest_index_in_range(c, target);
    if c.len() > 1 {
        let p = c.drop_last();
        lemma_closest_is_first_minimum(p, target);
        lemma_closest_index_in_range(p, target);
        let k = closest_index(p, target);
        assert forall|j: int| 0 <= j < c.len() implies manhattan_spec(target, c[closest_index(c, target)])
            <= manhattan_spec(target, #[trigger] c[j]) by {
            if j < c.len() - 1 {
                assert(c[j] == p[j]);
            }
        }
        assert forall|j: int| 0 <= j < closest_index(c, target) implies manhattan_spec(target, #[trigger] c[j])
            > manhattan_spec(target, c[closest_index(c, target)]) by {
            if j < c.len() - 1 {
                assert(c[j] == p[j]);
            }
        }
    }
}

} // verus!

