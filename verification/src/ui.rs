//! Score, lives and level-completion rules.
//!
//! A dot pellet is worth 10 points and a power pellet 50; touching a ghost
//! that is not frightened costs a life, while a frightened one is sent
//! home; the level is won when the board has been cleared, and the game is
//! over when no life is left.

use vstd::prelude::*;
use crate::ghosts::{GhostMode, ScriptedGhost};
use crate::maze::{PelletMap, food_count};

verus! {

/// Player's current score.
#[derive(Debug, Clone, Copy, PartialEq, Eq, Structural)]
pub struct Score(pub u32);

/// Remaining extra lives. Starts at three per session.
#[derive(Debug, Clone, Copy, PartialEq, Eq, Structural)]
pub struct Lives(pub u32);

/// Best score this session.
#[derive(Debug, Clone, Copy, PartialEq, Eq, Structural)]
pub struct HighScore(pub u32);

impl Default for Score {
    fn default() -> (r: Self)
        ensures
            r.0 == 0,
    {
        Score(0)
    }
}

impl Default for Lives {
    fn default() -> (r: Self)
        ensures
            r.0 == 3,
    {
        Lives(3)
    }
}

impl Default for HighScore {
    fn default() -> (r: Self)
        ensures
            r.0 == 0,
    {
        HighScore(0)
    }
}

impl Score {
    /// A dot pellet was eaten: +10. Returns whether that cleared the board
    /// (the level-cleared signal).
    pub fn on_pellet_eaten(&mut self, pellets: &PelletMap) -> (cleared: bool)
        requires
            old(self).0 + 10 <= u32::MAX,
            pellets.wf(),
        ensures
            final(self).0 == old(self).0 + 10,
            cleared == (food_count(pellets@) == 0),
    {
        self.0 = self.0 + 10;
        pellets.remaining() == 0
    }

    /// A power pellet was eaten: +50. Returns whether that cleared the
    /// board (the level-cleared signal fires when the last pellet or power
    /// pellet is eaten).
    pub fn on_power_pellet(&mut self, pellets: &PelletMap) -> (cleared: bool)
        requires
            old(self).0 + 50 <= u32::MAX,
            pellets.wf(),
        ensures
            final(self).0 == old(self).0 + 50,
            cleared == (food_count(pellets@) == 0),
    {
        self.0 = self.0 + 50;
        pellets.remaining() == 0
    }
}

impl Lives {
    /// Pac-Man touched `ghost`: a frightened ghost is sent home (it turns to
    /// eaten and heads for the house) and costs nothing; any other contact
    /// costs a life while lives remain and leaves the ghost as it is.
    pub fn on_ghost_collision(&mut self, ghost: &mut ScriptedGhost)
        ensures
            old(ghost).mode == GhostMode::Frightened ==> final(self).0 == old(self).0 && *final(ghost)
                == (ScriptedGhost { mode: GhostMode::Eaten, ..*old(ghost) }),
            old(ghost).mode != GhostMode::Frightened ==> *final(ghost) == *old(ghost),
            old(ghost).mode != GhostMode::Frightened && old(self).0 > 0 ==> final(self).0 == old(self).0 - 1,
            old(ghost).mode != GhostMode::Frightened && old(self).0 == 0 ==> final(self).0 == 0,
    {
        if ghost.mode == GhostMode::Frightened {
            ghost.mode = GhostMode::Eaten;
            return;
        }
        if self.0 > 0 {
            self.0 = self.0 - 1;
        }
    }

    /// Whether every life is gone (game over).
    pub fn is_exhausted(&self) -> (r: bool)
        ensures
            r == (self.0 == 0),
    {
        self.0 == 0
    }
}

/// Session-wide gameplay counters reset on level entry.
#[derive(Debug, Clone, Copy, PartialEq, Eq, Structural)]
pub struct GameSession {
    pub pellets_at_start: usize,
}

impl GameSession {
    /// A session whose level started with `count` food items.
    pub fn new(count: usize) -> (r: Self)
        ensures
            r.pellets_at_start == count,
    {
        GameSession { pellets_at_start: count }
    }

    /// Whether the level is won: the board is empty and it did hold food
    /// when the level started.
    pub fn level_won(&self, pellets: &PelletMap) -> (r: bool)
        requires
            pellets.wf(),
        ensures
            r == (food_count(pellets@) == 0 && self.pellets_at_start > 0),
    {
        pellets.remaining() == 0 && self.pellets_at_start > 0
    }
}

} // verus!
