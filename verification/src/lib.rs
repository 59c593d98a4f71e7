//! Pac-Man Lite game core: grid geometry, maze parsing, pellet tracking,
//! player and ghost movement rules, and a deterministic headless environment
//! for reinforcement learning.

pub mod grid_pos;
pub mod events;
pub mod maze;
pub mod headless_env;
pub mod random;
pub mod agent;
pub mod pacman;
pub mod ghosts;
pub mod ui;
