//! Tables of the game's unit kinds: their numeric codes and base values.

pub mod enemies;
pub mod projectiles;
pub mod tiles;
pub mod towers;

use vstd::prelude::*;

verus! {

/// One of the four ways to face on the grid.
#[derive(Clone, Copy, Debug, PartialEq, Eq, Structural)]
pub enum Direction {
    Left,
    Up,
    Right,
    Down,
}

} // verus!
