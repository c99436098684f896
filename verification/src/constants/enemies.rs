//! Codes and base values of the enemy kinds.

use vstd::prelude::*;

verus! {

pub const ORC: u32 = 0;

pub const BAT: u32 = 1;

pub const KNIGHT: u32 = 2;

pub const WOLF: u32 = 3;

/// Health that an enemy of the given kind starts with; 0 for an unknown kind.
pub open spec fn start_health(enemy_type: u32) -> u32 {
    if enemy_type == ORC {
        85
    } else if enemy_type == BAT {
        100
    } else if enemy_type == KNIGHT {
        400
    } else if enemy_type == WOLF {
        125
    } else {
        0
    }
}

/// Health that an enemy of the given kind starts with; 0 for an unknown kind.
pub fn get_starthealth(enemy_type: u32) -> (health: u32)
    ensures
        health == start_health(enemy_type),
{
    match enemy_type {
        ORC => 85,
        BAT => 100,
        KNIGHT => 400,
        WOLF => 125,
        _ => 0,
    }
}

} // verus!
