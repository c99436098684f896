//! Codes of the tile classes.

use vstd::prelude::*;

verus! {

pub const WATER_TILE: u32 = 0;

pub const GRASS_TILE: u32 = 1;

pub const ROAD_TILE: u32 = 2;

pub const START_TILE: u32 = 3;

pub const END_TILE: u32 = 4;

} // verus!
