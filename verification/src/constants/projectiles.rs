//! Codes of the projectile kinds.

use vstd::prelude::*;

verus! {

pub const ARROW: u32 = 0;

pub const BOMB: u32 = 1;

pub const CHAINS: u32 = 2;

} // verus!
