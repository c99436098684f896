//! Codes and base values of the tower kinds.

use vstd::prelude::*;

verus! {

pub const CANON_TOWER: u32 = 0;

pub const ARCHER_TOWER: u32 = 1;

pub const WIZARD_TOWER: u32 = 2;

/// Display name of a tower kind.
pub open spec fn tower_name(tower_type: u32) -> Seq<char> {
    if tower_type == CANON_TOWER {
        "Canon Tower"@
    } else if tower_type == ARCHER_TOWER {
        "Archer Tower"@
    } else if tower_type == WIZARD_TOWER {
        "Wizard Tower"@
    } else {
        "Unknown Tower"@
    }
}

/// Damage of one hit of a tower kind; 0 for an unknown kind.
pub open spec fn start_damage(tower_type: u32) -> u32 {
    if tower_type == CANON_TOWER {
        15
    } else if tower_type == ARCHER_TOWER {
        5
    } else if tower_type == WIZARD_TOWER {
        30
    } else {
        0
    }
}

/// Range of a tower kind, in world units; 0 for an unknown kind.
pub open spec fn default_range(tower_type: u32) -> u32 {
    if tower_type == CANON_TOWER {
        75
    } else if tower_type == ARCHER_TOWER {
        120
    } else if tower_type == WIZARD_TOWER {
        100
    } else {
        0
    }
}

/// Cooldown of a tower kind, in updates at sixty a second; 0 for an unknown
/// kind.
pub open spec fn cooldown_time(tower_type: u32) -> u32 {
    if tower_type == CANON_TOWER {
        120
    } else if tower_type == ARCHER_TOWER {
        35
    } else if tower_type == WIZARD_TOWER {
        50
    } else {
        0
    }
}

/// Display name of a tower kind; "Unknown Tower" for an unknown kind.
pub fn get_name(tower_type: u32) -> (name: &'static str)
    ensures
        name@ == tower_name(tower_type),
{
    match tower_type {
        CANON_TOWER => "Canon Tower",
        ARCHER_TOWER => "Archer Tower",
        WIZARD_TOWER => "Wizard Tower",
        _ => "Unknown Tower",
    }
}

/// Damage of one hit of a tower kind; 0 for an unknown kind.
pub fn get_startdamage(tower_type: u32) -> (damage: u32)
    ensures
        damage == start_damage(tower_type),
{
    match tower_type {
        CANON_TOWER => 15,
        ARCHER_TOWER => 5,
        WIZARD_TOWER => 30,
        _ => 0,
    }
}

/// Range of a tower kind, in world units; 0 for an unknown kind.
pub fn get_defaultrange(tower_type: u32) -> (range: u32)
    ensures
        range == default_range(tower_type),
{
    match tower_type {
        CANON_TOWER => 75,
        ARCHER_TOWER => 120,
        WIZARD_TOWER => 100,
        _ => 0,
    }
}

/// Cooldown of a tower kind, in updates at sixty a second; 0 for an unknown
/// kind.
pub fn get_cooldowntime(tower_type: u32) -> (updates: u32)
    ensures
        updates == cooldown_time(tower_type),
{
    match tower_type {
        CANON_TOWER => 120,
        ARCHER_TOWER => 35,
        WIZARD_TOWER => 50,
        _ => 0,
    }
}

} // verus!
