//! A deterministic tower-defense simulation core.
//!
//! Enemies walk a route derived from a tile grid, towers pick targets and
//! fire homing projectiles, and the outcome is tracked as currency and
//! lives. A second policy, the stress test, runs the same mechanics under
//! heavy, looping load.
//!
//! Time is measured in whole nanoseconds and space in fixed-point sub-units
//! of which a billion make a world unit, so that every step of the
//! simulation is exact integer arithmetic.
//!
//! * [`grid`], [`path`]: the level and the route through it.
//! * [`geometry`], [`timer`]: points, steps along a line, recurring timers.
//! * [`enemy`], [`tower`], [`projectile`]: what is in play, and what one
//!   tick does to each.
//! * [`session`]: the context that owns a session of play.
//! * [`game`], [`simulation`]: the passes of a tick under the two policies.
//! * [`constants`], [`sprites`]: tables of the unit kinds and of their
//!   pictures.

pub mod constants;
pub mod enemy;
pub mod game;
pub mod geometry;
pub mod grid;
pub mod path;
pub mod projectile;
pub mod session;
pub mod simulation;
pub mod sprites;
pub mod timer;
pub mod tower;
