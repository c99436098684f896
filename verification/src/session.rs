//! The simulation context: everything that one session of play owns.
//!
//! A [`Session`] is handed to every pass of the simulation. Its fields can be
//! read through the accessors and changed only through the passes and the
//! few builders below, so that a session is always well-formed.

use crate::enemy::{has_id, valid_mobs, Enemy, Health, Mob, PathFollower};
use crate::geometry::Point;
use crate::grid::Level;
use crate::path::{extract_path, route, Path};
use crate::projectile::{find_mob, shots_in_world, Projectile};
use crate::timer::Cooldown;
use crate::tower::{towers_in_world, Tower};
use vstd::prelude::*;

verus! {

/// Currency at the start of a session.
pub const START_MONEY: i32 = 300;

/// Lives at the start of a session.
pub const START_LIVES: i32 = 3;

/// Time between two enemies of normal play, in nanoseconds.
pub const SPAWN_PERIOD: u64 = 1_500_000_000;

/// Time between two bursts of a stress test, in nanoseconds: a sixtieth of a
/// second.
pub const BURST_PERIOD: u64 = 16_666_667;

/// The two policies that a session can run under.
#[derive(Clone, Copy, Debug, PartialEq, Eq, Structural)]
pub enum Mode {
    /// Normal play: enemies that walk the whole route cost a life, kills pay.
    Normal,
    /// Stress test: enemies loop, spawn in bursts, and nothing is scored.
    Stress,
}

/// What the player has: currency and lives.
#[derive(Clone, Copy, Debug, PartialEq, Eq, Structural)]
pub struct PlayerStats {
    pub money: i32,
    pub lives: i32,
}

/// The pause flag. While it is set, a tick moves nothing.
#[derive(Clone, Copy, Debug, PartialEq, Eq, Structural)]
pub struct GlobalPause(pub bool);

/// Where a stress test stands.
#[derive(Clone, Copy, Debug, PartialEq, Eq, Structural)]
pub enum SessionPhase {
    NotStarted,
    Running,
    Finished,
}

/// The state of a stress test.
///
/// `start_time` is the session clock at the test's first tick, `finished` is
/// set once the test has run its length; after that no enemy is spawned.
#[derive(Clone, Copy, Debug, PartialEq, Eq, Structural)]
pub struct SimState {
    pub start_time: Option<u64>,
    pub total_spawned: u32,
    pub spawn_timer: Cooldown,
    pub finished: bool,
}

impl SimState {
    /// The phase that the state stands for.
    pub open spec fn phase_of(self) -> SessionPhase {
        if self.finished {
            SessionPhase::Finished
        } else if self.start_time is Some {
            SessionPhase::Running
        } else {
            SessionPhase::NotStarted
        }
    }

    /// Time since the test's first tick on a clock that shows `clock`.
    pub open spec fn elapsed_at(self, clock: u64) -> int {
        match self.start_time {
            Some(t) => if clock >= t {
                clock - t
            } else {
                0
            },
            None => 0,
        }
    }

    /// The phase of the stress test.
    pub fn phase(&self) -> (p: SessionPhase)
        ensures
            p == self.phase_of(),
    {
        if self.finished {
            SessionPhase::Finished
        } else if self.start_time.is_some() {
            SessionPhase::Running
        } else {
            SessionPhase::NotStarted
        }
    }

    /// Time since the test's first tick on a clock that shows `clock`, in
    /// nanoseconds; zero before the first tick.
    pub fn elapsed(&self, clock: u64) -> (t: u64)
        ensures
            t == self.elapsed_at(clock),
    {
        match self.start_time {
            Some(t) => if clock >= t {
                clock - t
            } else {
                0
            },
            None => 0,
        }
    }
}

/// One session of play.
pub struct Session {
    pub(crate) level: Level,
    pub(crate) mode: Mode,
    pub(crate) path: Path,
    pub(crate) stats: PlayerStats,
    pub(crate) enemies: Vec<Mob>,
    pub(crate) towers: Vec<Tower>,
    pub(crate) projectiles: Vec<Projectile>,
    pub(crate) spawn_timer: Cooldown,
    pub(crate) sim: SimState,
    pub(crate) pause: GlobalPause,
    pub(crate) clock: u64,
    pub(crate) next_id: u64,
}

/// A session as a value of mathematics.
pub struct SessionView {
    pub level: Level,
    pub mode: Mode,
    pub path: Seq<Point>,
    pub stats: PlayerStats,
    pub enemies: Seq<Mob>,
    pub towers: Seq<Tower>,
    pub projectiles: Seq<Projectile>,
    pub spawn_timer: Cooldown,
    pub sim: SimState,
    pub paused: bool,
    pub clock: u64,
    pub next_id: u64,
}

impl SessionView {
    /// The session is well-formed: its route is that of its level, its
    /// enemies stand in the order of their handles, all of them handles that
    /// were given out, and everything in play is inside the world.
    pub open spec fn wf(self) -> bool {
        &&& self.path == route(self.level)
        &&& crate::enemy::points_in_world(self.path)
        &&& valid_mobs(self.enemies, self.next_id as int)
        &&& towers_in_world(self.towers)
        &&& shots_in_world(self.projectiles)
    }

    /// A new session on a level.
    pub open spec fn fresh(level: Level, mode: Mode) -> SessionView {
        SessionView {
            level,
            mode,
            path: route(level),
            stats: PlayerStats { money: START_MONEY, lives: START_LIVES },
            enemies: Seq::empty(),
            towers: Seq::empty(),
            projectiles: Seq::empty(),
            spawn_timer: Cooldown { period: SPAWN_PERIOD, elapsed: 0 },
            sim: SimState {
                start_time: None,
                total_spawned: 0,
                spawn_timer: Cooldown { period: BURST_PERIOD, elapsed: 0 },
                finished: false,
            },
            paused: false,
            clock: 0,
            next_id: 0,
        }
    }
}

/// `after` can come from `before` by passes of the simulation: level, policy
/// and route are the same, and every enemy of `after` was in play in
/// `before` or got its handle since.
pub open spec fn descends(after: SessionView, before: SessionView) -> bool {
    &&& after.level == before.level
    &&& after.mode == before.mode
    &&& after.path == before.path
    &&& after.next_id >= before.next_id
    &&& forall|id: u64| #[trigger]
        has_id(after.enemies, id) ==> has_id(before.enemies, id) || before.next_id <= id
            < after.next_id
}

impl View for Session {
    type V = SessionView;

    open(crate) spec fn view(&self) -> SessionView {
        SessionView {
            level: self.level,
            mode: self.mode,
            path: self.path@,
            stats: self.stats,
            enemies: self.enemies@,
            towers: self.towers@,
            projectiles: self.projectiles@,
            spawn_timer: self.spawn_timer,
            sim: self.sim,
            paused: self.pause.0,
            clock: self.clock,
            next_id: self.next_id,
        }
    }
}

impl Session {
    /// The session is well-formed. Every session that this library hands out
    /// is, and every pass keeps it so.
    pub open spec fn wf(&self) -> bool {
        self@.wf()
    }

    /// Starts a session on a level: derives the route, and sets the player's
    /// currency and lives to their starting values. Nothing is in play yet.
    pub fn new(level: Level, mode: Mode) -> (s: Session)
        ensures
            s.wf(),
            s@ == SessionView::fresh(level, mode),
    {
        let path = extract_path(&level);
        Session {
            level,
            mode,
            path,
            stats: PlayerStats { money: START_MONEY, lives: START_LIVES },
            enemies: Vec::new(),
            towers: Vec::new(),
            projectiles: Vec::new(),
            spawn_timer: Cooldown::new(SPAWN_PERIOD),
            sim: SimState {
                start_time: None,
                total_spawned: 0,
                spawn_timer: Cooldown::new(BURST_PERIOD),
                finished: false,
            },
            pause: GlobalPause(false),
            clock: 0,
            next_id: 0,
        }
    }

    /// The level that the session runs on.
    pub fn level(&self) -> (level: &Level)
        ensures
            *level == self@.level,
    {
        &self.level
    }

    /// The policy that the session runs under.
    pub fn mode(&self) -> (mode: Mode)
        ensures
            mode == self@.mode,
    {
        self.mode
    }

    /// The route.
    pub fn path(&self) -> (path: &Path)
        ensures
            path@ == self@.path,
    {
        &self.path
    }

    /// Currency and lives.
    pub fn stats(&self) -> (stats: PlayerStats)
        ensures
            stats == self@.stats,
    {
        self.stats
    }

    /// The enemies in play, in the order of their handles.
    pub fn enemies(&self) -> (enemies: &Vec<Mob>)
        ensures
            enemies@ == self@.enemies,
    {
        &self.enemies
    }

    /// The enemy with the handle `id`, if it is in play.
    pub fn enemy(&self, id: u64) -> (found: Option<Mob>)
        requires
            self.wf(),
        ensures
            match found {
                Some(m) => m.id == id && self@.enemies.contains(m),
                None => !has_id(self@.enemies, id),
            },
    {
        match find_mob(&self.enemies, id) {
            Some(i) => Some(self.enemies[i]),
            None => None,
        }
    }

    /// The towers, in the order in which they were built.
    pub fn towers(&self) -> (towers: &Vec<Tower>)
        ensures
            towers@ == self@.towers,
    {
        &self.towers
    }

    /// The projectiles in flight, in the order in which they were emitted.
    pub fn projectiles(&self) -> (projectiles: &Vec<Projectile>)
        ensures
            projectiles@ == self@.projectiles,
    {
        &self.projectiles
    }

    /// The state of the stress test.
    pub fn sim_state(&self) -> (sim: SimState)
        ensures
            sim == self@.sim,
    {
        self.sim
    }

    /// Time for which the session has been ticked, paused or not, in
    /// nanoseconds.
    pub fn clock(&self) -> (clock: u64)
        ensures
            clock == self@.clock,
    {
        self.clock
    }

    /// Time since the stress test's first tick, in nanoseconds.
    pub fn elapsed_session_time(&self) -> (t: u64)
        ensures
            t == self@.sim.elapsed_at(self@.clock),
    {
        self.sim.elapsed(self.clock)
    }

    /// Time since the stress test's first tick as whole minutes and the
    /// whole seconds beyond them.
    pub fn elapsed_minutes_seconds(&self) -> (t: (u64, u64))
        ensures
            t.0 == self@.sim.elapsed_at(self@.clock) / 60_000_000_000,
            t.1 == (self@.sim.elapsed_at(self@.clock) / 1_000_000_000) % 60,
    {
        let seconds = self.sim.elapsed(self.clock) / 1_000_000_000;
        (seconds / 60, seconds % 60)
    }

    /// Number of enemies that the stress test has spawned.
    pub fn total_spawned(&self) -> (n: u32)
        ensures
            n == self@.sim.total_spawned,
    {
        self.sim.total_spawned
    }

    /// Number of enemies in play.
    pub fn active_count(&self) -> (n: usize)
        ensures
            n == self@.enemies.len(),
    {
        self.enemies.len()
    }

    /// Tells whether the session is paused.
    pub fn is_paused(&self) -> (paused: bool)
        ensures
            paused == self@.paused,
    {
        self.pause.0
    }

    /// Sets or clears the pause flag. Nothing else changes.
    pub fn set_paused(&mut self, paused: bool)
        ensures
            final(self)@ == (SessionView { paused, ..old(self)@ }),
    {
        self.pause = GlobalPause(paused);
    }

    /// Flips the pause flag. Nothing else changes.
    pub fn toggle_pause(&mut self)
        ensures
            final(self)@ == (SessionView { paused: !old(self)@.paused, ..old(self)@ }),
    {
        self.pause = GlobalPause(!self.pause.0);
    }

    /// Puts an enemy into play and returns its handle. The enemy is refused,
    /// and nothing changes, if its position is outside the world or no handle
    /// is left to give out.
    pub fn add_enemy(
        &mut self,
        position: Point,
        enemy: Enemy,
        health: Health,
        follower: PathFollower,
    ) -> (id: Option<u64>)
        requires
            old(self).wf(),
        ensures
            final(self).wf(),
            position.in_world() && old(self)@.next_id < u64::MAX ==> id == Some(old(self)@.next_id)
                && final(self)@ == (SessionView {
                enemies: old(self)@.enemies.push(
                    Mob { id: old(self)@.next_id, position, enemy, health, follower },
                ),
                next_id: (old(self)@.next_id + 1) as u64,
                ..old(self)@
            }),
            !(position.in_world() && old(self)@.next_id < u64::MAX) ==> id is None && final(self)@
                == old(self)@,
    {
        if !position.is_in_world() || self.next_id == u64::MAX {
            return None;
        }
        let id = self.next_id;
        self.enemies.push(Mob { id, position, enemy, health, follower });
        self.next_id = id + 1;
        Some(id)
    }

    /// Puts a tower into play, free of charge. The tower is refused, and
    /// nothing changes, if its position is outside the world.
    pub fn add_tower(&mut self, tower: Tower) -> (added: bool)
        requires
            old(self).wf(),
        ensures
            final(self).wf(),
            added == tower.position.in_world(),
            added ==> final(self)@ == (SessionView {
                towers: old(self)@.towers.push(tower),
                ..old(self)@
            }),
            !added ==> final(self)@ == old(self)@,
    {
        if !tower.position.is_in_world() {
            return false;
        }
        self.towers.push(tower);
        true
    }

    /// Puts a projectile into flight. The projectile is refused, and nothing
    /// changes, if its position is outside the world.
    pub fn add_projectile(&mut self, projectile: Projectile) -> (added: bool)
        requires
            old(self).wf(),
        ensures
            final(self).wf(),
            added == projectile.position.in_world(),
            added ==> final(self)@ == (SessionView {
                projectiles: old(self)@.projectiles.push(projectile),
                ..old(self)@
            }),
            !added ==> final(self)@ == old(self)@,
    {
        if !projectile.position.is_in_world() {
            return false;
        }
        self.projectiles.push(projectile);
        true
    }
}

} // verus!
