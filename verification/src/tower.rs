//! Towers: their kinds, how they pick a target, and when they fire.

use crate::enemy::Mob;
use crate::geometry::{Point, UNIT};
use crate::projectile::{Projectile, PROJECTILE_SPEED};
use crate::timer::{ticked_completions, Cooldown};
use vstd::prelude::*;

verus! {

/// The kinds of tower.
#[derive(Clone, Copy, Debug, PartialEq, Eq, Structural)]
pub enum TowerType {
    Canon,
    Archer,
    Wizard,
}

/// A tower in play.
///
/// `range` is in world units. `cooldown` runs all the time. A tower is
/// `ready` when it is built and again whenever its cooldown completes; firing
/// clears the flag. So a new tower fires as soon as an enemy is within range,
/// and a tower that found nothing to fire at tries again on every tick.
#[derive(Clone, Copy, Debug, PartialEq, Eq, Structural)]
pub struct Tower {
    pub position: Point,
    pub range: u32,
    pub damage: i32,
    pub cooldown: Cooldown,
    pub ready: bool,
}

impl TowerType {
    /// Range in world units, damage, and cooldown in nanoseconds of a tower
    /// that a player builds.
    pub open spec fn base_stats(self) -> (u32, i32, u64) {
        match self {
            TowerType::Canon => (75, 15, 2_000_000_000),
            TowerType::Archer => (120, 5, 583_000_000),
            TowerType::Wizard => (100, 1, 833_000_000),
        }
    }

    /// Range, damage and cooldown of the upgraded tower of a stress test.
    pub open spec fn sim_stats(self) -> (u32, i32, u64) {
        match self {
            TowerType::Canon => (95, 25, 1_500_000_000),
            TowerType::Archer => (160, 9, 416_000_000),
            TowerType::Wizard => (130, 3, 500_000_000),
        }
    }

    /// Price of a tower.
    pub open spec fn cost(self) -> i32 {
        match self {
            TowerType::Canon => 65,
            TowerType::Archer => 35,
            TowerType::Wizard => 50,
        }
    }

    /// Place of the tower's picture in the sprite sheet.
    pub open spec fn sprite_index(self) -> usize {
        match self {
            TowerType::Canon => 14,
            TowerType::Archer => 15,
            TowerType::Wizard => 16,
        }
    }

    /// Range in world units, damage, and cooldown in nanoseconds of a tower
    /// that a player builds.
    pub fn get_base_stats(&self) -> (stats: (u32, i32, u64))
        ensures
            stats == self.base_stats(),
    {
        match self {
            TowerType::Canon => (75, 15, 2_000_000_000),
            TowerType::Archer => (120, 5, 583_000_000),
            TowerType::Wizard => (100, 1, 833_000_000),
        }
    }

    /// Range, damage and cooldown of the upgraded tower of a stress test.
    pub fn get_sim_stats(&self) -> (stats: (u32, i32, u64))
        ensures
            stats == self.sim_stats(),
    {
        match self {
            TowerType::Canon => (95, 25, 1_500_000_000),
            TowerType::Archer => (160, 9, 416_000_000),
            TowerType::Wizard => (130, 3, 500_000_000),
        }
    }

    /// Price of a tower.
    pub fn get_cost(&self) -> (cost: i32)
        ensures
            cost == self.cost(),
    {
        match self {
            TowerType::Canon => 65,
            TowerType::Archer => 35,
            TowerType::Wizard => 50,
        }
    }

    /// Place of the tower's picture in the sprite sheet.
    pub fn get_sprite_index(&self) -> (index: usize)
        ensures
            index == self.sprite_index(),
    {
        match self {
            TowerType::Canon => 14,
            TowerType::Archer => 15,
            TowerType::Wizard => 16,
        }
    }
}

impl Tower {
    /// A tower at `position` with the given values: ready to fire, its
    /// cooldown not yet run.
    pub open spec fn built(position: Point, stats: (u32, i32, u64)) -> Tower {
        Tower {
            position,
            range: stats.0,
            damage: stats.1,
            cooldown: Cooldown { period: stats.2, elapsed: 0 },
            ready: true,
        }
    }

    /// The square of the tower's range, in sub-units.
    pub open spec fn range2(self) -> nat {
        ((self.range * UNIT) * (self.range * UNIT)) as nat
    }

    /// Squared distance from the tower to an enemy.
    pub open spec fn dist2_to(self, m: Mob) -> nat {
        self.position.dist2(m.position)
    }

    /// The enemy at place `i` is the one to fire at: it is within range, none
    /// is nearer, and of those just as near it stands first, which makes it
    /// the one with the lowest handle.
    pub open spec fn aims_at(self, mobs: Seq<Mob>, i: int) -> bool {
        &&& 0 <= i < mobs.len()
        &&& self.dist2_to(mobs[i]) <= self.range2()
        &&& forall|j: int|
            0 <= j < mobs.len() ==> self.dist2_to(mobs[i]) < self.dist2_to(#[trigger] mobs[j]) || (
            self.dist2_to(mobs[i]) == self.dist2_to(mobs[j]) && i <= j)
    }

    /// The place of the enemy to fire at, if any is within range.
    pub open spec fn target(self, mobs: Seq<Mob>) -> Option<int> {
        if exists|i: int| self.aims_at(mobs, i) {
            Some(choose|i: int| self.aims_at(mobs, i))
        } else {
            None
        }
    }

    /// The tower may fire once `delta` nanoseconds have passed: it was ready
    /// before, or its cooldown completes within them.
    pub open spec fn wakes(self, delta: u64) -> bool {
        self.ready || ticked_completions(self.cooldown.period, self.cooldown.elapsed, delta) > 0
    }

    /// The projectile that the tower emits in a tick of `delta` nanoseconds:
    /// one, at the target, if the tower may fire and has a target.
    pub open spec fn shot(self, mobs: Seq<Mob>, delta: u64) -> Option<Projectile> {
        match self.target(mobs) {
            Some(i) => if self.wakes(delta) {
                Some(
                    Projectile {
                        position: self.position,
                        target: mobs[i].id,
                        damage: self.damage,
                        speed: PROJECTILE_SPEED,
                    },
                )
            } else {
                None
            },
            None => None,
        }
    }

    /// The tower after a tick of `delta` nanoseconds: its cooldown started
    /// afresh if it fired, else advanced, and the tower ready if it may fire.
    pub open spec fn after(self, mobs: Seq<Mob>, delta: u64) -> Tower {
        if self.shot(mobs, delta) is Some {
            Tower {
                cooldown: Cooldown { period: self.cooldown.period, elapsed: 0 },
                ready: false,
                ..self
            }
        } else {
            Tower { cooldown: self.cooldown.ticked(delta), ready: self.wakes(delta), ..self }
        }
    }

    /// Builds a tower at `position` with the given range, damage and
    /// cooldown. The tower is ready: it fires in the first tick in which an
    /// enemy is within its range.
    pub fn new(position: Point, stats: (u32, i32, u64)) -> (t: Tower)
        ensures
            t == Tower::built(position, stats),
    {
        Tower {
            position,
            range: stats.0,
            damage: stats.1,
            cooldown: Cooldown::new(stats.2),
            ready: true,
        }
    }

    /// The square of the tower's range, in sub-units.
    pub fn range_squared(&self) -> (r: u128)
        ensures
            r == self.range2(),
    {
        let reach: u128 = (self.range as u128) * 1_000_000_000;
        assert(reach == self.range * UNIT);
        assert(reach * reach <= 4_294_967_295_000_000_000 * 4_294_967_295_000_000_000)
            by (nonlinear_arith)
            requires
                0 <= reach <= 4_294_967_295_000_000_000,
        ;
        reach * reach
    }

    /// Picks the enemy to fire at: the nearest within range, and of several
    /// just as near the one with the lowest handle.
    pub fn select_target(&self, mobs: &Vec<Mob>) -> (r: Option<usize>)
        requires
            self.position.in_world(),
            forall|i: int| 0 <= i < mobs@.len() ==> (#[trigger] mobs@[i]).position.in_world(),
        ensures
            match r {
                Some(i) => self.target(mobs@) == Some(i as int) && self.aims_at(mobs@, i as int),
                None => self.target(mobs@) is None,
            },
    {
        let range2 = self.range_squared();
        let mut best: Option<usize> = None;
        let mut best_d: u128 = 0;
        let mut i: usize = 0;
        while i < mobs.len()
            invariant
                i <= mobs.len(),
                self.position.in_world(),
                forall|j: int| 0 <= j < mobs@.len() ==> (#[trigger] mobs@[j]).position.in_world(),
                range2 == self.range2(),
                match best {
                    Some(b) => {
                        &&& b < i
                        &&& best_d == self.dist2_to(mobs@[b as int])
                        &&& best_d <= range2
                        &&& forall|j: int|
                            0 <= j < i ==> best_d < self.dist2_to(#[trigger] mobs@[j]) || (best_d
                                == self.dist2_to(mobs@[j]) && b <= j)
                    },
                    None => forall|j: int|
                        0 <= j < i ==> self.dist2_to(#[trigger] mobs@[j]) > range2,
                },
            decreases mobs.len() - i,
        {
            let d = self.position.distance_squared(&mobs[i].position);
            if d <= range2 {
                match best {
                    Some(_) => {
                        if d < best_d {
                            best = Some(i);
                            best_d = d;
                        }
                    },
                    None => {
                        best = Some(i);
                        best_d = d;
                    },
                }
            }
            i += 1;
        }
        proof {
            match best {
                Some(b) => {
                    assert(self.aims_at(mobs@, b as int));
                    lemma_aim_unique(
                        *self,
                        mobs@,
                        b as int,
                        choose|k: int| self.aims_at(mobs@, k),
                    );
                },
                None => {
                    assert forall|k: int| !self.aims_at(mobs@, k) by {
                        if 0 <= k < mobs@.len() {
                            assert(self.dist2_to(mobs@[k]) > range2);
                        }
                    }
                },
            }
        }
        best
    }

    /// Runs the tower for a tick of `delta` nanoseconds. Returns the tower as
    /// the tick leaves it and the projectile it emitted, if any.
    pub fn step(&self, mobs: &Vec<Mob>, delta: u64) -> (r: (Tower, Option<Projectile>))
        requires
            self.position.in_world(),
            forall|i: int| 0 <= i < mobs@.len() ==> (#[trigger] mobs@[i]).position.in_world(),
        ensures
            r.0 == self.after(mobs@, delta),
            r.1 == self.shot(mobs@, delta),
    {
        let mut cooldown = self.cooldown;
        let completions = cooldown.tick(delta);
        let ready = self.ready || completions > 0;
        if ready {
            match self.select_target(mobs) {
                Some(i) => {
                    let shot = Projectile {
                        position: self.position,
                        target: mobs[i].id,
                        damage: self.damage,
                        speed: PROJECTILE_SPEED,
                    };
                    let tower = Tower {
                        position: self.position,
                        range: self.range,
                        damage: self.damage,
                        cooldown: Cooldown::new(self.cooldown.period),
                        ready: false,
                    };
                    return (tower, Some(shot));
                },
                None => {},
            }
        }
        let tower = Tower {
            position: self.position,
            range: self.range,
            damage: self.damage,
            cooldown,
            ready,
        };
        (tower, None)
    }
}

/// A tower has at most one enemy to fire at.
pub proof fn lemma_aim_unique(t: Tower, mobs: Seq<Mob>, i: int, j: int)
    requires
        t.aims_at(mobs, i),
        t.aims_at(mobs, j),
    ensures
        i == j,
{
    assert(t.dist2_to(mobs[i]) < t.dist2_to(mobs[j]) || (t.dist2_to(mobs[i]) == t.dist2_to(
        mobs[j],
    ) && i <= j));
    assert(t.dist2_to(mobs[j]) < t.dist2_to(mobs[i]) || (t.dist2_to(mobs[j]) == t.dist2_to(
        mobs[i],
    ) && j <= i));
}

/// The step "run for a tick of `delta` nanoseconds against these enemies".
pub open spec fn stepping(mobs: Seq<Mob>, delta: u64) -> spec_fn(Tower) -> Tower {
    |t: Tower| t.after(mobs, delta)
}

/// The choice "the projectile emitted in a tick of `delta` nanoseconds".
pub open spec fn shooting(mobs: Seq<Mob>, delta: u64) -> spec_fn(Tower) -> Option<Projectile> {
    |t: Tower| t.shot(mobs, delta)
}

/// The towers after a tick of `delta` nanoseconds.
pub open spec fn rearmed(towers: Seq<Tower>, mobs: Seq<Mob>, delta: u64) -> Seq<Tower> {
    towers.map_values(stepping(mobs, delta))
}

/// The projectiles that the towers emit in a tick, in the towers' order.
pub open spec fn volley(towers: Seq<Tower>, mobs: Seq<Mob>, delta: u64) -> Seq<Projectile> {
    towers.filter_map(shooting(mobs, delta))
}

/// Every tower of the sequence is inside the world.
pub open spec fn towers_in_world(towers: Seq<Tower>) -> bool {
    forall|i: int| 0 <= i < towers.len() ==> (#[trigger] towers[i]).position.in_world()
}

/// Runs every tower for a tick of `delta` nanoseconds against the enemies.
/// Returns the towers as the tick leaves them and the projectiles emitted.
pub fn fire(towers: &Vec<Tower>, mobs: &Vec<Mob>, delta: u64) -> (r: (Vec<Tower>, Vec<Projectile>))
    requires
        towers_in_world(towers@),
        forall|i: int| 0 <= i < mobs@.len() ==> (#[trigger] mobs@[i]).position.in_world(),
    ensures
        r.0@ == rearmed(towers@, mobs@, delta),
        r.1@ == volley(towers@, mobs@, delta),
{
    let mut after: Vec<Tower> = Vec::new();
    let mut shots: Vec<Projectile> = Vec::new();
    let mut i: usize = 0;
    while i < towers.len()
        invariant
            i <= towers.len(),
            towers_in_world(towers@),
            forall|j: int| 0 <= j < mobs@.len() ==> (#[trigger] mobs@[j]).position.in_world(),
            after@ == towers@.take(i as int).map_values(stepping(mobs@, delta)),
            shots@ == towers@.take(i as int).filter_map(shooting(mobs@, delta)),
        decreases towers.len() - i,
    {
        let (tower, shot) = towers[i].step(mobs, delta);
        proof {
            let before = towers@.take(i as int);
            let now = towers@.take(i + 1);
            assert(now.drop_last() == before);
            assert(now.last() == towers@[i as int]);
            assert(now.map_values(stepping(mobs@, delta)) == before.map_values(
                stepping(mobs@, delta),
            ).push(tower));
            reveal_with_fuel(Seq::filter_map, 2);
        }
        after.push(tower);
        match shot {
            Some(p) => {
                shots.push(p);
            },
            None => {},
        }
        i += 1;
    }
    assert(towers@.take(towers@.len() as int) == towers@);
    (after, shots)
}

/// A tick leaves every tower where it stood, with the range, the damage and
/// the period it had; each projectile emitted starts at a tower and flies at
/// an enemy that is in play.
pub proof fn lemma_fire_shape(towers: Seq<Tower>, mobs: Seq<Mob>, delta: u64)
    requires
        towers_in_world(towers),
    ensures
        towers_in_world(rearmed(towers, mobs, delta)),
        forall|i: int|
            0 <= i < volley(towers, mobs, delta).len() ==> (#[trigger] volley(
                towers,
                mobs,
                delta,
            )[i]).position.in_world() && crate::enemy::has_id(
                mobs,
                volley(towers, mobs, delta)[i].target,
            ),
    decreases towers.len(),
{
    reveal_with_fuel(Seq::filter_map, 2);
    if towers.len() > 0 {
        let before = towers.drop_last();
        let t = towers.last();
        lemma_fire_shape(before, mobs, delta);
        let shots = volley(towers, mobs, delta);
        let earlier = volley(before, mobs, delta);
        assert forall|i: int| 0 <= i < shots.len() implies (#[trigger] shots[i]).position.in_world()
            && crate::enemy::has_id(mobs, shots[i].target) by {
            if i < earlier.len() {
                assert(shots[i] == earlier[i]);
            } else {
                let k = t.target(mobs).unwrap();
                assert(t.aims_at(mobs, k));
                assert(shots[i].target == mobs[k].id);
            }
        }
    }
    assert forall|i: int| 0 <= i < towers.len() implies (#[trigger] rearmed(
        towers,
        mobs,
        delta,
    )[i]).position.in_world() by {
        assert(towers[i].position.in_world());
    }
}

/// What a tower meets in one tick: the enemies in play and the tick's length
/// in nanoseconds.
pub struct Scene {
    pub mobs: Seq<Mob>,
    pub delta: u64,
}

/// The time that a run of ticks takes, in nanoseconds.
pub open spec fn total_time(scenes: Seq<Scene>) -> int
    decreases scenes.len(),
{
    if scenes.len() == 0 {
        0
    } else {
        total_time(scenes.drop_last()) + scenes.last().delta
    }
}

/// The tower after a run of ticks.
pub open spec fn run(t: Tower, scenes: Seq<Scene>) -> Tower
    decreases scenes.len(),
{
    if scenes.len() == 0 {
        t
    } else {
        run(t, scenes.drop_last()).after(scenes.last().mobs, scenes.last().delta)
    }
}

/// The number of projectiles that a tower emits in a run of ticks.
pub open spec fn shots_fired(t: Tower, scenes: Seq<Scene>) -> nat
    decreases scenes.len(),
{
    if scenes.len() == 0 {
        0
    } else {
        shots_fired(t, scenes.drop_last()) + (if run(t, scenes.drop_last()).shot(
            scenes.last().mobs,
            scenes.last().delta,
        ) is Some {
            1nat
        } else {
            0nat
        })
    }
}

/// A tower just built fires at once: in its first tick, however short, it
/// emits a projectile at its target if any enemy is within its range.
pub proof fn lemma_new_tower_fires_at_once(
    position: Point,
    stats: (u32, i32, u64),
    mobs: Seq<Mob>,
    delta: u64,
)
    ensures
        Tower::built(position, stats).shot(mobs, delta) is Some <==> Tower::built(
            position,
            stats,
        ).target(mobs) is Some,
        Tower::built(position, stats).target(mobs) matches Some(i) ==> Tower::built(
            position,
            stats,
        ).shot(mobs, delta) == Some(
            Projectile {
                position,
                target: mobs[i].id,
                damage: stats.1,
                speed: PROJECTILE_SPEED,
            },
        ),
{
}

/// A tower that fires starts its cooldown afresh and is no longer ready.
pub proof fn lemma_shot_resets(t: Tower, mobs: Seq<Mob>, delta: u64)
    requires
        t.shot(mobs, delta) is Some,
    ensures
        t.after(mobs, delta).cooldown.elapsed == 0,
        t.after(mobs, delta).cooldown.period == t.cooldown.period,
        !t.after(mobs, delta).ready,
{
}

/// One shot per cooldown: a tower that has just fired emits no projectile in
/// any run of ticks that is shorter than its cooldown period, whatever
/// enemies it meets and however short the ticks are.
pub proof fn lemma_one_shot_per_cooldown(t: Tower, scenes: Seq<Scene>)
    requires
        t.cooldown.elapsed == 0,
        !t.ready,
        total_time(scenes) < t.cooldown.period,
    ensures
        shots_fired(t, scenes) == 0,
        !run(t, scenes).ready,
        run(t, scenes).cooldown.elapsed == total_time(scenes),
        run(t, scenes).cooldown.period == t.cooldown.period,
    decreases scenes.len(),
{
    if scenes.len() > 0 {
        let before = scenes.drop_last();
        let last = scenes.last();
        lemma_total_time_grows(before);
        lemma_one_shot_per_cooldown(t, before);
        let u = run(t, before);
        let sum = u.cooldown.elapsed + last.delta;
        let period = t.cooldown.period as int;
        assert(sum / period == 0 && sum % period == sum) by (nonlinear_arith)
            requires
                0 <= sum < period,
        ;
    }
}

/// One shot per cooldown: after a tick in which a tower fired, it emits no
/// projectile in any run of ticks that is shorter than its cooldown period.
pub proof fn lemma_shots_a_period_apart(t: Tower, mobs: Seq<Mob>, delta: u64, scenes: Seq<Scene>)
    requires
        t.shot(mobs, delta) is Some,
        total_time(scenes) < t.cooldown.period,
    ensures
        shots_fired(t.after(mobs, delta), scenes) == 0,
{
    lemma_shot_resets(t, mobs, delta);
    lemma_one_shot_per_cooldown(t.after(mobs, delta), scenes);
}

/// A run of ticks takes no negative time.
pub proof fn lemma_total_time_grows(scenes: Seq<Scene>)
    ensures
        total_time(scenes) >= 0,
    decreases scenes.len(),
{
    if scenes.len() > 0 {
        lemma_total_time_grows(scenes.drop_last());
    }
}

} // verus!
