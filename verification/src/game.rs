//! Normal play, and the tick that drives a session of either kind.
//!
//! A tick runs the passes in a fixed order: spawn, move the enemies, let the
//! towers fire, fly the projectiles, remove the dead. Each pass sees what the
//! passes before it left, and none sees what a later pass will do.

use crate::enemy::{
    alive, clamp_i32, clamped, has_id, kills, leaks, lemma_filter_valid, lemma_has_id_push,
    lemma_has_id_same, lemma_leaked_is_gone, lemma_marched_valid, lemma_route_takes_its_time,
    lemma_survivors_alive, march, marched, reap, survivors, time_of, trek, Mob, KILL_REWARD,
};
use crate::geometry::Point;
use crate::grid::{cell_at, cell_of, tile_at, Cell, Level, TILE_SIZE};
use crate::path::{lemma_route_is_stepwise, start_cell};
use crate::projectile::{battered, in_flight, lemma_battered_ordered, resolve, Projectile};
use crate::session::{descends, Mode, PlayerStats, Session, SessionView};
use crate::simulation::{
    cleanup_dead_sim_enemies, lemma_cycled_wf, lemma_sim_spawned_wf, lemma_swept_wf,
    move_sim_enemies_loop, simulation_logic,
};
use crate::timer::ticked_completions;
use crate::tower::{fire, lemma_fire_shape, rearmed, volley, Tower, TowerType};
use vstd::prelude::*;

verus! {

/// The tile id of open ground, on which towers are built.
pub const BUILDABLE_TILE: u32 = 0;

/// The sum of two times, limited to the range of `u64`.
pub open spec fn later(clock: u64, delta: u64) -> u64 {
    if clock + delta <= u64::MAX {
        (clock + delta) as u64
    } else {
        u64::MAX
    }
}

impl SessionView {
    /// The spawning pass of normal play: the spawn timer advances, and if it
    /// completed, one fresh enemy appears at the first waypoint. Nothing
    /// appears where the session has no route or no handle is left.
    pub open spec fn spawned(self, delta: u64) -> SessionView {
        let timer = self.spawn_timer.ticked(delta);
        if ticked_completions(self.spawn_timer.period, self.spawn_timer.elapsed, delta) > 0
            && self.path.len() > 0 && self.next_id < u64::MAX {
            SessionView {
                spawn_timer: timer,
                enemies: self.enemies.push(Mob::fresh(self.next_id, self.path[0])),
                next_id: (self.next_id + 1) as u64,
                ..self
            }
        } else {
            SessionView { spawn_timer: timer, ..self }
        }
    }

    /// The movement pass of normal play: every enemy that had walked the
    /// whole route leaves play and costs one life; the others walk on.
    pub open spec fn marched(self, delta: u64) -> SessionView {
        SessionView {
            enemies: marched(self.enemies, self.path, delta),
            stats: PlayerStats {
                lives: clamped(self.stats.lives - leaks(self.enemies, self.path)),
                ..self.stats
            },
            ..self
        }
    }

    /// The firing pass: every tower runs for the tick, and the projectiles
    /// emitted join those in flight. Without a route the towers stand still.
    pub open spec fn fired(self, delta: u64) -> SessionView {
        if self.path.len() == 0 {
            self
        } else {
            SessionView {
                towers: rearmed(self.towers, self.enemies, delta),
                projectiles: self.projectiles + volley(self.towers, self.enemies, delta),
                ..self
            }
        }
    }

    /// The projectile pass: every projectile, in order, has its turn.
    pub open spec fn resolved(self, delta: u64) -> SessionView {
        SessionView {
            projectiles: in_flight(self.projectiles, self.enemies, delta),
            enemies: battered(self.projectiles, self.enemies, delta),
            ..self
        }
    }

    /// The clean-up pass of normal play: enemies without health leave play,
    /// and each pays the reward.
    pub open spec fn rewarded(self) -> SessionView {
        SessionView {
            enemies: survivors(self.enemies),
            stats: PlayerStats {
                money: clamped(self.stats.money + KILL_REWARD * kills(self.enemies)),
                ..self.stats
            },
            ..self
        }
    }

    /// The first half of a tick: the spawning pass and the movement pass of
    /// the session's policy.
    pub open spec fn moved(self, delta: u64) -> SessionView {
        match self.mode {
            Mode::Normal => self.spawned(delta).marched(delta),
            Mode::Stress => self.sim_spawned(delta).cycled(delta),
        }
    }

    /// The passes of one tick, in their order: spawn, move, fire, fly the
    /// projectiles, and remove the dead as the session's policy has it.
    pub open spec fn stepped(self, delta: u64) -> SessionView {
        let hit = self.moved(delta).fired(delta).resolved(delta);
        match self.mode {
            Mode::Normal => hit.rewarded(),
            Mode::Stress => hit.swept(),
        }
    }

    /// The session with its clock advanced by `delta` nanoseconds.
    pub open spec fn clocked(self, delta: u64) -> SessionView {
        SessionView { clock: later(self.clock, delta), ..self }
    }

    /// One tick of `delta` nanoseconds: the clock advances, and unless the
    /// session is paused, the passes run.
    pub open spec fn ticked(self, delta: u64) -> SessionView {
        if self.paused {
            self.clocked(delta)
        } else {
            self.clocked(delta).stepped(delta)
        }
    }

    /// The projectiles that the towers emit in one tick.
    pub open spec fn emitted(self, delta: u64) -> Seq<Projectile> {
        if self.paused || self.path.len() == 0 {
            Seq::empty()
        } else {
            volley(
                self.clocked(delta).moved(delta).towers,
                self.clocked(delta).moved(delta).enemies,
                delta,
            )
        }
    }

    /// A tower of the given kind may be built on a cell: the session is one
    /// of normal play and not paused, the cell is in the grid and open
    /// ground, and the player can pay.
    pub open spec fn can_place(self, kind: TowerType, cell: Cell) -> bool {
        &&& self.mode == Mode::Normal
        &&& !self.paused
        &&& cell.in_grid()
        &&& tile_at(self.level, cell) == BUILDABLE_TILE
        &&& self.stats.money >= kind.cost()
    }

    /// The session after a tower of the given kind was built on a cell: the
    /// tower stands at the cell's centre, ready to fire, and its price is
    /// paid.
    pub open spec fn placed(self, kind: TowerType, cell: Cell) -> SessionView {
        SessionView {
            towers: self.towers.push(Tower::built(cell.world(), kind.base_stats())),
            stats: PlayerStats { money: (self.stats.money - kind.cost()) as i32, ..self.stats },
            ..self
        }
    }
}

/// `value - count`, limited to the range of `i32`.
fn minus_count(value: i32, count: usize) -> (r: i32)
    ensures
        r == clamped(value - count),
{
    if count > 0xffff_ffff {
        i32::MIN
    } else {
        clamp_i32(value as i64 - count as i64)
    }
}

/// `value + KILL_REWARD * count`, limited to the range of `i32`.
fn plus_rewards(value: i32, count: usize) -> (r: i32)
    ensures
        r == clamped(value + KILL_REWARD * count),
{
    if count > 0xffff_ffff {
        i32::MAX
    } else {
        clamp_i32(value as i64 + (KILL_REWARD as i64) * (count as i64))
    }
}

/// Starts a session of normal play on a level.
pub fn setup_game(level: Level) -> (s: Session)
    ensures
        s.wf(),
        s@ == SessionView::fresh(level, Mode::Normal),
{
    Session::new(level, Mode::Normal)
}

/// The spawning pass of normal play.
pub fn spawn_enemies(session: &mut Session, delta: u64)
    requires
        old(session).wf(),
    ensures
        final(session).wf(),
        final(session)@ == old(session)@.spawned(delta),
{
    let completions = session.spawn_timer.tick(delta);
    if completions > 0 && session.path.points.len() > 0 && session.next_id < u64::MAX {
        let at = session.path.points[0];
        session.enemies.push(Mob::new(session.next_id, at));
        session.next_id = session.next_id + 1;
    }
}

/// The movement pass of normal play.
pub fn move_enemies(session: &mut Session, delta: u64)
    requires
        old(session).wf(),
    ensures
        final(session).wf(),
        final(session)@ == old(session)@.marched(delta),
{
    let (out, leaked) = march(&session.enemies, &session.path.points, delta);
    proof {
        lemma_marched_valid(session@.enemies, session@.path, delta, session@.next_id as int);
    }
    session.enemies = out;
    session.stats.lives = minus_count(session.stats.lives, leaked);
}

/// The firing pass: every tower advances its cooldown, and each that may
/// fire and has an enemy within range emits one projectile at the nearest.
pub fn tower_shooting(session: &mut Session, delta: u64)
    requires
        old(session).wf(),
    ensures
        final(session).wf(),
        final(session)@ == old(session)@.fired(delta),
{
    if session.path.points.len() == 0 {
        return;
    }
    let (towers, shots) = fire(&session.towers, &session.enemies, delta);
    let mut shots = shots;
    proof {
        lemma_fire_shape(session@.towers, session@.enemies, delta);
    }
    session.towers = towers;
    session.projectiles.append(&mut shots);
}

/// The projectile pass: each projectile whose target is gone, or has no
/// health left, vanishes; each that reaches its target hurts it and
/// vanishes; the others fly on.
pub fn move_projectiles(session: &mut Session, delta: u64)
    requires
        old(session).wf(),
    ensures
        final(session).wf(),
        final(session)@ == old(session)@.resolved(delta),
{
    let mut mobs: Vec<Mob> = Vec::new();
    std::mem::swap(&mut session.enemies, &mut mobs);
    proof {
        lemma_battered_ordered(old(session)@.projectiles, old(session)@.enemies, delta);
    }
    let (kept, hurt) = resolve(&session.projectiles, mobs, delta);
    assert forall|i: int| 0 <= i < hurt@.len() implies (#[trigger] hurt@[i]).id < old(
        session,
    )@.next_id by {
        assert(hurt@[i].id == old(session)@.enemies[i].id);
    }
    session.projectiles = kept;
    session.enemies = hurt;
}

/// The clean-up pass of normal play.
pub fn enemy_death_system(session: &mut Session)
    requires
        old(session).wf(),
    ensures
        final(session).wf(),
        final(session)@ == old(session)@.rewarded(),
{
    let (out, killed) = reap(&session.enemies);
    proof {
        lemma_filter_valid(session@.enemies, alive(), session@.next_id as int);
    }
    session.enemies = out;
    session.stats.money = plus_rewards(session.stats.money, killed);
}

/// Builds a tower of the given kind on a cell, for its price. Where the
/// tower may not be built, nothing changes and the answer is `false`.
pub fn place_tower(session: &mut Session, kind: TowerType, cell: Cell) -> (built: bool)
    requires
        old(session).wf(),
    ensures
        final(session).wf(),
        built == old(session)@.can_place(kind, cell),
        built ==> final(session)@ == old(session)@.placed(kind, cell),
        !built ==> final(session)@ == old(session)@,
{
    if session.mode != Mode::Normal || session.pause.0 || !cell.is_in_grid() {
        return false;
    }
    let cost = kind.get_cost();
    if session.level[cell.y][cell.x] != BUILDABLE_TILE || session.stats.money < cost {
        return false;
    }
    session.towers.push(Tower::new(cell.to_world(), kind.get_base_stats()));
    session.stats.money = session.stats.money - cost;
    true
}

/// Answers a click on the map with the tower kind that the player has
/// selected: builds that tower on the cell under the click. Nothing is built,
/// and nothing changes, without a selection, without a position, off the
/// grid, or where the tower may not be built.
pub fn grid_click_interaction(
    session: &mut Session,
    selected: Option<TowerType>,
    click: Option<Point>,
) -> (built: bool)
    requires
        old(session).wf(),
    ensures
        final(session).wf(),
        built == (selected is Some && click is Some && cell_of(click.unwrap()) is Some && old(
            session,
        )@.can_place(selected.unwrap(), cell_of(click.unwrap()).unwrap())),
        built ==> final(session)@ == old(session)@.placed(
            selected.unwrap(),
            cell_of(click.unwrap()).unwrap(),
        ),
        !built ==> final(session)@ == old(session)@,
{
    match (selected, click) {
        (Some(kind), Some(at)) => {
            if !at.is_in_world() {
                return false;
            }
            match cell_at(at) {
                Some(cell) => place_tower(session, kind, cell),
                None => false,
            }
        },
        _ => false,
    }
}

/// Runs one tick of `delta` nanoseconds.
pub fn tick(session: &mut Session, delta: u64)
    requires
        old(session).wf(),
    ensures
        final(session).wf(),
        final(session)@ == old(session)@.ticked(delta),
{
    session.clock = session.clock.saturating_add(delta);
    if session.pause.0 {
        return;
    }
    match session.mode {
        Mode::Normal => {
            spawn_enemies(session, delta);
            move_enemies(session, delta);
            tower_shooting(session, delta);
            move_projectiles(session, delta);
            enemy_death_system(session);
        },
        Mode::Stress => {
            simulation_logic(session, delta);
            move_sim_enemies_loop(session, delta);
            tower_shooting(session, delta);
            move_projectiles(session, delta);
            cleanup_dead_sim_enemies(session);
        },
    }
}

/// The spawning pass of normal play keeps a session well-formed.
pub proof fn lemma_spawned_wf(s: SessionView, delta: u64)
    requires
        s.wf(),
    ensures
        s.spawned(delta).wf(),
        descends(s.spawned(delta), s),
        s.spawned(delta).stats == s.stats,
        forall|i: int|
            0 <= i < s.enemies.len() ==> (#[trigger] s.spawned(delta).enemies[i]) == s.enemies[i],
{
    let out = s.spawned(delta);
    assert forall|id: u64| #[trigger] has_id(out.enemies, id) implies has_id(s.enemies, id)
        || s.next_id <= id < out.next_id by {
        if out.enemies.len() > s.enemies.len() {
            lemma_has_id_push(s.enemies, Mob::fresh(s.next_id, s.path[0]), id);
        }
    }
}

/// The movement pass of normal play keeps a session well-formed.
pub proof fn lemma_marched_wf(s: SessionView, delta: u64)
    requires
        s.wf(),
    ensures
        s.marched(delta).wf(),
        descends(s.marched(delta), s),
        s.marched(delta).next_id == s.next_id,
{
    lemma_marched_valid(s.enemies, s.path, delta, s.next_id as int);
    let out = s.marched(delta).enemies;
    assert forall|id: u64| #[trigger] has_id(out, id) implies has_id(s.enemies, id) by {
        let i = choose|i: int| 0 <= i < out.len() && (#[trigger] out[i]).id == id;
        assert(has_id(s.enemies, out[i].id));
    }
}

/// The firing pass keeps a session well-formed, and every projectile that
/// it emits flies at an enemy that is in play.
pub proof fn lemma_fired_wf(s: SessionView, delta: u64)
    requires
        s.wf(),
    ensures
        s.fired(delta).wf(),
        descends(s.fired(delta), s),
        s.fired(delta).enemies == s.enemies,
        s.fired(delta).stats == s.stats,
        s.fired(delta).next_id == s.next_id,
        forall|k: int|
            0 <= k < volley(s.towers, s.enemies, delta).len() ==> has_id(
                s.enemies,
                (#[trigger] volley(s.towers, s.enemies, delta)[k]).target,
            ),
{
    lemma_fire_shape(s.towers, s.enemies, delta);
    if s.path.len() > 0 {
        let shots = volley(s.towers, s.enemies, delta);
        let all = s.fired(delta).projectiles;
        assert forall|i: int| 0 <= i < all.len() implies (
        #[trigger] all[i]).position.in_world() by {
            if i < s.projectiles.len() {
                assert(all[i] == s.projectiles[i]);
            } else {
                assert(all[i] == shots[i - s.projectiles.len()]);
            }
        }
    }
}

/// The projectile pass keeps a session well-formed and every enemy in play,
/// in its place.
pub proof fn lemma_resolved_wf(s: SessionView, delta: u64)
    requires
        s.wf(),
    ensures
        s.resolved(delta).wf(),
        descends(s.resolved(delta), s),
        s.resolved(delta).stats == s.stats,
        s.resolved(delta).next_id == s.next_id,
        s.resolved(delta).enemies.len() == s.enemies.len(),
        forall|i: int|
            0 <= i < s.enemies.len() ==> (#[trigger] s.resolved(delta).enemies[i]).id
                == s.enemies[i].id,
{
    lemma_battered_ordered(s.projectiles, s.enemies, delta);
    let out = s.resolved(delta).enemies;
    assert forall|i: int| 0 <= i < out.len() implies (#[trigger] out[i]).id < s.next_id by {
        assert(out[i].id == s.enemies[i].id);
    }
    assert forall|id: u64| #[trigger] has_id(out, id) implies has_id(s.enemies, id) by {
        lemma_has_id_same(out, s.enemies, id);
    }
}

/// The clean-up pass of normal play keeps a session well-formed, and leaves
/// no enemy without health in play.
pub proof fn lemma_rewarded_wf(s: SessionView)
    requires
        s.wf(),
    ensures
        s.rewarded().wf(),
        descends(s.rewarded(), s),
        s.rewarded().next_id == s.next_id,
        s.rewarded().stats.lives == s.stats.lives,
        forall|i: int|
            0 <= i < s.rewarded().enemies.len() ==> !(#[trigger] s.rewarded().enemies[i]).is_dead(),
{
    lemma_filter_valid(s.enemies, alive(), s.next_id as int);
    lemma_survivors_alive(s.enemies, s.next_id as int);
    let out = s.rewarded().enemies;
    assert forall|id: u64| #[trigger] has_id(out, id) implies has_id(s.enemies, id) by {
        let i = choose|i: int| 0 <= i < out.len() && (#[trigger] out[i]).id == id;
        assert(has_id(s.enemies, out[i].id));
    }
}

/// The first half of a tick keeps a session well-formed.
pub proof fn lemma_moved_wf(s: SessionView, delta: u64)
    requires
        s.wf(),
    ensures
        s.moved(delta).wf(),
        descends(s.moved(delta), s),
{
    match s.mode {
        Mode::Normal => {
            lemma_spawned_wf(s, delta);
            lemma_marched_wf(s.spawned(delta), delta);
        },
        Mode::Stress => {
            lemma_sim_spawned_wf(s, delta);
            lemma_cycled_wf(s.sim_spawned(delta), delta);
        },
    }
}

/// A tick keeps a session well-formed: whatever state a session reaches, its
/// enemies are in the order of their handles and everything is inside the
/// world. Unless the session is paused, no enemy without health is left in
/// play, and the projectiles in flight are those that were, as far as they
/// fly on, and those that the towers emitted.
pub proof fn lemma_ticked_wf(s: SessionView, delta: u64)
    requires
        s.wf(),
    ensures
        s.ticked(delta).wf(),
        descends(s.ticked(delta), s),
        !s.paused ==> forall|i: int|
            0 <= i < s.ticked(delta).enemies.len() ==> !(#[trigger] s.ticked(
                delta,
            ).enemies[i]).is_dead(),
{
    let t = s.clocked(delta);
    if !t.paused {
        lemma_moved_wf(t, delta);
        lemma_fired_wf(t.moved(delta), delta);
        lemma_resolved_wf(t.moved(delta).fired(delta), delta);
        let hit = t.moved(delta).fired(delta).resolved(delta);
        match s.mode {
            Mode::Normal => {
                lemma_rewarded_wf(hit);
            },
            Mode::Stress => {
                lemma_swept_wf(hit);
            },
        }
    }
}

/// Leak accounting, the pass: an enemy that has walked the whole route is
/// out of play after the movement pass of normal play. The pass takes one
/// life for each such enemy, as far as the count of lives can fall, and
/// changes nothing else of the score.
pub proof fn lemma_leak_accounting(s: SessionView, delta: u64, i: int)
    requires
        s.wf(),
        0 <= i < s.enemies.len(),
        s.enemies[i].at_end(s.path),
    ensures
        !has_id(s.marched(delta).enemies, s.enemies[i].id),
        leaks(s.enemies, s.path) >= 1,
        s.marched(delta).stats.lives == clamped(s.stats.lives - leaks(s.enemies, s.path)),
        s.marched(delta).stats.money == s.stats.money,
{
    lemma_leaked_is_gone(s.enemies, s.path, delta, s.next_id as int, i);
}

/// Leak accounting, the tick: an enemy that has walked the whole route when
/// a tick of normal play begins is out of play when the tick ends, and no
/// tower fires at it in that tick.
pub proof fn lemma_leak_leaves_within_tick(s: SessionView, delta: u64, i: int)
    requires
        s.wf(),
        s.mode == Mode::Normal,
        !s.paused,
        0 <= i < s.enemies.len(),
        s.enemies[i].at_end(s.path),
    ensures
        !has_id(s.ticked(delta).enemies, s.enemies[i].id),
        forall|k: int|
            0 <= k < s.emitted(delta).len() ==> (#[trigger] s.emitted(delta)[k]).target
                != s.enemies[i].id,
{
    let id = s.enemies[i].id;
    let t = s.clocked(delta);
    lemma_spawned_wf(t, delta);
    let s1 = t.spawned(delta);
    assert(s1.enemies[i] == s.enemies[i]);
    lemma_leaked_is_gone(s1.enemies, s1.path, delta, s1.next_id as int, i);
    lemma_marched_wf(s1, delta);
    let s2 = s1.marched(delta);
    assert(s2 == t.moved(delta));
    lemma_fired_wf(s2, delta);
    lemma_resolved_wf(s2.fired(delta), delta);
    lemma_rewarded_wf(s2.fired(delta).resolved(delta));
}

/// A handle that has left play stays out: after a tick it is still not in
/// play, it is still one of those that were given out, and no tower fired at
/// it. So an enemy that leaked or died is never aimed at again.
pub proof fn lemma_gone_stays_gone(s: SessionView, delta: u64, id: u64)
    requires
        s.wf(),
        id < s.next_id,
        !has_id(s.enemies, id),
    ensures
        s.ticked(delta).wf(),
        id < s.ticked(delta).next_id,
        !has_id(s.ticked(delta).enemies, id),
        forall|k: int|
            0 <= k < s.emitted(delta).len() ==> (#[trigger] s.emitted(delta)[k]).target != id,
{
    lemma_ticked_wf(s, delta);
    let t = s.clocked(delta);
    if !s.paused {
        lemma_moved_wf(t, delta);
        lemma_fired_wf(t.moved(delta), delta);
        }
}

/// Damage is final on death, the tick: in the projectile pass an enemy
/// without health is left as it is by every projectile, and the clean-up
/// pass that follows in the same tick takes it out of play.
pub proof fn lemma_dead_leave_within_tick(s: SessionView, delta: u64, i: int)
    requires
        s.wf(),
        0 <= i < s.enemies.len(),
        s.resolved(delta).enemies[i].is_dead(),
    ensures
        !has_id(s.resolved(delta).rewarded().enemies, s.enemies[i].id),
        !has_id(s.resolved(delta).swept().enemies, s.enemies[i].id),
        s.enemies[i].is_dead() ==> s.resolved(delta).enemies[i] == s.enemies[i],
{
    lemma_resolved_wf(s, delta);
    let hit = s.resolved(delta);
    lemma_survivors_alive(hit.enemies, hit.next_id as int);
    if s.enemies[i].is_dead() {
        assert(Seq::<Projectile>::empty() + s.projectiles == s.projectiles);
        crate::projectile::lemma_no_damage_after_death(
            Seq::empty(),
            s.projectiles,
            s.enemies,
            delta,
            i,
        );
    }
}

/// Looping, the tick: a tick of a stress test changes neither lives nor
/// currency, and takes an enemy out of play only if the projectile pass
/// left it without health. No enemy leaves for having walked the route.
pub proof fn lemma_stress_tick_keeps_the_living(s: SessionView, delta: u64, i: int)
    requires
        s.wf(),
        s.mode == Mode::Stress,
        !s.paused,
        0 <= i < s.enemies.len(),
    ensures
        s.ticked(delta).stats == s.stats,
        ({
            let t = s.clocked(delta);
            let hit = t.moved(delta).fired(delta).resolved(delta);
            &&& i < hit.enemies.len()
            &&& hit.enemies[i].id == s.enemies[i].id
            &&& hit.enemies[i].is_dead() || has_id(s.ticked(delta).enemies, s.enemies[i].id)
        }),
{
    let t = s.clocked(delta);
    lemma_sim_spawned_wf(t, delta);
    let s1 = t.sim_spawned(delta);
    assert(i < s1.enemies.len() && s1.enemies[i] == s.enemies[i]);
    lemma_cycled_wf(s1, delta);
    let s2 = s1.cycled(delta);
    if s1.path.len() > 0 && !s1.enemies[i].at_end(s1.path) {
        crate::enemy::lemma_walked_in_world(s1.enemies[i], s1.path, delta);
    }
    assert(s2.enemies[i].id == s.enemies[i].id);
    lemma_fired_wf(s2, delta);
    lemma_resolved_wf(s2.fired(delta), delta);
    let hit = s2.fired(delta).resolved(delta);
    lemma_swept_wf(hit);
    lemma_survivors_alive(hit.enemies, hit.next_id as int);
    if !hit.enemies[i].is_dead() {
        let kept = survivors(hit.enemies);
        assert(kept.contains(hit.enemies[i]));
        let k = choose|k: int| 0 <= k < kept.len() && kept[k] == hit.enemies[i];
        assert(kept[k].id == s.enemies[i].id);
    }
}

/// In a session whose level has a start tile, an enemy that sets out from
/// the first waypoint is not heading for a later waypoint before it has had
/// the time to walk the tiles up to it, however the time is cut into ticks:
/// it has not walked a route of `n` waypoints before `n - 1` tiles' lengths
/// over its speed have passed.
pub proof fn lemma_enemy_takes_its_time(s: SessionView, m: Mob, deltas: Seq<u64>)
    requires
        s.wf(),
        start_cell(s.level) is Some,
        m.position == s.path[0],
        m.follower.path_index == 1,
    ensures
        TILE_SIZE * (trek(m, s.path, deltas).follower.path_index - 1) <= m.enemy.speed * time_of(
            deltas,
        ),
        trek(m, s.path, deltas).at_end(s.path) ==> TILE_SIZE * (s.path.len() - 1)
            <= m.enemy.speed * time_of(deltas),
{
    lemma_route_is_stepwise(s.level);
    lemma_route_takes_its_time(m, s.path, deltas);
}

} // verus!
