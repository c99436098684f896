//! Enemies: their state, how they follow the route, and how they leave play.

use crate::constants::Direction;
use crate::geometry::{
    gap, lemma_reach_along_axis, lemma_step_along_axis, lemma_stepped_in_world, level,
    step_length, travel, Point,
};
use crate::grid::TILE_SIZE;
use crate::path::{one_tile_apart, stepwise};
use vstd::prelude::*;

verus! {

/// Speed of a newly spawned enemy, in world units per second.
pub const ENEMY_SPEED: u32 = 50;

/// Health of a newly spawned enemy.
pub const ENEMY_HEALTH: i32 = 85;

/// Currency awarded for each enemy killed in normal play.
pub const KILL_REWARD: i32 = 5;

/// What makes an entity an enemy: it moves, at `speed` world units per second.
#[derive(Clone, Copy, Debug, PartialEq, Eq, Structural)]
pub struct Enemy {
    pub speed: u32,
}

/// Hit points. `current` may fall below zero before the entity is removed.
#[derive(Clone, Copy, Debug, PartialEq, Eq, Structural)]
pub struct Health {
    pub current: i32,
    pub max: i32,
}

/// Progress along the route: the index of the waypoint walked toward.
#[derive(Clone, Copy, Debug, PartialEq, Eq, Structural)]
pub struct PathFollower {
    pub path_index: usize,
}

/// What a health bar shows.
#[derive(Clone, Copy, Debug, PartialEq, Eq, Structural)]
pub enum HealthBar {
    /// Nothing: the entity is unharmed.
    Hidden,
    /// The share `filled / total` of the bar, with `filled <= total` and
    /// `total > 0`.
    Shown { filled: u32, total: u32 },
}

/// One enemy in play. `id` is its handle: no two enemies of a session ever
/// share one, and a handle is never given out again.
#[derive(Clone, Copy, Debug, PartialEq, Eq, Structural)]
pub struct Mob {
    pub id: u64,
    pub position: Point,
    pub enemy: Enemy,
    pub health: Health,
    pub follower: PathFollower,
}

/// Limits an integer to the range of `i32`.
pub open spec fn clamped(v: int) -> i32 {
    if v < i32::MIN {
        i32::MIN
    } else if v > i32::MAX {
        i32::MAX
    } else {
        v as i32
    }
}

/// Limits an integer to the range of `i32`.
pub fn clamp_i32(v: i64) -> (r: i32)
    ensures
        r == clamped(v as int),
{
    if v < i32::MIN as i64 {
        i32::MIN
    } else if v > i32::MAX as i64 {
        i32::MAX
    } else {
        v as i32
    }
}

impl Health {
    /// What the health bar shows: nothing at full health, else the share
    /// `current / max` limited to the range from empty to full.
    pub open spec fn bar(self) -> HealthBar {
        if self.current >= self.max {
            HealthBar::Hidden
        } else if self.max > 0 {
            HealthBar::Shown {
                filled: if self.current > 0 {
                    self.current as u32
                } else {
                    0
                },
                total: self.max as u32,
            }
        } else if self.max < 0 {
            HealthBar::Shown { filled: 1, total: 1 }
        } else {
            HealthBar::Shown { filled: 0, total: 1 }
        }
    }

    /// Health after a hit of `damage`, limited to the range of `i32`.
    pub open spec fn damaged(self, damage: i32) -> Health {
        Health { current: clamped(self.current - damage), max: self.max }
    }

    /// What the health bar shows.
    pub fn health_bar(&self) -> (bar: HealthBar)
        ensures
            bar == self.bar(),
            bar matches HealthBar::Shown { filled, total } ==> filled <= total && total > 0,
    {
        if self.current >= self.max {
            HealthBar::Hidden
        } else if self.max > 0 {
            HealthBar::Shown {
                filled: if self.current > 0 {
                    self.current as u32
                } else {
                    0
                },
                total: self.max as u32,
            }
        } else if self.max < 0 {
            HealthBar::Shown { filled: 1, total: 1 }
        } else {
            HealthBar::Shown { filled: 0, total: 1 }
        }
    }

    /// Takes a hit of `damage`.
    pub fn damage(&self, damage: i32) -> (h: Health)
        ensures
            h == self.damaged(damage),
    {
        Health { current: clamp_i32(self.current as i64 - damage as i64), max: self.max }
    }
}

/// The side that a sprite at `from` faces when it heads for `to`: right or
/// left where the way is mostly horizontal, and no side of its own otherwise.
pub open spec fn facing_toward(from: Point, to: Point) -> Option<Direction> {
    let dx = to.x - from.x;
    let dy = to.y - from.y;
    let ax = if dx >= 0 { dx } else { -dx };
    let ay = if dy >= 0 { dy } else { -dy };
    if ax > ay {
        if dx > 0 {
            Some(Direction::Right)
        } else {
            Some(Direction::Left)
        }
    } else {
        None
    }
}

/// The side that a sprite at `from` faces when it heads for `to`.
pub fn facing(from: &Point, to: &Point) -> (side: Option<Direction>)
    ensures
        side == facing_toward(*from, *to),
{
    let dx: i128 = to.x as i128 - from.x as i128;
    let dy: i128 = to.y as i128 - from.y as i128;
    let ax = if dx >= 0 { dx } else { -dx };
    let ay = if dy >= 0 { dy } else { -dy };
    if ax > ay {
        if dx > 0 {
            Some(Direction::Right)
        } else {
            Some(Direction::Left)
        }
    } else {
        None
    }
}

impl Mob {
    /// A fresh enemy at the first waypoint, heading for the second.
    pub open spec fn fresh(id: u64, at: Point) -> Mob {
        Mob {
            id,
            position: at,
            enemy: Enemy { speed: ENEMY_SPEED },
            health: Health { current: ENEMY_HEALTH, max: ENEMY_HEALTH },
            follower: PathFollower { path_index: 1 },
        }
    }

    /// The enemy has walked the whole route.
    pub open spec fn at_end(self, path: Seq<Point>) -> bool {
        self.follower.path_index >= path.len()
    }

    /// The enemy has no health left.
    pub open spec fn is_dead(self) -> bool {
        self.health.current <= 0
    }

    /// The enemy after walking toward its waypoint for `delta` nanoseconds:
    /// on the waypoint and heading for the next if it got there, else nearer.
    pub open spec fn walked(self, path: Seq<Point>, delta: u64) -> Mob {
        let target = path[self.follower.path_index as int];
        let step = travel(self.enemy.speed, delta);
        if self.position.reaches(target, step) {
            Mob {
                position: target,
                follower: PathFollower { path_index: (self.follower.path_index + 1) as usize },
                ..self
            }
        } else {
            Mob { position: self.position.stepped(target, step), ..self }
        }
    }

    /// The enemy put back to the first waypoint, heading for the second.
    pub open spec fn restarted(self, path: Seq<Point>) -> Mob {
        Mob { position: path[0], follower: PathFollower { path_index: 1 }, ..self }
    }

    /// The enemy after `delta` nanoseconds on a route that loops: put back to
    /// the start if it had walked the whole route, else walked on.
    pub open spec fn looped(self, path: Seq<Point>, delta: u64) -> Mob {
        if self.at_end(path) {
            self.restarted(path)
        } else {
            self.walked(path, delta)
        }
    }

    /// The enemy after a hit of `damage`.
    pub open spec fn hit(self, damage: i32) -> Mob {
        Mob { health: self.health.damaged(damage), ..self }
    }

    /// The side that the enemy faces, if its way is mostly horizontal.
    pub open spec fn faces(self, path: Seq<Point>) -> Option<Direction> {
        if self.at_end(path) {
            None
        } else {
            facing_toward(self.position, path[self.follower.path_index as int])
        }
    }

    /// Makes a fresh enemy.
    pub fn new(id: u64, at: Point) -> (m: Mob)
        ensures
            m == Mob::fresh(id, at),
    {
        Mob {
            id,
            position: at,
            enemy: Enemy { speed: ENEMY_SPEED },
            health: Health { current: ENEMY_HEALTH, max: ENEMY_HEALTH },
            follower: PathFollower { path_index: 1 },
        }
    }

    /// Walks toward the current waypoint for `delta` nanoseconds.
    pub fn walk(&self, path: &Vec<Point>, delta: u64) -> (m: Mob)
        requires
            self.position.in_world(),
            points_in_world(path@),
            !self.at_end(path@),
        ensures
            m == self.walked(path@, delta),
            m.position.in_world(),
    {
        assert(self.follower.path_index < path.len());
        let target = path[self.follower.path_index];
        let step = step_length(self.enemy.speed, delta);
        let (position, arrived) = self.position.advance(&target, step);
        if arrived {
            Mob {
                id: self.id,
                position,
                enemy: self.enemy,
                health: self.health,
                follower: PathFollower { path_index: self.follower.path_index + 1 },
            }
        } else {
            Mob {
                id: self.id,
                position,
                enemy: self.enemy,
                health: self.health,
                follower: self.follower,
            }
        }
    }

    /// The side that the enemy faces on its way, if that way is mostly
    /// horizontal; a sprite that gets no side keeps the one it had.
    pub fn facing(&self, path: &Vec<Point>) -> (side: Option<Direction>)
        ensures
            side == self.faces(path@),
    {
        if self.follower.path_index < path.len() {
            facing(&self.position, &path[self.follower.path_index])
        } else {
            None
        }
    }
}

/// Every point of the sequence lies within the world's limits.
pub open spec fn points_in_world(points: Seq<Point>) -> bool {
    forall|i: int| 0 <= i < points.len() ==> (#[trigger] points[i]).in_world()
}

/// Enemies stand in the order of their handles, so that no two share one,
/// and every enemy is inside the world.
pub open spec fn ordered(mobs: Seq<Mob>) -> bool {
    &&& forall|i: int| 0 <= i < mobs.len() ==> (#[trigger] mobs[i]).position.in_world()
    &&& forall|i: int, j: int|
        0 <= i < j < mobs.len() ==> (#[trigger] mobs[i]).id < (#[trigger] mobs[j]).id
}

/// Enemies are in order, and each handle is below `bound`.
pub open spec fn valid_mobs(mobs: Seq<Mob>, bound: int) -> bool {
    &&& ordered(mobs)
    &&& forall|i: int| 0 <= i < mobs.len() ==> (#[trigger] mobs[i]).id < bound
}

/// Some enemy of the sequence has the handle `id`.
pub open spec fn has_id(mobs: Seq<Mob>, id: u64) -> bool {
    exists|i: int| 0 <= i < mobs.len() && (#[trigger] mobs[i]).id == id
}

/// The test "has not walked the whole route".
pub open spec fn on_the_way(path: Seq<Point>) -> spec_fn(Mob) -> bool {
    |m: Mob| !m.at_end(path)
}

/// The test "has walked the whole route".
pub open spec fn arrived(path: Seq<Point>) -> spec_fn(Mob) -> bool {
    |m: Mob| m.at_end(path)
}

/// The step "walk on for `delta` nanoseconds".
pub open spec fn walking(path: Seq<Point>, delta: u64) -> spec_fn(Mob) -> Mob {
    |m: Mob| m.walked(path, delta)
}

/// The step "walk on, or start over, for `delta` nanoseconds".
pub open spec fn looping(path: Seq<Point>, delta: u64) -> spec_fn(Mob) -> Mob {
    |m: Mob| m.looped(path, delta)
}

/// The test "has health left".
pub open spec fn alive() -> spec_fn(Mob) -> bool {
    |m: Mob| !m.is_dead()
}

/// The test "has no health left".
pub open spec fn dead() -> spec_fn(Mob) -> bool {
    |m: Mob| m.is_dead()
}

/// Normal play, the enemies after `delta` nanoseconds: those that had walked
/// the whole route are gone, the others have walked on, in the same order.
/// Without a route nothing moves.
pub open spec fn marched(mobs: Seq<Mob>, path: Seq<Point>, delta: u64) -> Seq<Mob> {
    if path.len() == 0 {
        mobs
    } else {
        mobs.filter(on_the_way(path)).map_values(walking(path, delta))
    }
}

/// How many enemies had walked the whole route.
pub open spec fn leaks(mobs: Seq<Mob>, path: Seq<Point>) -> nat {
    if path.len() == 0 {
        0
    } else {
        mobs.filter(arrived(path)).len()
    }
}

/// Stress test, the enemies after `delta` nanoseconds: each one that had
/// walked the whole route starts over, the others have walked on. None is
/// removed. Without a route nothing moves.
pub open spec fn cycled(mobs: Seq<Mob>, path: Seq<Point>, delta: u64) -> Seq<Mob> {
    if path.len() == 0 {
        mobs
    } else {
        mobs.map_values(looping(path, delta))
    }
}

/// The enemies that have health left, in the same order.
pub open spec fn survivors(mobs: Seq<Mob>) -> Seq<Mob> {
    mobs.filter(alive())
}

/// How many enemies have no health left.
pub open spec fn kills(mobs: Seq<Mob>) -> nat {
    mobs.filter(dead()).len()
}

/// Moves the enemies of normal play for `delta` nanoseconds. Returns those
/// that remain and the number that had walked the whole route.
pub fn march(mobs: &Vec<Mob>, path: &Vec<Point>, delta: u64) -> (r: (Vec<Mob>, usize))
    requires
        points_in_world(path@),
        forall|i: int| 0 <= i < mobs@.len() ==> (#[trigger] mobs@[i]).position.in_world(),
    ensures
        r.0@ == marched(mobs@, path@, delta),
        r.1 == leaks(mobs@, path@),
{
    let mut out: Vec<Mob> = Vec::new();
    let mut leaked: usize = 0;
    if path.len() == 0 {
        let mut k: usize = 0;
        while k < mobs.len()
            invariant
                k <= mobs.len(),
                out@ == mobs@.take(k as int),
            decreases mobs.len() - k,
        {
            out.push(mobs[k]);
            k += 1;
        }
        assert(mobs@.take(mobs@.len() as int) == mobs@);
        return (out, 0);
    }
    let mut i: usize = 0;
    while i < mobs.len()
        invariant
            i <= mobs.len(),
            path@.len() > 0,
            points_in_world(path@),
            forall|j: int| 0 <= j < mobs@.len() ==> (#[trigger] mobs@[j]).position.in_world(),
            out@ == mobs@.take(i as int).filter(on_the_way(path@)).map_values(
                walking(path@, delta),
            ),
            leaked == mobs@.take(i as int).filter(arrived(path@)).len(),
            leaked <= i,
        decreases mobs.len() - i,
    {
        let m = mobs[i];
        proof {
            let before = mobs@.take(i as int);
            let now = mobs@.take(i + 1);
            assert(now.drop_last() == before);
            assert(now.last() == m);
            reveal_with_fuel(Seq::filter, 2);
        }
        if m.follower.path_index >= path.len() {
            leaked += 1;
        } else {
            out.push(m.walk(path, delta));
        }
        i += 1;
    }
    assert(mobs@.take(mobs@.len() as int) == mobs@);
    (out, leaked)
}

/// Moves the enemies of a stress test for `delta` nanoseconds.
pub fn cycle(mobs: &Vec<Mob>, path: &Vec<Point>, delta: u64) -> (out: Vec<Mob>)
    requires
        points_in_world(path@),
        forall|i: int| 0 <= i < mobs@.len() ==> (#[trigger] mobs@[i]).position.in_world(),
    ensures
        out@ == cycled(mobs@, path@, delta),
{
    let mut out: Vec<Mob> = Vec::new();
    let mut i: usize = 0;
    while i < mobs.len()
        invariant
            i <= mobs.len(),
            points_in_world(path@),
            forall|j: int| 0 <= j < mobs@.len() ==> (#[trigger] mobs@[j]).position.in_world(),
            out@.len() == i,
            forall|j: int|
                0 <= j < i ==> out@[j] == (if path@.len() == 0 {
                    mobs@[j]
                } else {
                    (#[trigger] mobs@[j]).looped(path@, delta)
                }),
        decreases mobs.len() - i,
    {
        let m = mobs[i];
        if path.len() == 0 {
            out.push(m);
        } else if m.follower.path_index >= path.len() {
            out.push(
                Mob {
                    id: m.id,
                    position: path[0],
                    enemy: m.enemy,
                    health: m.health,
                    follower: PathFollower { path_index: 1 },
                },
            );
        } else {
            out.push(m.walk(path, delta));
        }
        i += 1;
    }
    assert(out@ =~= cycled(mobs@, path@, delta));
    out
}

/// Removes the enemies that have no health left. Returns those that remain
/// and the number removed.
pub fn reap(mobs: &Vec<Mob>) -> (r: (Vec<Mob>, usize))
    ensures
        r.0@ == survivors(mobs@),
        r.1 == kills(mobs@),
{
    let mut out: Vec<Mob> = Vec::new();
    let mut killed: usize = 0;
    let mut i: usize = 0;
    while i < mobs.len()
        invariant
            i <= mobs.len(),
            out@ == mobs@.take(i as int).filter(alive()),
            killed == mobs@.take(i as int).filter(dead()).len(),
            killed <= i,
        decreases mobs.len() - i,
    {
        let m = mobs[i];
        proof {
            let before = mobs@.take(i as int);
            let now = mobs@.take(i + 1);
            assert(now.drop_last() == before);
            assert(now.last() == m);
            reveal_with_fuel(Seq::filter, 2);
        }
        if m.health.current <= 0 {
            killed += 1;
        } else {
            out.push(m);
        }
        i += 1;
    }
    assert(mobs@.take(mobs@.len() as int) == mobs@);
    (out, killed)
}

/// Filtering keeps enemies valid, whatever the test.
pub proof fn lemma_filter_valid(mobs: Seq<Mob>, keep: spec_fn(Mob) -> bool, bound: int)
    requires
        valid_mobs(mobs, bound),
    ensures
        valid_mobs(mobs.filter(keep), bound),
        forall|i: int|
            0 <= i < mobs.filter(keep).len() ==> has_id(mobs, (#[trigger] mobs.filter(keep)[i]).id)
                && keep(mobs.filter(keep)[i]),
    decreases mobs.len(),
{
    reveal_with_fuel(Seq::filter, 2);
    if mobs.len() > 0 {
        let rest = mobs.drop_last();
        let last = mobs.last();
        assert(valid_mobs(rest, last.id as int)) by {
            assert forall|i: int| 0 <= i < rest.len() implies (#[trigger] rest[i]).id
                < last.id by {
                assert(rest[i] == mobs[i]);
                assert(mobs[i].id < mobs[mobs.len() - 1].id);
            }
            assert forall|i: int, j: int| 0 <= i < j < rest.len() implies (#[trigger] rest[i]).id
                < (#[trigger] rest[j]).id by {
                assert(rest[i] == mobs[i] && rest[j] == mobs[j]);
            }
            assert forall|i: int| 0 <= i < rest.len() implies (
            #[trigger] rest[i]).position.in_world() by {
                assert(rest[i] == mobs[i]);
            }
        }
        lemma_filter_valid(rest, keep, last.id as int);
        let kept = rest.filter(keep);
        let all = mobs.filter(keep);
        assert forall|i: int| 0 <= i < all.len() implies has_id(mobs, (#[trigger] all[i]).id)
            && keep(all[i]) by {
            if i < kept.len() {
                assert(all[i] == kept[i]);
                let j = choose|j: int| 0 <= j < rest.len() && (#[trigger] rest[j]).id == kept[i].id;
                assert(mobs[j].id == kept[i].id);
            } else {
                assert(all[i] == last);
                assert(mobs[mobs.len() - 1].id == last.id);
            }
        }
    }
}

/// Moving the enemies of normal play keeps them valid, and each that remains
/// was there before.
pub proof fn lemma_marched_valid(mobs: Seq<Mob>, path: Seq<Point>, delta: u64, bound: int)
    requires
        valid_mobs(mobs, bound),
        points_in_world(path),
    ensures
        valid_mobs(marched(mobs, path, delta), bound),
        forall|i: int|
            0 <= i < marched(mobs, path, delta).len() ==> has_id(
                mobs,
                (#[trigger] marched(mobs, path, delta)[i]).id,
            ),
{
    if path.len() > 0 {
        let kept = mobs.filter(on_the_way(path));
        lemma_filter_valid(mobs, on_the_way(path), bound);
        let out = marched(mobs, path, delta);
        assert forall|i: int| 0 <= i < out.len() implies (#[trigger] out[i]).position.in_world()
            && out[i].id == kept[i].id by {
            lemma_walked_in_world(kept[i], path, delta);
        }
        assert forall|i: int| 0 <= i < out.len() implies has_id(mobs, (#[trigger] out[i]).id) by {
            assert(out[i].id == kept[i].id);
        }
        assert forall|i: int, j: int| 0 <= i < j < out.len() implies (#[trigger] out[i]).id < (
        #[trigger] out[j]).id by {
            assert(out[i].id == kept[i].id && out[j].id == kept[j].id);
        }
    } else {
        assert forall|i: int| 0 <= i < mobs.len() implies has_id(
            mobs,
            (#[trigger] mobs[i]).id,
        ) by {}
    }
}

/// An enemy that walks on stays inside the world and keeps its handle.
pub proof fn lemma_walked_in_world(m: Mob, path: Seq<Point>, delta: u64)
    requires
        m.position.in_world(),
        points_in_world(path),
        !m.at_end(path),
    ensures
        m.walked(path, delta).position.in_world(),
        m.walked(path, delta).id == m.id,
        m.walked(path, delta).health == m.health,
{
    let target = path[m.follower.path_index as int];
    let step = travel(m.enemy.speed, delta);
    if !m.position.reaches(target, step) {
        lemma_stepped_in_world(m.position, target, step);
    }
}

/// Moving the enemies of a stress test keeps them valid.
pub proof fn lemma_cycled_valid(mobs: Seq<Mob>, path: Seq<Point>, delta: u64, bound: int)
    requires
        valid_mobs(mobs, bound),
        points_in_world(path),
    ensures
        valid_mobs(cycled(mobs, path, delta), bound),
{
    if path.len() > 0 {
        let out = cycled(mobs, path, delta);
        assert forall|i: int| 0 <= i < out.len() implies (#[trigger] out[i]).position.in_world()
            && out[i].id == mobs[i].id by {
            if !mobs[i].at_end(path) {
                lemma_walked_in_world(mobs[i], path, delta);
            }
        }
        assert forall|i: int, j: int| 0 <= i < j < out.len() implies (#[trigger] out[i]).id < (
        #[trigger] out[j]).id by {
            assert(out[i].id == mobs[i].id && out[j].id == mobs[j].id);
        }
    }
}

/// An enemy without health is not among the survivors, and every survivor
/// has health left.
pub proof fn lemma_survivors_alive(mobs: Seq<Mob>, bound: int)
    requires
        valid_mobs(mobs, bound),
    ensures
        forall|i: int|
            0 <= i < survivors(mobs).len() ==> !(#[trigger] survivors(mobs)[i]).is_dead(),
        forall|i: int|
            0 <= i < mobs.len() && (#[trigger] mobs[i]).is_dead() ==> !has_id(
                survivors(mobs),
                mobs[i].id,
            ),
        forall|i: int|
            0 <= i < mobs.len() && !(#[trigger] mobs[i]).is_dead() ==> survivors(mobs).contains(
                mobs[i],
            ),
{
    lemma_filter_valid(mobs, alive(), bound);
    let kept = survivors(mobs);
    assert forall|i: int| 0 <= i < mobs.len() && (#[trigger] mobs[i]).is_dead() implies !has_id(
        kept,
        mobs[i].id,
    ) by {
        if has_id(kept, mobs[i].id) {
            let k = choose|k: int| 0 <= k < kept.len() && (#[trigger] kept[k]).id == mobs[i].id;
            lemma_kept_unchanged(mobs, alive(), bound, k, i);
        }
    }
    assert forall|i: int|
        0 <= i < mobs.len() && !(#[trigger] mobs[i]).is_dead() implies kept.contains(mobs[i]) by {
        mobs.lemma_filter_contains(alive(), i);
    }
}

/// Among valid enemies, one that a filter kept and has the handle of an
/// enemy of the unfiltered sequence is that enemy.
pub proof fn lemma_kept_unchanged(
    mobs: Seq<Mob>,
    keep: spec_fn(Mob) -> bool,
    bound: int,
    k: int,
    i: int,
)
    requires
        valid_mobs(mobs, bound),
        0 <= k < mobs.filter(keep).len(),
        0 <= i < mobs.len(),
        mobs.filter(keep)[k].id == mobs[i].id,
    ensures
        mobs.filter(keep)[k] == mobs[i],
        keep(mobs[i]),
{
    lemma_filter_valid(mobs, keep, bound);
    let kept = mobs.filter(keep);
    assert(kept.contains(kept[k]));
    mobs.lemma_filter_contains_rev(keep, kept[k]);
    mobs.lemma_filter_pred(keep, k);
    let j = choose|j: int| 0 <= j < mobs.len() && mobs[j] == kept[k];
    if j < i {
        assert(mobs[j].id < mobs[i].id);
    } else if i < j {
        assert(mobs[i].id < mobs[j].id);
    }
}

/// An enemy that had walked the whole route is not among those that the
/// movement pass of normal play leaves.
pub proof fn lemma_leaked_is_gone(mobs: Seq<Mob>, path: Seq<Point>, delta: u64, bound: int, i: int)
    requires
        valid_mobs(mobs, bound),
        points_in_world(path),
        path.len() > 0,
        0 <= i < mobs.len(),
        mobs[i].at_end(path),
    ensures
        !has_id(marched(mobs, path, delta), mobs[i].id),
        leaks(mobs, path) >= 1,
{
    let kept = mobs.filter(on_the_way(path));
    let out = marched(mobs, path, delta);
    if has_id(out, mobs[i].id) {
        let k = choose|k: int| 0 <= k < out.len() && (#[trigger] out[k]).id == mobs[i].id;
        lemma_filter_valid(mobs, on_the_way(path), bound);
        lemma_walked_in_world(kept[k], path, delta);
        lemma_kept_unchanged(mobs, on_the_way(path), bound, k, i);
    }
    mobs.lemma_filter_contains(arrived(path), i);
    let gone = mobs.filter(arrived(path));
    let k = choose|k: int| 0 <= k < gone.len() && gone[k] == mobs[i];
}

/// Each enemy that had walked the whole route counts once: adding one enemy
/// raises the number of leaks by one if it had, and not at all if not.
pub proof fn lemma_leaks_count(mobs: Seq<Mob>, m: Mob, path: Seq<Point>)
    requires
        path.len() > 0,
    ensures
        leaks(mobs.push(m), path) == leaks(mobs, path) + (if m.at_end(path) {
            1nat
        } else {
            0nat
        }),
        leaks(Seq::empty(), path) == 0,
{
    reveal_with_fuel(Seq::filter, 2);
    assert(mobs.push(m).drop_last() == mobs);
}

/// The handles of a sequence with one more enemy are those of the sequence
/// and that of the enemy.
pub proof fn lemma_has_id_push(mobs: Seq<Mob>, m: Mob, id: u64)
    ensures
        has_id(mobs.push(m), id) <==> has_id(mobs, id) || m.id == id,
{
    let more = mobs.push(m);
    if has_id(more, id) {
        let i = choose|i: int| 0 <= i < more.len() && (#[trigger] more[i]).id == id;
        if i < mobs.len() {
            assert(mobs[i].id == id);
        }
    }
    if has_id(mobs, id) {
        let i = choose|i: int| 0 <= i < mobs.len() && (#[trigger] mobs[i]).id == id;
        assert(more[i].id == id);
    }
    if m.id == id {
        assert(more[mobs.len() as int].id == id);
    }
}

/// Two sequences of the same length whose enemies agree in their handles,
/// place by place, have the same handles.
pub proof fn lemma_has_id_same(a: Seq<Mob>, b: Seq<Mob>, id: u64)
    requires
        a.len() == b.len(),
        forall|i: int| 0 <= i < a.len() ==> (#[trigger] a[i]).id == b[i].id,
    ensures
        has_id(a, id) <==> has_id(b, id),
{
    if has_id(a, id) {
        let i = choose|i: int| 0 <= i < a.len() && (#[trigger] a[i]).id == id;
        assert(b[i].id == id);
    }
    if has_id(b, id) {
        let i = choose|i: int| 0 <= i < b.len() && (#[trigger] b[i]).id == id;
        assert(a[i].id == id);
    }
}

/// The enemy is on the track: it heads for a waypoint after the first or
/// has walked the whole route, and while it walks it is level with its
/// waypoint and at most a tile from it.
pub open spec fn on_track(m: Mob, path: Seq<Point>) -> bool {
    &&& 1 <= m.follower.path_index <= path.len()
    &&& m.position.in_world()
    &&& !m.at_end(path) ==> {
        &&& level(m.position, path[m.follower.path_index as int])
        &&& gap(m.position, path[m.follower.path_index as int]) <= TILE_SIZE
    }
}

/// How far along the route an enemy on the track has come from the first
/// waypoint, in sub-units.
pub open spec fn travelled(m: Mob, path: Seq<Point>) -> int {
    if m.at_end(path) {
        TILE_SIZE * (m.follower.path_index - 1)
    } else {
        TILE_SIZE * m.follower.path_index - gap(
            m.position,
            path[m.follower.path_index as int],
        )
    }
}

/// The time that a run of ticks takes, in nanoseconds.
pub open spec fn time_of(deltas: Seq<u64>) -> int
    decreases deltas.len(),
{
    if deltas.len() == 0 {
        0
    } else {
        time_of(deltas.drop_last()) + deltas.last()
    }
}

/// The enemy after a run of movement passes with the given tick lengths:
/// in each pass it walks on, until it has walked the whole route.
pub open spec fn trek(m: Mob, path: Seq<Point>, deltas: Seq<u64>) -> Mob
    decreases deltas.len(),
{
    if deltas.len() == 0 {
        m
    } else {
        let before = trek(m, path, deltas.drop_last());
        if before.at_end(path) {
            before
        } else {
            before.walked(path, deltas.last())
        }
    }
}

/// The movement pass of normal play walks every enemy on that had not walked
/// the whole route: what one pass of [`trek`] does to an enemy is what the
/// pass does to it.
pub proof fn lemma_marched_walks(mobs: Seq<Mob>, path: Seq<Point>, delta: u64, i: int)
    requires
        path.len() > 0,
        0 <= i < mobs.len(),
        !mobs[i].at_end(path),
    ensures
        marched(mobs, path, delta).contains(mobs[i].walked(path, delta)),
{
    let kept = mobs.filter(on_the_way(path));
    mobs.lemma_filter_contains(on_the_way(path), i);
    let k = choose|k: int| 0 <= k < kept.len() && kept[k] == mobs[i];
    assert(marched(mobs, path, delta)[k] == mobs[i].walked(path, delta));
}

/// Progress in one pass: an enemy on the track of a route whose waypoints
/// are a tile apart stays on the track, keeps its waypoint or turns to the
/// next, and comes no further along the route than its speed times the
/// length of the tick.
pub proof fn lemma_walk_progress(m: Mob, path: Seq<Point>, delta: u64)
    requires
        stepwise(path),
        points_in_world(path),
        path.len() <= usize::MAX,
        on_track(m, path),
        !m.at_end(path),
    ensures
        on_track(m.walked(path, delta), path),
        m.walked(path, delta).follower.path_index == m.follower.path_index || m.walked(
            path,
            delta,
        ).follower.path_index == m.follower.path_index + 1,
        travelled(m, path) <= travelled(m.walked(path, delta), path) <= travelled(m, path)
            + travel(m.enemy.speed, delta),
        m.walked(path, delta).enemy == m.enemy,
        m.walked(path, delta).id == m.id,
{
    let i = m.follower.path_index as int;
    let target = path[i];
    let step = travel(m.enemy.speed, delta);
    let n = m.walked(path, delta);
    lemma_reach_along_axis(m.position, target, step);
    if m.position.reaches(target, step) {
        if i + 1 < path.len() {
            assert(one_tile_apart(path[i], path[i + 1]));
        }
    } else {
        lemma_step_along_axis(m.position, target, step);
    }
}

/// Progress over a run of passes: an enemy on the track never comes further
/// along the route than its speed times the time that has passed. Its
/// waypoint index never falls and rises by at most one in each pass.
pub proof fn lemma_trek_progress(m: Mob, path: Seq<Point>, deltas: Seq<u64>)
    requires
        stepwise(path),
        points_in_world(path),
        path.len() <= usize::MAX,
        on_track(m, path),
    ensures
        on_track(trek(m, path, deltas), path),
        trek(m, path, deltas).enemy == m.enemy,
        trek(m, path, deltas).id == m.id,
        m.follower.path_index <= trek(m, path, deltas).follower.path_index
            <= m.follower.path_index + deltas.len(),
        travelled(m, path) <= travelled(trek(m, path, deltas), path) <= travelled(m, path)
            + m.enemy.speed * time_of(deltas),
        TILE_SIZE * (trek(m, path, deltas).follower.path_index - 1) <= travelled(
            trek(m, path, deltas),
            path,
        ),
        time_of(deltas) >= 0,
    decreases deltas.len(),
{
    if deltas.len() > 0 {
        let earlier = deltas.drop_last();
        let before = trek(m, path, earlier);
        lemma_trek_progress(m, path, earlier);
        if !before.at_end(path) {
            lemma_walk_progress(before, path, deltas.last());
        }
        let speed = m.enemy.speed as int;
        let t = time_of(earlier);
        let d = deltas.last() as int;
        assert(speed * (t + d) == speed * t + speed * d && speed * d >= 0) by (nonlinear_arith)
            requires
                speed >= 0,
                d >= 0,
        ;
    }
}

/// An enemy that sets out from the first waypoint cannot be heading for
/// waypoint `k` before it has had the time to walk the `k - 1` tiles up to
/// it: a tile's length times the tiles behind it is at most its speed times
/// the time that has passed. So it has not walked a route of `n` waypoints
/// before `(n - 1)` tiles' lengths over its speed.
pub proof fn lemma_route_takes_its_time(m: Mob, path: Seq<Point>, deltas: Seq<u64>)
    requires
        stepwise(path),
        points_in_world(path),
        1 <= path.len() <= usize::MAX,
        m.position == path[0],
        m.follower.path_index == 1,
    ensures
        TILE_SIZE * (trek(m, path, deltas).follower.path_index - 1) <= m.enemy.speed * time_of(
            deltas,
        ),
        trek(m, path, deltas).at_end(path) ==> TILE_SIZE * (path.len() - 1) <= m.enemy.speed
            * time_of(deltas),
{
    if path.len() >= 2 {
        assert(one_tile_apart(path[0], path[1]));
    }
    assert(on_track(m, path));
    assert(travelled(m, path) == 0);
    lemma_trek_progress(m, path, deltas);
    let e = trek(m, path, deltas);
    if e.at_end(path) {
        assert(e.follower.path_index == path.len());
    }
}

} // verus!
