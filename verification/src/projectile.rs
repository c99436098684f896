//! Projectiles: homing shots that fly at an enemy and hurt it on arrival.

use crate::enemy::{has_id, ordered, Mob};
use crate::geometry::{lemma_stepped_in_world, step_length, travel, Point};
use vstd::prelude::*;

verus! {

/// Speed of every projectile, in world units per second.
pub const PROJECTILE_SPEED: u32 = 300;

/// A shot in flight. `target` is the handle of the enemy it flies at; that
/// enemy may be gone by the time the shot would arrive.
#[derive(Clone, Copy, Debug, PartialEq, Eq, Structural)]
pub struct Projectile {
    pub position: Point,
    pub target: u64,
    pub damage: i32,
    pub speed: u32,
}

/// `i` is the place of the enemy with the handle `id`.
pub open spec fn is_index_of(mobs: Seq<Mob>, id: u64, i: int) -> bool {
    0 <= i < mobs.len() && mobs[i].id == id
}

/// The place of the enemy with the handle `id`, if it is in play.
pub open spec fn index_of(mobs: Seq<Mob>, id: u64) -> Option<int> {
    if exists|i: int| is_index_of(mobs, id, i) {
        Some(choose|i: int| is_index_of(mobs, id, i))
    } else {
        None
    }
}

impl Projectile {
    /// The place of the projectile's target, if the target is in play and has
    /// health left. An enemy without health is as good as gone: nothing hits
    /// it any more.
    pub open spec fn quarry(self, mobs: Seq<Mob>) -> Option<int> {
        match index_of(mobs, self.target) {
            Some(i) => if mobs[i].is_dead() {
                None
            } else {
                Some(i)
            },
            None => None,
        }
    }

    /// The projectile arrives at its target within `delta` nanoseconds.
    pub open spec fn lands(self, mobs: Seq<Mob>, delta: u64) -> bool {
        match self.quarry(mobs) {
            Some(i) => self.position.reaches(mobs[i].position, travel(self.speed, delta)),
            None => false,
        }
    }

    /// What is left of the projectile after `delta` nanoseconds: nothing if
    /// its target is gone or it arrived, else the projectile nearer its
    /// target.
    pub open spec fn flown(self, mobs: Seq<Mob>, delta: u64) -> Option<Projectile> {
        match self.quarry(mobs) {
            Some(i) => if self.lands(mobs, delta) {
                None
            } else {
                Some(
                    Projectile {
                        position: self.position.stepped(
                            mobs[i].position,
                            travel(self.speed, delta),
                        ),
                        ..self
                    },
                )
            },
            None => None,
        }
    }

    /// The enemies after the projectile's turn: its target is hurt if the
    /// projectile arrived, and nothing else changes.
    pub open spec fn struck(self, mobs: Seq<Mob>, delta: u64) -> Seq<Mob> {
        match self.quarry(mobs) {
            Some(i) => if self.lands(mobs, delta) {
                mobs.update(i, mobs[i].hit(self.damage))
            } else {
                mobs
            },
            None => mobs,
        }
    }
}

/// The projectiles left in flight after each, in order, has had its turn.
pub open spec fn in_flight(shots: Seq<Projectile>, mobs: Seq<Mob>, delta: u64) -> Seq<Projectile>
    decreases shots.len(),
{
    if shots.len() == 0 {
        Seq::empty()
    } else {
        let before = shots.drop_last();
        match shots.last().flown(battered(before, mobs, delta), delta) {
            Some(p) => in_flight(before, mobs, delta).push(p),
            None => in_flight(before, mobs, delta),
        }
    }
}

/// The enemies after each projectile, in order, has had its turn. A later
/// projectile meets the enemies as the earlier ones left them.
pub open spec fn battered(shots: Seq<Projectile>, mobs: Seq<Mob>, delta: u64) -> Seq<Mob>
    decreases shots.len(),
{
    if shots.len() == 0 {
        mobs
    } else {
        shots.last().struck(battered(shots.drop_last(), mobs, delta), delta)
    }
}

/// Every projectile of the sequence is inside the world.
pub open spec fn shots_in_world(shots: Seq<Projectile>) -> bool {
    forall|i: int| 0 <= i < shots.len() ==> (#[trigger] shots[i]).position.in_world()
}

/// Among enemies in order, a handle has at most one place.
pub proof fn lemma_index_unique(mobs: Seq<Mob>, id: u64, i: int, j: int)
    requires
        ordered(mobs),
        is_index_of(mobs, id, i),
        is_index_of(mobs, id, j),
    ensures
        i == j,
{
    if i < j {
        assert(mobs[i].id < mobs[j].id);
    } else if j < i {
        assert(mobs[j].id < mobs[i].id);
    }
}

/// Finds the enemy with the handle `id` among enemies in order.
pub fn find_mob(mobs: &Vec<Mob>, id: u64) -> (r: Option<usize>)
    requires
        ordered(mobs@),
    ensures
        match r {
            Some(i) => {
                &&& index_of(mobs@, id) == Some(i as int)
                &&& i < mobs@.len()
                &&& mobs@[i as int].id == id
            },
            None => index_of(mobs@, id) is None && !has_id(mobs@, id),
        },
{
    let mut lo: usize = 0;
    let mut hi: usize = mobs.len();
    while lo < hi
        invariant
            lo <= hi <= mobs@.len(),
            ordered(mobs@),
            forall|k: int| 0 <= k < lo ==> (#[trigger] mobs@[k]).id < id,
            forall|k: int| hi <= k < mobs@.len() ==> (#[trigger] mobs@[k]).id > id,
        decreases hi - lo,
    {
        let mid = lo + (hi - lo) / 2;
        let here = mobs[mid].id;
        if here == id {
            proof {
                assert(is_index_of(mobs@, id, mid as int));
                lemma_index_unique(
                    mobs@,
                    id,
                    mid as int,
                    choose|i: int| is_index_of(mobs@, id, i),
                );
            }
            return Some(mid);
        } else if here < id {
            assert forall|k: int| 0 <= k < mid + 1 implies (#[trigger] mobs@[k]).id < id by {
                if k < mid {
                    assert(mobs@[k].id < mobs@[mid as int].id);
                }
            }
            lo = mid + 1;
        } else {
            assert forall|k: int| mid <= k < mobs@.len() implies (#[trigger] mobs@[k]).id > id by {
                if k > mid {
                    assert(mobs@[mid as int].id < mobs@[k].id);
                }
            }
            hi = mid;
        }
    }
    proof {
        assert forall|i: int| !is_index_of(mobs@, id, i) by {
            if 0 <= i < mobs@.len() {
                if i < lo {
                    assert(mobs@[i].id < id);
                } else {
                    assert(mobs@[i].id > id);
                }
            }
        }
        assert(!has_id(mobs@, id)) by {
            if has_id(mobs@, id) {
                let i = choose|i: int| 0 <= i < mobs@.len() && (#[trigger] mobs@[i]).id == id;
                assert(is_index_of(mobs@, id, i));
            }
        }
    }
    None
}

/// Gives every projectile, in order, its turn of `delta` nanoseconds. Returns
/// the projectiles still in flight and the enemies as the hits left them.
pub fn resolve(shots: &Vec<Projectile>, mobs: Vec<Mob>, delta: u64) -> (r: (
    Vec<Projectile>,
    Vec<Mob>,
))
    requires
        ordered(mobs@),
        shots_in_world(shots@),
    ensures
        r.0@ == in_flight(shots@, mobs@, delta),
        r.1@ == battered(shots@, mobs@, delta),
{
    let ghost start = mobs@;
    let mut mobs = mobs;
    let mut kept: Vec<Projectile> = Vec::new();
    let mut i: usize = 0;
    while i < shots.len()
        invariant
            i <= shots.len(),
            shots_in_world(shots@),
            ordered(mobs@),
            kept@ == in_flight(shots@.take(i as int), start, delta),
            mobs@ == battered(shots@.take(i as int), start, delta),
        decreases shots.len() - i,
    {
        let p = shots[i];
        proof {
            assert(shots@.take(i + 1).drop_last() == shots@.take(i as int));
            assert(shots@.take(i + 1).last() == p);
        }
        let ghost met = mobs@;
        match find_mob(&mobs, p.target) {
            None => {},
            Some(t) => {
                let target = mobs[t];
                if target.health.current > 0 {
                    let step = step_length(p.speed, delta);
                    let (position, arrived) = p.position.advance(&target.position, step);
                    if arrived {
                        let hurt = Mob {
                            id: target.id,
                            position: target.position,
                            enemy: target.enemy,
                            health: target.health.damage(p.damage),
                            follower: target.follower,
                        };
                        mobs.set(t, hurt);
                        proof {
                            lemma_struck_ordered(p, met, delta);
                        }
                    } else {
                        kept.push(
                            Projectile {
                                position,
                                target: p.target,
                                damage: p.damage,
                                speed: p.speed,
                            },
                        );
                    }
                }
            },
        }
        i += 1;
    }
    assert(shots@.take(shots@.len() as int) == shots@);
    (kept, mobs)
}

/// A projectile's turn leaves the enemies in order, each with the handle,
/// the place and the position it had.
pub proof fn lemma_struck_ordered(p: Projectile, mobs: Seq<Mob>, delta: u64)
    requires
        ordered(mobs),
    ensures
        ordered(p.struck(mobs, delta)),
        p.struck(mobs, delta).len() == mobs.len(),
        forall|i: int|
            0 <= i < mobs.len() ==> (#[trigger] p.struck(mobs, delta)[i]).id == mobs[i].id
                && p.struck(mobs, delta)[i].position == mobs[i].position
                && p.struck(mobs, delta)[i].enemy == mobs[i].enemy
                && p.struck(mobs, delta)[i].follower == mobs[i].follower,
{
    let after = p.struck(mobs, delta);
    assert forall|i: int, j: int| 0 <= i < j < after.len() implies (#[trigger] after[i]).id < (
    #[trigger] after[j]).id by {
        assert(mobs[i].id < mobs[j].id);
    }
    assert forall|i: int| 0 <= i < after.len() implies (
    #[trigger] after[i]).position.in_world() by {
        assert(mobs[i].position.in_world());
    }
}

/// The projectiles' turns leave the enemies in order, each with the handle,
/// the place and the position it had, and the projectiles inside the world.
pub proof fn lemma_battered_ordered(shots: Seq<Projectile>, mobs: Seq<Mob>, delta: u64)
    requires
        ordered(mobs),
        shots_in_world(shots),
    ensures
        ordered(battered(shots, mobs, delta)),
        battered(shots, mobs, delta).len() == mobs.len(),
        forall|i: int|
            0 <= i < mobs.len() ==> (#[trigger] battered(shots, mobs, delta)[i]).id == mobs[i].id
                && battered(shots, mobs, delta)[i].position == mobs[i].position
                && battered(shots, mobs, delta)[i].enemy == mobs[i].enemy
                && battered(shots, mobs, delta)[i].follower == mobs[i].follower,
        shots_in_world(in_flight(shots, mobs, delta)),
    decreases shots.len(),
{
    if shots.len() > 0 {
        let before = shots.drop_last();
        let p = shots.last();
        lemma_battered_ordered(before, mobs, delta);
        let met = battered(before, mobs, delta);
        lemma_struck_ordered(p, met, delta);
        let flying = in_flight(shots, mobs, delta);
        match p.flown(met, delta) {
            Some(q) => {
                let i = p.quarry(met).unwrap();
                assert(is_index_of(met, p.target, i));
                lemma_stepped_in_world(p.position, met[i].position, travel(p.speed, delta));
                assert forall|k: int| 0 <= k < flying.len() implies (
                #[trigger] flying[k]).position.in_world() by {
                    if k < flying.len() - 1 {
                        assert(flying[k] == in_flight(before, mobs, delta)[k]);
                    }
                }
            },
            None => {},
        }
    }
}

/// Damage is final on death: an enemy without health comes out of a
/// projectile's turn exactly as it went in.
pub proof fn lemma_dead_untouched(p: Projectile, mobs: Seq<Mob>, delta: u64, i: int)
    requires
        ordered(mobs),
        0 <= i < mobs.len(),
        mobs[i].is_dead(),
    ensures
        p.struck(mobs, delta)[i] == mobs[i],
{
    match p.quarry(mobs) {
        Some(t) => {
            assert(!mobs[t].is_dead());
        },
        None => {},
    }
}

/// Damage is final on death: once an enemy has no health left, no projectile
/// with a later turn changes it, however many fly at it.
pub proof fn lemma_no_damage_after_death(
    earlier: Seq<Projectile>,
    later: Seq<Projectile>,
    mobs: Seq<Mob>,
    delta: u64,
    i: int,
)
    requires
        ordered(mobs),
        shots_in_world(earlier + later),
        0 <= i < mobs.len(),
        battered(earlier, mobs, delta)[i].is_dead(),
    ensures
        battered(earlier + later, mobs, delta)[i] == battered(earlier, mobs, delta)[i],
    decreases later.len(),
{
    if later.len() == 0 {
        assert(earlier + later == earlier);
    } else {
        let all = earlier + later;
        let shorter = later.drop_last();
        assert(all.drop_last() == earlier + shorter);
        assert(all.last() == later.last());
        assert(shots_in_world(earlier + shorter)) by {
            assert forall|k: int| 0 <= k < (earlier + shorter).len() implies (#[trigger] (earlier
                + shorter)[k]).position.in_world() by {
                assert((earlier + shorter)[k] == all[k]);
            }
        }
        lemma_no_damage_after_death(earlier, shorter, mobs, delta, i);
        lemma_battered_ordered(earlier + shorter, mobs, delta);
        lemma_dead_untouched(later.last(), battered(earlier + shorter, mobs, delta), delta, i);
    }
}

} // verus!
