//! The stress test: the same mechanics as normal play under heavy, looping
//! load. Enemies spawn in bursts, start over when they have walked the whole
//! route, and leave play only when they die.

use crate::enemy::{
    cycle, cycled, has_id, lemma_cycled_valid, lemma_filter_valid, reap, survivors, Mob,
};
use crate::geometry::Point;
use crate::grid::{tile_type_at, type_at, Cell, Level, TileType, GRID_SIZE};
use crate::session::{descends, Mode, Session, SessionView, SimState};
use crate::timer::ticked_completions;
use crate::tower::{towers_in_world, Tower, TowerType};
use vstd::prelude::*;

verus! {

/// Length of a stress test, in nanoseconds: five minutes.
pub const SESSION_LENGTH: u64 = 300_000_000_000;

/// Enemies spawned for each period of the burst timer that has elapsed.
pub const BURST_SIZE: u64 = 10;

/// The tile class belongs to the route.
pub open spec fn on_route(t: TileType) -> bool {
    t == TileType::Road || t == TileType::Start || t == TileType::End
}

/// The cell's neighbour `(x + dx, y + dy)` is in the grid and on the route.
pub open spec fn route_at(level: Level, x: int, y: int) -> bool {
    &&& 0 <= x < GRID_SIZE
    &&& 0 <= y < GRID_SIZE
    &&& on_route(type_at(level, Cell { x: x as usize, y: y as usize }))
}

/// One of the four cells that share an edge with `(x, y)` is on the route.
pub open spec fn beside_route(level: Level, x: usize, y: usize) -> bool {
    ||| route_at(level, x as int, y - 1)
    ||| route_at(level, x as int, y + 1)
    ||| route_at(level, x - 1, y as int)
    ||| route_at(level, x + 1, y as int)
}

/// The kind of tower that a stress test builds on a cell: a canon next to
/// the route, an archer elsewhere.
pub open spec fn sim_tower_type(level: Level, x: usize, y: usize) -> TowerType {
    if beside_route(level, x, y) {
        TowerType::Canon
    } else {
        TowerType::Archer
    }
}

/// Tells whether a cell is in the grid and on the route.
fn is_route(level: &Level, x: usize, y: usize) -> (r: bool)
    ensures
        r == route_at(*level, x as int, y as int),
{
    if x < GRID_SIZE && y < GRID_SIZE {
        let t = tile_type_at(level, Cell { x, y });
        t == TileType::Road || t == TileType::Start || t == TileType::End
    } else {
        false
    }
}

/// The kind of tower that a stress test builds on the cell `(x, y)`.
pub fn determine_sim_tower_type(x: usize, y: usize, level: &Level) -> (t: TowerType)
    ensures
        t == sim_tower_type(*level, x, y),
{
    let up = y > 0 && is_route(level, x, y - 1);
    let down = y < usize::MAX && is_route(level, x, y + 1);
    let left = x > 0 && is_route(level, x - 1, y);
    let right = x < usize::MAX && is_route(level, x + 1, y);
    if up || down || left || right {
        TowerType::Canon
    } else {
        TowerType::Archer
    }
}

/// The cell at a place of the row-major order.
pub open spec fn cell_number(i: int) -> Cell {
    Cell { x: (i % 20) as usize, y: (i / 20) as usize }
}

/// The towers that a stress test builds on the first `n` cells, in row-major
/// order: one upgraded tower at the centre of every cell of open ground.
pub open spec fn sim_towers_upto(level: Level, n: nat) -> Seq<Tower>
    decreases n,
{
    if n == 0 {
        Seq::empty()
    } else {
        let c = cell_number(n - 1);
        let before = sim_towers_upto(level, (n - 1) as nat);
        if type_at(level, c) == TileType::Grass {
            before.push(Tower::built(c.world(), sim_tower_type(level, c.x, c.y).sim_stats()))
        } else {
            before
        }
    }
}

/// The towers that a stress test builds on a level.
pub open spec fn sim_towers(level: Level) -> Seq<Tower> {
    sim_towers_upto(level, 400)
}

/// The enemies of one burst: `count` fresh enemies at `at`, with the handles
/// from `first_id` on.
pub open spec fn burst(first_id: u64, count: nat, at: Point) -> Seq<Mob> {
    Seq::new(count, |k: int| Mob::fresh((first_id + k) as u64, at))
}

impl SessionView {
    /// The session with its stress test begun, if it had not yet.
    pub open spec fn started(self) -> SessionView {
        SessionView {
            sim: SimState {
                start_time: Some(
                    match self.sim.start_time {
                        Some(t) => t,
                        None => self.clock,
                    },
                ),
                ..self.sim
            },
            ..self
        }
    }

    /// How many enemies a stress test spawns in a tick of `delta`
    /// nanoseconds: [`BURST_SIZE`] for every period of the burst timer that
    /// elapsed, as far as handles are left.
    pub open spec fn burst_size(self, delta: u64) -> nat {
        let periods = ticked_completions(
            self.sim.spawn_timer.period,
            self.sim.spawn_timer.elapsed,
            delta,
        );
        if periods * BURST_SIZE <= u64::MAX - self.next_id {
            (periods * BURST_SIZE) as nat
        } else {
            (u64::MAX - self.next_id) as nat
        }
    }

    /// The spawning pass of a stress test.
    ///
    /// The test begins at its first tick. Once it is finished, or where the
    /// session has no route, nothing is spawned. A test that has run its
    /// length is marked finished. Otherwise the burst timer advances and a
    /// burst of fresh enemies appears at the first waypoint.
    pub open spec fn sim_spawned(self, delta: u64) -> SessionView {
        let s = self.started();
        if s.sim.finished || s.path.len() == 0 {
            s
        } else if s.sim.elapsed_at(s.clock) >= SESSION_LENGTH {
            SessionView { sim: SimState { finished: true, ..s.sim }, ..s }
        } else {
            let count = s.burst_size(delta);
            SessionView {
                sim: SimState {
                    spawn_timer: s.sim.spawn_timer.ticked(delta),
                    total_spawned: if s.sim.total_spawned + count <= u32::MAX {
                        (s.sim.total_spawned + count) as u32
                    } else {
                        u32::MAX
                    },
                    ..s.sim
                },
                enemies: s.enemies + burst(s.next_id, count, s.path[0]),
                next_id: (s.next_id + count) as u64,
                ..s
            }
        }
    }

    /// The movement pass of a stress test: every enemy walks on, and one that
    /// had walked the whole route starts over. No enemy leaves play and no
    /// life is lost.
    pub open spec fn cycled(self, delta: u64) -> SessionView {
        SessionView { enemies: cycled(self.enemies, self.path, delta), ..self }
    }

    /// The clean-up pass of a stress test: enemies without health leave play.
    /// Nothing is paid for them.
    pub open spec fn swept(self) -> SessionView {
        SessionView { enemies: survivors(self.enemies), ..self }
    }
}

/// Builds the towers of a stress test.
pub fn build_sim_towers(level: &Level) -> (towers: Vec<Tower>)
    ensures
        towers@ == sim_towers(*level),
        towers_in_world(towers@),
{
    let mut towers: Vec<Tower> = Vec::new();
    let mut i: usize = 0;
    while i < 400
        invariant
            i <= 400,
            towers@ == sim_towers_upto(*level, i as nat),
            towers_in_world(towers@),
        decreases 400 - i,
    {
        let c = Cell { x: i % 20, y: i / 20 };
        assert(c == cell_number(i as int));
        if tile_type_at(level, c) == TileType::Grass {
            let kind = determine_sim_tower_type(c.x, c.y, level);
            towers.push(Tower::new(c.to_world(), kind.get_sim_stats()));
        }
        i += 1;
    }
    towers
}

/// Starts a stress test on a level: derives the route and builds a tower on
/// every cell of open ground.
pub fn setup_simulation(level: Level) -> (s: Session)
    ensures
        s.wf(),
        s@ == (SessionView {
            towers: sim_towers(level),
            ..SessionView::fresh(level, Mode::Stress)
        }),
{
    let mut session = Session::new(level, Mode::Stress);
    session.towers = build_sim_towers(&level);
    session
}

/// The spawning pass of a stress test.
pub fn simulation_logic(session: &mut Session, delta: u64)
    requires
        old(session).wf(),
    ensures
        final(session).wf(),
        final(session)@ == old(session)@.sim_spawned(delta),
{
    if session.sim.start_time.is_none() {
        session.sim.start_time = Some(session.clock);
    }
    if session.sim.finished || session.path.points.len() == 0 {
        return;
    }
    if session.sim.elapsed(session.clock) >= SESSION_LENGTH {
        session.sim.finished = true;
        return;
    }
    let ghost before = session@;
    let periods = session.sim.spawn_timer.tick(delta);
    let wanted: u64 = (periods as u64) * BURST_SIZE;
    let room: u64 = u64::MAX - session.next_id;
    let count: u64 = if wanted <= room {
        wanted
    } else {
        room
    };
    let at = session.path.points[0];
    let first = session.next_id;
    let mut k: u64 = 0;
    while k < count
        invariant
            k <= count,
            first + count <= u64::MAX,
            at.in_world(),
            session.next_id == first + k,
            session.enemies@ == before.enemies + burst(first, k as nat, at),
            crate::enemy::valid_mobs(session.enemies@, session.next_id as int),
            session@ == (SessionView {
                enemies: session.enemies@,
                next_id: session.next_id,
                sim: SimState {
                    spawn_timer: before.sim.spawn_timer.ticked(delta),
                    ..before.sim
                },
                ..before
            }),
        decreases count - k,
    {
        session.enemies.push(Mob::new(session.next_id, at));
        session.next_id = session.next_id + 1;
        k += 1;
        assert(session.enemies@ =~= before.enemies + burst(first, k as nat, at));
    }
    let total: u64 = session.sim.total_spawned as u64;
    session.sim.total_spawned = if count <= (u32::MAX as u64) - total {
        (total + count) as u32
    } else {
        u32::MAX
    };
}

/// The movement pass of a stress test.
pub fn move_sim_enemies_loop(session: &mut Session, delta: u64)
    requires
        old(session).wf(),
    ensures
        final(session).wf(),
        final(session)@ == old(session)@.cycled(delta),
{
    let out = cycle(&session.enemies, &session.path.points, delta);
    proof {
        lemma_cycled_valid(session@.enemies, session@.path, delta, session@.next_id as int);
    }
    session.enemies = out;
}

/// The clean-up pass of a stress test.
pub fn cleanup_dead_sim_enemies(session: &mut Session)
    requires
        old(session).wf(),
    ensures
        final(session).wf(),
        final(session)@ == old(session)@.swept(),
{
    let (out, _killed) = reap(&session.enemies);
    proof {
        lemma_filter_valid(session@.enemies, crate::enemy::alive(), session@.next_id as int);
    }
    session.enemies = out;
}

/// Looping: on a route, the movement pass of a stress test keeps every enemy
/// in play, each in its place and with its handle and health; an enemy that
/// had walked the whole route stands on the first waypoint afterwards and
/// heads for the second.
pub proof fn lemma_stress_mode_loops(s: SessionView, delta: u64, i: int)
    requires
        s.path.len() > 0,
        0 <= i < s.enemies.len(),
    ensures
        s.cycled(delta).enemies.len() == s.enemies.len(),
        s.cycled(delta).enemies[i].id == s.enemies[i].id,
        s.cycled(delta).enemies[i].health == s.enemies[i].health,
        s.cycled(delta).stats == s.stats,
        s.enemies[i].at_end(s.path) ==> s.cycled(delta).enemies[i].follower.path_index == 1
            && s.cycled(delta).enemies[i].position == s.path[0],
{
}

/// A burst is made of fresh enemies with the handles from `first_id` on.
pub proof fn lemma_burst_valid(mobs: Seq<Mob>, first_id: u64, count: nat, at: Point)
    requires
        crate::enemy::valid_mobs(mobs, first_id as int),
        first_id + count <= u64::MAX,
        at.in_world(),
    ensures
        crate::enemy::valid_mobs(mobs + burst(first_id, count, at), first_id + count),
        forall|id: u64| #[trigger]
            has_id(mobs + burst(first_id, count, at), id) ==> has_id(mobs, id) || first_id <= id
                < first_id + count,
{
    let more = mobs + burst(first_id, count, at);
    assert forall|i: int| 0 <= i < more.len() implies (#[trigger] more[i]).position.in_world()
        && more[i].id < first_id + count && (i >= mobs.len() ==> more[i].id == first_id + (i
        - mobs.len())) by {
        if i < mobs.len() {
            assert(more[i] == mobs[i]);
        } else {
            assert(more[i] == burst(first_id, count, at)[i - mobs.len()]);
        }
    }
    assert forall|i: int, j: int| 0 <= i < j < more.len() implies (#[trigger] more[i]).id < (
    #[trigger] more[j]).id by {
        if j < mobs.len() {
            assert(more[i] == mobs[i] && more[j] == mobs[j]);
        } else if i < mobs.len() {
            assert(more[i] == mobs[i]);
        }
    }
    assert forall|id: u64| #[trigger] has_id(more, id) implies has_id(mobs, id) || first_id <= id
        < first_id + count by {
        let i = choose|i: int| 0 <= i < more.len() && (#[trigger] more[i]).id == id;
        if i < mobs.len() {
            assert(mobs[i].id == id);
        }
    }
}

/// The spawning pass of a stress test keeps a session well-formed.
pub proof fn lemma_sim_spawned_wf(s: SessionView, delta: u64)
    requires
        s.wf(),
    ensures
        s.sim_spawned(delta).wf(),
        descends(s.sim_spawned(delta), s),
        s.sim_spawned(delta).stats == s.stats,
{
    let t = s.started();
    if !(t.sim.finished || t.path.len() == 0) && t.sim.elapsed_at(t.clock) < SESSION_LENGTH {
        lemma_burst_valid(t.enemies, t.next_id, t.burst_size(delta), t.path[0]);
    }
}

/// The movement pass of a stress test keeps a session well-formed.
pub proof fn lemma_cycled_wf(s: SessionView, delta: u64)
    requires
        s.wf(),
    ensures
        s.cycled(delta).wf(),
        descends(s.cycled(delta), s),
        s.cycled(delta).stats == s.stats,
{
    lemma_cycled_valid(s.enemies, s.path, delta, s.next_id as int);
    let out = s.cycled(delta).enemies;
    assert forall|id: u64| #[trigger] has_id(out, id) implies has_id(s.enemies, id) by {
        if s.path.len() > 0 {
            assert forall|i: int| 0 <= i < out.len() implies (#[trigger] out[i]).id
                == s.enemies[i].id by {
                if !s.enemies[i].at_end(s.path) {
                    crate::enemy::lemma_walked_in_world(s.enemies[i], s.path, delta);
                }
            }
            crate::enemy::lemma_has_id_same(out, s.enemies, id);
        }
    }
}

/// The clean-up pass of a stress test keeps a session well-formed.
pub proof fn lemma_swept_wf(s: SessionView)
    requires
        s.wf(),
    ensures
        s.swept().wf(),
        descends(s.swept(), s),
        s.swept().stats == s.stats,
        forall|i: int|
            0 <= i < s.swept().enemies.len() ==> !(#[trigger] s.swept().enemies[i]).is_dead(),
{
    lemma_filter_valid(s.enemies, crate::enemy::alive(), s.next_id as int);
    crate::enemy::lemma_survivors_alive(s.enemies, s.next_id as int);
    let out = s.swept().enemies;
    assert forall|id: u64| #[trigger] has_id(out, id) implies has_id(s.enemies, id) by {
        let i = choose|i: int| 0 <= i < out.len() && (#[trigger] out[i]).id == id;
        assert(has_id(s.enemies, out[i].id));
    }
}

} // verus!
