use tower_defense::enemy::{Enemy, Health, Mob, PathFollower};
use tower_defense::game::tick;
use tower_defense::geometry::Point;
use tower_defense::grid::{Cell, Level};
use tower_defense::session::{Mode, PlayerStats, Session, SessionPhase};
use tower_defense::simulation::{
    build_sim_towers, cleanup_dead_sim_enemies, determine_sim_tower_type, move_sim_enemies_loop,
    setup_simulation, simulation_logic, BURST_SIZE, SESSION_LENGTH,
};
use tower_defense::tower::{Tower, TowerType};

const UNIT: i64 = 1_000_000_000;
const TILE: i64 = 32 * UNIT;
const SECOND: u64 = 1_000_000_000;
const SIXTIETH: u64 = 16_666_667;

fn water() -> Level {
    [[1u32; 20]; 20]
}

/// Start at (0,0), road on (1,0) to (3,0), end at (4,0); nothing to build on.
fn straight() -> Level {
    let mut level = water();
    level[0][0] = 20;
    level[0][1] = 2;
    level[0][2] = 2;
    level[0][3] = 2;
    level[0][4] = 21;
    level
}

fn waypoint(i: i64) -> Point {
    Point { x: -304 * UNIT + i * TILE, y: 354 * UNIT }
}

fn walker(session: &mut Session, position: Point, index: usize) -> u64 {
    session
        .add_enemy(
            position,
            Enemy { speed: 50 },
            Health { current: 85, max: 85 },
            PathFollower { path_index: index },
        )
        .unwrap()
}

fn find(session: &Session, id: u64) -> Option<Mob> {
    session.enemies().iter().copied().find(|m| m.id == id)
}

#[test]
fn stress_test_constants() {
    assert_eq!(SESSION_LENGTH, 300 * SECOND);
    assert_eq!(BURST_SIZE, 10);
}

#[test]
fn tower_kind_goes_by_the_neighbours() {
    let mut level = water();
    level[5][5] = 2;
    assert_eq!(determine_sim_tower_type(5, 4, &level), TowerType::Canon);
    assert_eq!(determine_sim_tower_type(5, 6, &level), TowerType::Canon);
    assert_eq!(determine_sim_tower_type(4, 5, &level), TowerType::Canon);
    assert_eq!(determine_sim_tower_type(6, 5, &level), TowerType::Canon);
    assert_eq!(determine_sim_tower_type(4, 4, &level), TowerType::Archer);
    assert_eq!(determine_sim_tower_type(5, 3, &level), TowerType::Archer);
    // The cell itself does not count.
    assert_eq!(determine_sim_tower_type(5, 5, &level), TowerType::Archer);
    level[5][5] = 20;
    assert_eq!(determine_sim_tower_type(5, 4, &level), TowerType::Canon);
    level[5][5] = 21;
    assert_eq!(determine_sim_tower_type(5, 4, &level), TowerType::Canon);
    level[5][5] = 0;
    assert_eq!(determine_sim_tower_type(5, 4, &level), TowerType::Archer);
}

#[test]
fn tower_kind_at_and_beyond_the_edges() {
    let mut level = water();
    level[0][0] = 2;
    level[19][19] = 2;
    assert_eq!(determine_sim_tower_type(1, 0, &level), TowerType::Canon);
    assert_eq!(determine_sim_tower_type(0, 1, &level), TowerType::Canon);
    assert_eq!(determine_sim_tower_type(18, 19, &level), TowerType::Canon);
    assert_eq!(determine_sim_tower_type(19, 18, &level), TowerType::Canon);
    assert_eq!(determine_sim_tower_type(20, 19, &level), TowerType::Canon);
    assert_eq!(determine_sim_tower_type(19, 20, &level), TowerType::Canon);
    assert_eq!(determine_sim_tower_type(21, 19, &level), TowerType::Archer);
    assert_eq!(determine_sim_tower_type(usize::MAX, usize::MAX, &level), TowerType::Archer);
    assert_eq!(determine_sim_tower_type(0, usize::MAX, &level), TowerType::Archer);
}

#[test]
fn stress_test_builds_a_tower_on_every_open_cell() {
    let mut level = straight();
    level[1][0] = 0;
    level[1][7] = 0;
    level[9][9] = 0;
    let towers = build_sim_towers(&level);
    assert_eq!(
        towers,
        vec![
            Tower::new(Cell { x: 0, y: 1 }.to_world(), (95, 25, 1_500_000_000)),
            Tower::new(Cell { x: 7, y: 1 }.to_world(), (160, 9, 416_000_000)),
            Tower::new(Cell { x: 9, y: 9 }.to_world(), (160, 9, 416_000_000)),
        ]
    );
    let s = setup_simulation(level);
    assert_eq!(s.mode(), Mode::Stress);
    assert_eq!(s.towers(), &towers);
    assert_eq!(s.path().points.len(), 5);
    assert!(s.enemies().is_empty());
    assert_eq!(s.sim_state().phase(), SessionPhase::NotStarted);
    assert!(build_sim_towers(&water()).is_empty());
    assert_eq!(build_sim_towers(&[[0u32; 20]; 20]).len(), 400);
}

#[test]
fn burst_of_ten_for_every_period() {
    let mut s = setup_simulation(straight());
    tick(&mut s, SIXTIETH);
    assert_eq!(s.sim_state().phase(), SessionPhase::Running);
    assert_eq!(s.total_spawned(), 10);
    assert_eq!(s.active_count(), 10);
    for (i, m) in s.enemies().iter().enumerate() {
        assert_eq!(m.id, i as u64);
        assert_eq!(m.health, Health { current: 85, max: 85 });
        assert_eq!(m.enemy.speed, 50);
        assert_eq!(m.follower.path_index, 1);
        // Walked for a sixtieth of a second already.
        assert_eq!(m.position, Point { x: waypoint(0).x + 833_333_350, y: waypoint(0).y });
    }
    // A slow frame of 50 ms spans two periods, with most of a third left
    // over: twenty enemies now and ten more with the next short tick.
    tick(&mut s, 50_000_000);
    assert_eq!(s.total_spawned(), 30);
    assert_eq!(s.active_count(), 30);
    tick(&mut s, 1);
    assert_eq!(s.total_spawned(), 40);
    tick(&mut s, 1);
    assert_eq!(s.total_spawned(), 40);
    assert_eq!(s.stats(), PlayerStats { money: 300, lives: 3 });
}

#[test]
fn short_ticks_spawn_nothing_until_a_period_is_full() {
    let mut s = setup_simulation(straight());
    simulation_logic(&mut s, SIXTIETH - 1);
    assert_eq!(s.total_spawned(), 0);
    assert_eq!(s.sim_state().phase(), SessionPhase::Running);
    simulation_logic(&mut s, 1);
    assert_eq!(s.total_spawned(), 10);
    assert_eq!(s.enemies()[9], Mob::new(9, waypoint(0)));
}

#[test]
fn stress_test_ends_after_five_minutes() {
    let mut s = setup_simulation(straight());
    // The test begins with its first tick.
    tick(&mut s, 7 * SECOND);
    assert_eq!(s.clock(), 7 * SECOND);
    assert_eq!(s.elapsed_session_time(), 0);
    assert_eq!(s.sim_state().start_time, Some(7 * SECOND));
    let spawned = s.total_spawned();
    assert_eq!(spawned, 4190);
    tick(&mut s, 299 * SECOND);
    assert_eq!(s.elapsed_session_time(), 299 * SECOND);
    assert_eq!(s.elapsed_minutes_seconds(), (4, 59));
    assert_eq!(s.sim_state().phase(), SessionPhase::Running);
    let spawned = s.total_spawned();
    tick(&mut s, SECOND);
    assert_eq!(s.elapsed_session_time(), 300 * SECOND);
    assert_eq!(s.sim_state().phase(), SessionPhase::Finished);
    assert_eq!(s.total_spawned(), spawned);
    // Finished for good: nothing is spawned any more, the clock runs on.
    tick(&mut s, 10 * SECOND);
    assert_eq!(s.sim_state().phase(), SessionPhase::Finished);
    assert_eq!(s.total_spawned(), spawned);
    assert_eq!(s.elapsed_session_time(), 310 * SECOND);
    assert_eq!(s.elapsed_minutes_seconds(), (5, 10));
    tick(&mut s, 999_999_999);
    assert_eq!(s.elapsed_minutes_seconds(), (5, 10));
    tick(&mut s, 1);
    assert_eq!(s.elapsed_minutes_seconds(), (5, 11));
}

#[test]
fn enemies_go_on_after_the_stress_test_has_ended() {
    let mut s = setup_simulation(straight());
    tick(&mut s, 0);
    let id = walker(&mut s, waypoint(0), 1);
    tick(&mut s, 300 * SECOND);
    assert_eq!(s.sim_state().phase(), SessionPhase::Finished);
    assert_eq!(s.active_count(), 1);
    // In that long tick it walked its first tile.
    assert_eq!(find(&s, id).unwrap().position, waypoint(1));
    tick(&mut s, 640_000_000);
    assert_eq!(find(&s, id).unwrap().position, waypoint(2));
}

#[test]
fn paused_time_counts_toward_the_length_of_the_test() {
    let mut s = setup_simulation(straight());
    tick(&mut s, 0);
    s.set_paused(true);
    tick(&mut s, 300 * SECOND);
    assert_eq!(s.sim_state().phase(), SessionPhase::Running);
    assert_eq!(s.elapsed_session_time(), 300 * SECOND);
    s.set_paused(false);
    tick(&mut s, SIXTIETH);
    assert_eq!(s.sim_state().phase(), SessionPhase::Finished);
    assert_eq!(s.total_spawned(), 0);
}

#[test]
fn enemy_at_the_end_starts_over() {
    let mut s = setup_simulation(straight());
    let id = walker(&mut s, waypoint(0), 1);
    for tile in 1..=4 {
        move_sim_enemies_loop(&mut s, 640_000_000);
        let m = find(&s, id).unwrap();
        assert_eq!(m.position, waypoint(tile));
        assert_eq!(m.follower.path_index, tile as usize + 1);
    }
    // On the end tile after 2.56 s. The next pass puts it back to the start
    // instead of taking it out of play.
    move_sim_enemies_loop(&mut s, 640_000_000);
    let m = find(&s, id).unwrap();
    assert_eq!(m.position, waypoint(0));
    assert_eq!(m.follower.path_index, 1);
    assert_eq!(m.health, Health { current: 85, max: 85 });
    assert_eq!(s.stats(), PlayerStats { money: 300, lives: 3 });
    // And round again.
    move_sim_enemies_loop(&mut s, 640_000_000);
    assert_eq!(find(&s, id).unwrap().position, waypoint(1));
}

#[test]
fn looping_holds_through_whole_ticks() {
    let mut s = setup_simulation(straight());
    tick(&mut s, 0);
    tick(&mut s, 300 * SECOND);
    assert_eq!(s.sim_state().phase(), SessionPhase::Finished);
    assert!(s.enemies().is_empty());
    let id = walker(&mut s, waypoint(0), 1);
    for _ in 0..50 {
        tick(&mut s, 640_000_000);
        assert!(find(&s, id).is_some());
    }
    // Fifty passes are ten rounds of five.
    assert_eq!(find(&s, id).unwrap().position, waypoint(0));
    assert_eq!(s.stats(), PlayerStats { money: 300, lives: 3 });
}

#[test]
fn dead_enemies_leave_without_reward() {
    let mut s = setup_simulation(straight());
    let a = walker(&mut s, waypoint(0), 1);
    let b = s
        .add_enemy(
            waypoint(1),
            Enemy { speed: 50 },
            Health { current: 0, max: 85 },
            PathFollower { path_index: 2 },
        )
        .unwrap();
    cleanup_dead_sim_enemies(&mut s);
    assert!(find(&s, a).is_some());
    assert_eq!(find(&s, b), None);
    assert_eq!(s.stats(), PlayerStats { money: 300, lives: 3 });
}

#[test]
fn stress_towers_shoot_the_looping_enemies() {
    let mut level = straight();
    level[1][2] = 0;
    let mut s = setup_simulation(level);
    assert_eq!(s.towers().len(), 1);
    assert_eq!(s.towers()[0].damage, 25);
    // One burst, then the test is over and the ten walk their rounds past
    // the canon, which fires every second and a half. All ten walk as one,
    // so the canon always aims at the lowest handle left.
    tick(&mut s, SIXTIETH);
    assert_eq!(s.active_count(), 10);
    s.set_paused(true);
    tick(&mut s, 300 * SECOND);
    s.set_paused(false);
    let mut ticks = 0;
    while s.active_count() == 10 {
        tick(&mut s, 100_000_000);
        ticks += 1;
        assert!(ticks < 100);
    }
    assert_eq!(s.enemies().iter().map(|m| m.id).collect::<Vec<_>>(), (1..10).collect::<Vec<_>>());
    assert_eq!(s.stats(), PlayerStats { money: 300, lives: 3 });
    assert_eq!(s.total_spawned(), 10);
}
