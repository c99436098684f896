use tower_defense::enemy::{Enemy, Health, Mob, PathFollower};
use tower_defense::geometry::Point;
use tower_defense::projectile::{Projectile, PROJECTILE_SPEED};
use tower_defense::timer::Cooldown;
use tower_defense::tower::{fire, Tower, TowerType};

const UNIT: i64 = 1_000_000_000;

fn mob(id: u64, x: i64, y: i64) -> Mob {
    Mob {
        id,
        position: Point { x: x * UNIT, y: y * UNIT },
        enemy: Enemy { speed: 0 },
        health: Health { current: 85, max: 85 },
        follower: PathFollower { path_index: 1 },
    }
}

fn canon() -> Tower {
    Tower::new(Point { x: 0, y: 0 }, TowerType::Canon.get_base_stats())
}

/// A canon that has just fired.
fn fired_canon() -> Tower {
    let (after, shot) = canon().step(&vec![mob(0, 1, 0)], 0);
    assert!(shot.is_some());
    after
}

#[test]
fn tower_kinds() {
    assert_eq!(TowerType::Canon.get_base_stats(), (75, 15, 2_000_000_000));
    assert_eq!(TowerType::Archer.get_base_stats(), (120, 5, 583_000_000));
    assert_eq!(TowerType::Wizard.get_base_stats(), (100, 1, 833_000_000));
    assert_eq!(TowerType::Canon.get_sim_stats(), (95, 25, 1_500_000_000));
    assert_eq!(TowerType::Archer.get_sim_stats(), (160, 9, 416_000_000));
    assert_eq!(TowerType::Wizard.get_sim_stats(), (130, 3, 500_000_000));
    assert_eq!(TowerType::Canon.get_cost(), 65);
    assert_eq!(TowerType::Archer.get_cost(), 35);
    assert_eq!(TowerType::Wizard.get_cost(), 50);
    assert_eq!(TowerType::Canon.get_sprite_index(), 14);
    assert_eq!(TowerType::Archer.get_sprite_index(), 15);
    assert_eq!(TowerType::Wizard.get_sprite_index(), 16);
    assert_eq!(PROJECTILE_SPEED, 300);
}

#[test]
fn new_tower_is_ready() {
    let t = canon();
    assert_eq!(
        t,
        Tower {
            position: Point { x: 0, y: 0 },
            range: 75,
            damage: 15,
            cooldown: Cooldown { period: 2_000_000_000, elapsed: 0 },
            ready: true,
        }
    );
}

#[test]
fn new_tower_fires_at_once() {
    // In a first tick of no length at all.
    let (after, shot) = canon().step(&vec![mob(7, 50, 0)], 0);
    assert_eq!(
        shot,
        Some(Projectile { position: Point { x: 0, y: 0 }, target: 7, damage: 15, speed: 300 })
    );
    assert!(!after.ready);
    assert_eq!(after.cooldown, Cooldown { period: 2_000_000_000, elapsed: 0 });
    // Out of range it keeps waiting, ready.
    let (waiting, shot) = canon().step(&vec![mob(7, 76, 0)], 0);
    assert_eq!(shot, None);
    assert!(waiting.ready);
}

#[test]
fn range_is_squared_in_sub_units() {
    assert_eq!(canon().range_squared(), 5_625_000_000_000_000_000_000);
    let mut t = canon();
    t.range = 0;
    assert_eq!(t.range_squared(), 0);
    t.range = u32::MAX;
    assert_eq!(
        t.range_squared(),
        (u32::MAX as u128 * 1_000_000_000) * (u32::MAX as u128 * 1_000_000_000)
    );
}

#[test]
fn target_is_the_nearest_within_range() {
    let t = canon();
    let mobs = vec![mob(1, 60, 0), mob(2, 0, -50), mob(3, 30, 40), mob(4, 100, 0)];
    assert_eq!(t.select_target(&mobs), Some(1));
    assert_eq!(t.select_target(&vec![mob(4, 100, 0), mob(5, 0, 76)]), None);
    assert_eq!(t.select_target(&Vec::new()), None);
}

#[test]
fn range_includes_its_edge() {
    let t = canon();
    assert_eq!(t.select_target(&vec![mob(1, 75, 0)]), Some(0));
    let mut just_outside = mob(1, 75, 0);
    just_outside.position.x += 1;
    assert_eq!(t.select_target(&vec![just_outside]), None);
    // 45 and 60 make 75.
    assert_eq!(t.select_target(&vec![mob(1, -45, 60)]), Some(0));
}

#[test]
fn equally_near_enemies_go_by_lowest_handle() {
    let t = canon();
    let mobs = vec![mob(3, 0, 50), mob(5, 50, 0), mob(8, -30, -40), mob(9, 70, 0)];
    assert_eq!(t.select_target(&mobs), Some(0));
    let mobs = vec![mob(2, 70, 0), mob(5, 50, 0), mob(8, -30, -40)];
    assert_eq!(t.select_target(&mobs), Some(1));
}

#[test]
fn tower_does_not_fire_before_its_cooldown_completes() {
    let t = fired_canon();
    let mobs = vec![mob(1, 50, 0)];
    let (after, shot) = t.step(&mobs, 1_999_999_999);
    assert_eq!(shot, None);
    assert_eq!(after.cooldown.elapsed, 1_999_999_999);
    assert!(!after.ready);
}

#[test]
fn tower_fires_when_its_cooldown_completes() {
    let t = fired_canon();
    let mobs = vec![mob(4, 100, 0), mob(7, 50, 0)];
    let (after, shot) = t.step(&mobs, 2_300_000_000);
    assert_eq!(
        shot,
        Some(Projectile { position: Point { x: 0, y: 0 }, target: 7, damage: 15, speed: 300 })
    );
    // Firing starts the cooldown afresh: the 0.3 s beyond the period are lost.
    assert_eq!(after.cooldown, Cooldown { period: 2_000_000_000, elapsed: 0 });
    assert!(!after.ready);
    assert_eq!(after.position, t.position);
    assert_eq!(after.range, 75);
    assert_eq!(after.damage, 15);
}

#[test]
fn tower_without_target_stays_ready() {
    let t = fired_canon();
    let nobody = vec![mob(4, 100, 0)];
    let (waiting, shot) = t.step(&nobody, 2_300_000_000);
    assert_eq!(shot, None);
    assert!(waiting.ready);
    assert_eq!(waiting.cooldown.elapsed, 300_000_000);
    // It tries again on every tick, however short, until an enemy is there.
    let (still, shot) = waiting.step(&nobody, 1);
    assert_eq!(shot, None);
    assert!(still.ready);
    let (fired, shot) = still.step(&vec![mob(9, 10, 10)], 1);
    assert_eq!(shot.map(|p| p.target), Some(9));
    assert!(!fired.ready);
    assert_eq!(fired.cooldown.elapsed, 0);
}

#[test]
fn one_shot_per_cooldown_however_small_the_ticks() {
    let mobs = vec![mob(1, 50, 0)];
    let (mut t, shot) = canon().step(&mobs, 0);
    assert!(shot.is_some());
    // 1999 ticks of a millisecond: still cooling down.
    for _ in 0..1999 {
        let (next, shot) = t.step(&mobs, 1_000_000);
        assert_eq!(shot, None);
        t = next;
    }
    let (_, shot) = t.step(&mobs, 1_000_000);
    assert!(shot.is_some());
}

#[test]
fn long_tick_still_fires_once() {
    let mobs = vec![mob(1, 50, 0), mob(2, 50, 0)];
    let (after, shot) = fired_canon().step(&mobs, 10_000_000_000);
    assert_eq!(shot.map(|p| p.target), Some(1));
    assert_eq!(after.cooldown.elapsed, 0);
    assert!(!after.ready);
}

#[test]
fn fire_runs_every_tower_in_order() {
    let cooling = |position: Point, stats: (u32, i32, u64)| Tower {
        ready: false,
        ..Tower::new(position, stats)
    };
    let near = cooling(Point { x: 0, y: 0 }, (75, 15, 2_000_000_000));
    let slow = cooling(Point { x: 0, y: 0 }, (75, 9, 5_000_000_000));
    let far = Tower::new(Point { x: 500 * UNIT, y: 0 }, (75, 1, 1_000_000_000));
    let other = Tower::new(Point { x: 20 * UNIT, y: 0 }, (75, 3, 1_000_000_000));
    let mobs = vec![mob(1, 50, 0), mob(2, -10, 0)];
    let (towers, shots) = fire(&vec![near, slow, far, other], &mobs, 2_000_000_000);
    assert_eq!(
        shots,
        vec![
            Projectile { position: Point { x: 0, y: 0 }, target: 2, damage: 15, speed: 300 },
            Projectile { position: Point { x: 20 * UNIT, y: 0 }, target: 1, damage: 3, speed: 300 },
        ]
    );
    assert_eq!(towers.len(), 4);
    assert_eq!(towers[0].cooldown.elapsed, 0);
    assert!(!towers[0].ready);
    assert_eq!(towers[1].cooldown.elapsed, 2_000_000_000);
    assert!(!towers[1].ready);
    assert_eq!(towers[2].cooldown.elapsed, 0);
    assert!(towers[2].ready);
    assert_eq!(towers[3].cooldown.elapsed, 0);
    assert!(!towers[3].ready);
}
