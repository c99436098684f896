use tower_defense::enemy::{Enemy, Health, Mob, PathFollower};
use tower_defense::geometry::Point;
use tower_defense::projectile::{find_mob, resolve, Projectile};

const UNIT: i64 = 1_000_000_000;

fn mob(id: u64, x: i64, y: i64, health: i32) -> Mob {
    Mob {
        id,
        position: Point { x: x * UNIT, y: y * UNIT },
        enemy: Enemy { speed: 50 },
        health: Health { current: health, max: 85 },
        follower: PathFollower { path_index: 1 },
    }
}

fn shot(x: i64, y: i64, target: u64, damage: i32) -> Projectile {
    Projectile { position: Point { x: x * UNIT, y: y * UNIT }, target, damage, speed: 300 }
}

#[test]
fn enemies_are_found_by_handle() {
    let mobs = vec![mob(2, 0, 0, 85), mob(3, 0, 0, 85), mob(7, 0, 0, 85), mob(11, 0, 0, 85)];
    assert_eq!(find_mob(&mobs, 2), Some(0));
    assert_eq!(find_mob(&mobs, 3), Some(1));
    assert_eq!(find_mob(&mobs, 7), Some(2));
    assert_eq!(find_mob(&mobs, 11), Some(3));
    assert_eq!(find_mob(&mobs, 0), None);
    assert_eq!(find_mob(&mobs, 5), None);
    assert_eq!(find_mob(&mobs, 12), None);
    assert_eq!(find_mob(&Vec::new(), 0), None);
}

#[test]
fn projectile_flies_toward_its_target() {
    let mobs = vec![mob(1, 300, 400, 85)];
    // A tenth of a second at 300 units a second: 30 units of the 500.
    let (flying, after) = resolve(&vec![shot(0, 0, 1, 15)], mobs.clone(), 100_000_000);
    assert_eq!(flying, vec![shot(18, 24, 1, 15)]);
    assert_eq!(after, mobs);
}

#[test]
fn projectile_that_arrives_hurts_and_vanishes() {
    let mobs = vec![mob(1, 30, 40, 85), mob(2, 30, 40, 85)];
    // 50 units to go, 60 units of travel.
    let (flying, after) = resolve(&vec![shot(0, 0, 2, 15)], mobs, 200_000_000);
    assert!(flying.is_empty());
    assert_eq!(after, vec![mob(1, 30, 40, 85), mob(2, 30, 40, 70)]);
}

#[test]
fn projectile_arrives_when_travel_equals_distance() {
    let mobs = vec![mob(1, 60, 0, 85)];
    let (flying, after) = resolve(&vec![shot(0, 0, 1, 15)], mobs.clone(), 200_000_000);
    assert!(flying.is_empty());
    assert_eq!(after[0].health.current, 70);
    let (flying, after) = resolve(&vec![shot(0, 0, 1, 15)], mobs, 199_999_999);
    assert_eq!(flying.len(), 1);
    assert_eq!(flying[0].position, Point { x: 59_999_999_700, y: 0 });
    assert_eq!(after[0].health.current, 85);
}

#[test]
fn projectile_whose_target_is_gone_vanishes() {
    let mobs = vec![mob(1, 30, 40, 85)];
    let (flying, after) = resolve(&vec![shot(0, 0, 9, 15)], mobs.clone(), 1);
    assert!(flying.is_empty());
    assert_eq!(after, mobs);
}

#[test]
fn hit_may_take_health_below_zero() {
    let mobs = vec![mob(1, 1, 0, 10)];
    let (_, after) = resolve(&vec![shot(0, 0, 1, 15)], mobs, 1_000_000_000);
    assert_eq!(after[0].health.current, -5);
}

#[test]
fn dead_enemy_takes_no_further_damage() {
    let mobs = vec![mob(1, 1, 0, 10), mob(2, 1, 0, 85)];
    let shots = vec![shot(0, 0, 1, 15), shot(0, 0, 1, 15), shot(0, 0, 2, 15), shot(0, 0, 1, 40)];
    let (flying, after) = resolve(&shots, mobs, 1_000_000_000);
    // The first shot kills; the others at the same enemy find it gone.
    assert!(flying.is_empty());
    assert_eq!(after, vec![mob(1, 1, 0, -5), mob(2, 1, 0, 70)]);
}

#[test]
fn enemy_without_health_is_not_hit() {
    let mobs = vec![mob(1, 1, 0, 0), mob(2, 1, 0, -3)];
    let shots = vec![shot(0, 0, 1, 15), shot(0, 0, 2, 15), shot(500, 500, 1, 15)];
    let (flying, after) = resolve(&shots, mobs.clone(), 1_000_000_000);
    assert!(flying.is_empty());
    assert_eq!(after, mobs);
}

#[test]
fn projectiles_take_their_turns_in_order() {
    let mobs = vec![mob(1, 1, 0, 20)];
    let shots = vec![shot(0, 0, 1, 15), shot(0, 0, 1, 3), shot(900, 0, 1, 1), shot(0, 0, 1, 100)];
    let (flying, after) = resolve(&shots, mobs, 1_000_000_000);
    // 20 - 15 - 3 = 2, the far shot is still on its way, and the last kills.
    assert_eq!(flying, vec![shot(600, 0, 1, 1)]);
    assert_eq!(after[0].health.current, -98);
}
