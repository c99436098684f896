use tower_defense::constants::enemies::{get_starthealth, BAT, KNIGHT, ORC, WOLF};
use tower_defense::constants::projectiles::{ARROW, BOMB, CHAINS};
use tower_defense::constants::tiles::{END_TILE, GRASS_TILE, ROAD_TILE, START_TILE, WATER_TILE};
use tower_defense::constants::towers::{
    get_cooldowntime, get_defaultrange, get_name, get_startdamage, ARCHER_TOWER, CANON_TOWER,
    WIZARD_TOWER,
};
use tower_defense::constants::Direction;
use tower_defense::sprites::{
    get_atlas_index, get_composite_info, get_simple_tile_info, get_tile_sprite, Layer, Rotation,
    TileSprite, ENEMY_SPRITE, PROJECTILE_SPRITE,
};

#[test]
fn kind_codes() {
    assert_eq!((WATER_TILE, GRASS_TILE, ROAD_TILE, START_TILE, END_TILE), (0, 1, 2, 3, 4));
    assert_eq!((ORC, BAT, KNIGHT, WOLF), (0, 1, 2, 3));
    assert_eq!((CANON_TOWER, ARCHER_TOWER, WIZARD_TOWER), (0, 1, 2));
    assert_eq!((ARROW, BOMB, CHAINS), (0, 1, 2));
    assert_ne!(Direction::Left, Direction::Right);
    assert_ne!(Direction::Up, Direction::Down);
}

#[test]
fn enemy_start_health() {
    assert_eq!(get_starthealth(ORC), 85);
    assert_eq!(get_starthealth(BAT), 100);
    assert_eq!(get_starthealth(KNIGHT), 400);
    assert_eq!(get_starthealth(WOLF), 125);
    assert_eq!(get_starthealth(4), 0);
    assert_eq!(get_starthealth(u32::MAX), 0);
}

#[test]
fn tower_names() {
    assert_eq!(get_name(CANON_TOWER), "Canon Tower");
    assert_eq!(get_name(ARCHER_TOWER), "Archer Tower");
    assert_eq!(get_name(WIZARD_TOWER), "Wizard Tower");
    assert_eq!(get_name(3), "Unknown Tower");
}

#[test]
fn tower_start_damage() {
    assert_eq!(get_startdamage(CANON_TOWER), 15);
    assert_eq!(get_startdamage(ARCHER_TOWER), 5);
    assert_eq!(get_startdamage(WIZARD_TOWER), 30);
    assert_eq!(get_startdamage(3), 0);
}

#[test]
fn tower_default_range() {
    assert_eq!(get_defaultrange(CANON_TOWER), 75);
    assert_eq!(get_defaultrange(ARCHER_TOWER), 120);
    assert_eq!(get_defaultrange(WIZARD_TOWER), 100);
    assert_eq!(get_defaultrange(3), 0);
}

#[test]
fn tower_cooldown_time() {
    assert_eq!(get_cooldowntime(CANON_TOWER), 120);
    assert_eq!(get_cooldowntime(ARCHER_TOWER), 35);
    assert_eq!(get_cooldowntime(WIZARD_TOWER), 50);
    assert_eq!(get_cooldowntime(3), 0);
}

#[test]
fn atlas_index_counts_rows_of_ten() {
    assert_eq!(get_atlas_index(0, 0), 0);
    assert_eq!(get_atlas_index(9, 0), 9);
    assert_eq!(get_atlas_index(0, 1), 10);
    assert_eq!(get_atlas_index(7, 2), 27);
    assert_eq!(ENEMY_SPRITE, 10);
    assert_eq!(PROJECTILE_SPRITE, 17);
}

#[test]
fn simple_tiles() {
    let plain = |index| Layer { index, rotation: Rotation::Upright };
    assert_eq!(get_simple_tile_info(0), plain(9));
    assert_eq!(get_simple_tile_info(1), plain(0));
    assert_eq!(get_simple_tile_info(2), plain(8));
    assert_eq!(get_simple_tile_info(3), Layer { index: 8, rotation: Rotation::Clockwise });
    assert_eq!(get_simple_tile_info(4), plain(7));
    assert_eq!(get_simple_tile_info(5), Layer { index: 7, rotation: Rotation::Clockwise });
    assert_eq!(get_simple_tile_info(6), Layer { index: 7, rotation: Rotation::Half });
    assert_eq!(get_simple_tile_info(7), Layer { index: 7, rotation: Rotation::CounterClockwise });
    assert_eq!(get_simple_tile_info(8), plain(0));
    assert_eq!(get_simple_tile_info(99), plain(0));
}

#[test]
fn shore_tiles() {
    let turns =
        [Rotation::Upright, Rotation::Clockwise, Rotation::Half, Rotation::CounterClockwise];
    for (k, rotation) in turns.iter().enumerate() {
        let k = k as u32;
        assert_eq!(get_composite_info(8 + k), Layer { index: 5, rotation: *rotation });
        assert_eq!(get_composite_info(12 + k), Layer { index: 6, rotation: *rotation });
        assert_eq!(get_composite_info(16 + k), Layer { index: 4, rotation: *rotation });
    }
    assert_eq!(get_composite_info(7), Layer { index: 0, rotation: Rotation::Upright });
    assert_eq!(get_composite_info(20), Layer { index: 0, rotation: Rotation::Upright });
}

#[test]
fn tiles_of_one_and_of_two_pictures() {
    let plain = |index| Layer { index, rotation: Rotation::Upright };
    assert_eq!(get_tile_sprite(0), TileSprite { base: plain(9), overlay: None });
    assert_eq!(
        get_tile_sprite(6),
        TileSprite { base: Layer { index: 7, rotation: Rotation::Half }, overlay: None }
    );
    assert_eq!(
        get_tile_sprite(13),
        TileSprite {
            base: plain(0),
            overlay: Some(Layer { index: 6, rotation: Rotation::Clockwise }),
        }
    );
    assert_eq!(get_tile_sprite(20), TileSprite { base: plain(8), overlay: Some(plain(27)) });
    assert_eq!(get_tile_sprite(21), TileSprite { base: plain(8), overlay: Some(plain(28)) });
    assert_eq!(get_tile_sprite(22), TileSprite { base: plain(0), overlay: None });
}
