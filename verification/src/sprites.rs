//! Which pictures of the sprite sheet show a tile, an enemy or a projectile.
//!
//! None of this bears on the simulation: the route and the towers' aim depend
//! on the tiles' classes alone.

use vstd::prelude::*;

verus! {

/// Pictures in one row of the sprite sheet.
pub const ATLAS_COLUMNS: usize = 10;

/// Place of the enemies' picture in the sprite sheet.
pub const ENEMY_SPRITE: usize = 10;

/// Place of the projectiles' picture in the sprite sheet.
pub const PROJECTILE_SPRITE: usize = 17;

/// How a picture is turned before it is drawn.
#[derive(Clone, Copy, Debug, PartialEq, Eq, Structural)]
pub enum Rotation {
    /// Drawn as it is.
    Upright,
    /// A quarter turn clockwise.
    Clockwise,
    /// A half turn.
    Half,
    /// A quarter turn counter-clockwise.
    CounterClockwise,
}

/// One picture of the sprite sheet and how it is turned.
#[derive(Clone, Copy, Debug, PartialEq, Eq, Structural)]
pub struct Layer {
    pub index: usize,
    pub rotation: Rotation,
}

/// The pictures that show a tile: the one below, and the one drawn over it
/// if the tile has two.
#[derive(Clone, Copy, Debug, PartialEq, Eq, Structural)]
pub struct TileSprite {
    pub base: Layer,
    pub overlay: Option<Layer>,
}

/// Place in the sprite sheet of the picture in column `x` of row `y`.
pub open spec fn atlas_index(x: int, y: int) -> int {
    y * ATLAS_COLUMNS + x
}

/// The turn of the `k`-th of four variants of a tile.
pub open spec fn quarter(k: int) -> Rotation {
    if k == 0 {
        Rotation::Upright
    } else if k == 1 {
        Rotation::Clockwise
    } else if k == 2 {
        Rotation::Half
    } else {
        Rotation::CounterClockwise
    }
}

/// The picture of a tile that is shown by one picture alone.
pub open spec fn simple_tile(id: u32) -> Layer {
    if id == 0 {
        Layer { index: 9, rotation: Rotation::Upright }
    } else if id == 2 {
        Layer { index: 8, rotation: Rotation::Upright }
    } else if id == 3 {
        Layer { index: 8, rotation: Rotation::Clockwise }
    } else if 4 <= id <= 7 {
        Layer { index: 7, rotation: quarter(id - 4) }
    } else {
        Layer { index: 0, rotation: Rotation::Upright }
    }
}

/// The picture drawn over the water of a shore tile, an id from 8 to 19:
/// three kinds of shore, each in four turns.
pub open spec fn composite_tile(id: u32) -> Layer {
    if 8 <= id <= 11 {
        Layer { index: 5, rotation: quarter(id - 8) }
    } else if 12 <= id <= 15 {
        Layer { index: 6, rotation: quarter(id - 12) }
    } else if 16 <= id <= 19 {
        Layer { index: 4, rotation: quarter(id - 16) }
    } else {
        Layer { index: 0, rotation: Rotation::Upright }
    }
}

/// The pictures that show a tile.
pub open spec fn tile_sprite(id: u32) -> TileSprite {
    if 8 <= id <= 19 {
        TileSprite {
            base: Layer { index: 0, rotation: Rotation::Upright },
            overlay: Some(composite_tile(id)),
        }
    } else if id == 20 {
        TileSprite {
            base: Layer { index: 8, rotation: Rotation::Upright },
            overlay: Some(Layer { index: 27, rotation: Rotation::Upright }),
        }
    } else if id == 21 {
        TileSprite {
            base: Layer { index: 8, rotation: Rotation::Upright },
            overlay: Some(Layer { index: 28, rotation: Rotation::Upright }),
        }
    } else {
        TileSprite { base: simple_tile(id), overlay: None }
    }
}

/// Place in the sprite sheet of the picture in column `x` of row `y`.
pub fn get_atlas_index(x: usize, y: usize) -> (index: usize)
    requires
        atlas_index(x as int, y as int) <= usize::MAX,
    ensures
        index == atlas_index(x as int, y as int),
{
    y * ATLAS_COLUMNS + x
}

/// The turn of the `k`-th of four variants of a tile.
fn turn(k: u32) -> (r: Rotation)
    ensures
        r == quarter(k as int),
{
    if k == 0 {
        Rotation::Upright
    } else if k == 1 {
        Rotation::Clockwise
    } else if k == 2 {
        Rotation::Half
    } else {
        Rotation::CounterClockwise
    }
}

/// The picture of a tile that is shown by one picture alone.
pub fn get_simple_tile_info(id: u32) -> (layer: Layer)
    ensures
        layer == simple_tile(id),
{
    match id {
        0 => Layer { index: get_atlas_index(9, 0), rotation: Rotation::Upright },
        2 => Layer { index: get_atlas_index(8, 0), rotation: Rotation::Upright },
        3 => Layer { index: get_atlas_index(8, 0), rotation: Rotation::Clockwise },
        4..=7 => Layer { index: get_atlas_index(7, 0), rotation: turn(id - 4) },
        _ => Layer { index: get_atlas_index(0, 0), rotation: Rotation::Upright },
    }
}

/// The picture drawn over the water of a shore tile.
pub fn get_composite_info(id: u32) -> (layer: Layer)
    ensures
        layer == composite_tile(id),
{
    match id {
        8..=11 => Layer { index: get_atlas_index(5, 0), rotation: turn(id - 8) },
        12..=15 => Layer { index: get_atlas_index(6, 0), rotation: turn(id - 12) },
        16..=19 => Layer { index: get_atlas_index(4, 0), rotation: turn(id - 16) },
        _ => Layer { index: 0, rotation: Rotation::Upright },
    }
}

/// The pictures that show a tile: shore tiles are water with a shore drawn
/// over it, the start and the end are road with a marker drawn over it, and
/// every other tile is one picture.
pub fn get_tile_sprite(id: u32) -> (sprite: TileSprite)
    ensures
        sprite == tile_sprite(id),
{
    match id {
        8..=19 => TileSprite {
            base: Layer { index: get_atlas_index(0, 0), rotation: Rotation::Upright },
            overlay: Some(get_composite_info(id)),
        },
        20 => TileSprite {
            base: Layer { index: get_atlas_index(8, 0), rotation: Rotation::Upright },
            overlay: Some(Layer { index: get_atlas_index(7, 2), rotation: Rotation::Upright }),
        },
        21 => TileSprite {
            base: Layer { index: get_atlas_index(8, 0), rotation: Rotation::Upright },
            overlay: Some(Layer { index: get_atlas_index(8, 2), rotation: Rotation::Upright }),
        },
        _ => TileSprite { base: get_simple_tile_info(id), overlay: None },
    }
}

} // verus!
