//! The tile grid: tile classes, cells and their place in the world.

use crate::geometry::Point;
use vstd::prelude::*;

verus! {

/// Cells along each side of the grid.
pub const GRID_SIZE: usize = 20;

/// Side of a tile, in sub-units: 32 world units.
pub const TILE_SIZE: i64 = 32_000_000_000;

/// World `x` of the centre of column 0.
pub const X_OFFSET: i64 = -304_000_000_000;

/// World `y` of the centre of row 0. Rows grow downward.
pub const Y_OFFSET: i64 = 354_000_000_000;

/// A level: rows of tile ids, top row first.
pub type Level = [[u32; 20]; 20];

/// What a tile is to the simulation.
#[derive(Clone, Copy, Debug, PartialEq, Eq, Structural)]
pub enum TileType {
    /// Terrain that can neither be walked nor built on.
    Water,
    /// Open ground: towers are built here.
    Grass,
    /// Part of the enemies' route.
    Road,
    /// Where the route begins.
    Start,
    /// Where the route ends.
    End,
}

/// The class of a tile id.
pub open spec fn tile_type_of(tile_id: u32) -> TileType {
    if tile_id == 0 {
        TileType::Grass
    } else if 2 <= tile_id <= 7 {
        TileType::Road
    } else if tile_id == 20 {
        TileType::Start
    } else if tile_id == 21 {
        TileType::End
    } else {
        TileType::Water
    }
}

/// Classifies a tile id: 0 is open ground, 2 to 7 are road, 20 is the start,
/// 21 the end, and every other id is terrain.
pub fn get_tile_type(tile_id: u32) -> (t: TileType)
    ensures
        t == tile_type_of(tile_id),
{
    match tile_id {
        0 => TileType::Grass,
        2..=7 => TileType::Road,
        20 => TileType::Start,
        21 => TileType::End,
        _ => TileType::Water,
    }
}

/// A cell of the grid by column `x` and row `y`.
#[derive(Clone, Copy, Debug, PartialEq, Eq, Structural)]
pub struct Cell {
    pub x: usize,
    pub y: usize,
}

impl Cell {
    /// The cell lies inside the grid.
    pub open spec fn in_grid(self) -> bool {
        self.x < GRID_SIZE && self.y < GRID_SIZE
    }

    /// World position of the cell's centre.
    pub open spec fn world(self) -> Point {
        Point {
            x: (X_OFFSET + self.x * TILE_SIZE) as i64,
            y: (Y_OFFSET - self.y * TILE_SIZE) as i64,
        }
    }

    /// Tells whether the cell lies inside the grid.
    pub fn is_in_grid(&self) -> (b: bool)
        ensures
            b == self.in_grid(),
    {
        self.x < GRID_SIZE && self.y < GRID_SIZE
    }

    /// World position of the centre of a cell of the grid.
    pub fn to_world(&self) -> (p: Point)
        requires
            self.in_grid(),
        ensures
            p == self.world(),
            p.in_world(),
    {
        Point {
            x: X_OFFSET + (self.x as i64) * TILE_SIZE,
            y: Y_OFFSET - (self.y as i64) * TILE_SIZE,
        }
    }
}

/// The tile id that a level holds at a cell.
pub open spec fn tile_at(level: Level, c: Cell) -> u32 {
    level[c.y as int][c.x as int]
}

/// The class of the tile at a cell.
pub open spec fn type_at(level: Level, c: Cell) -> TileType {
    tile_type_of(tile_at(level, c))
}

/// Reads the class of the tile at a cell of the grid.
pub fn tile_type_at(level: &Level, c: Cell) -> (t: TileType)
    requires
        c.in_grid(),
    ensures
        t == type_at(*level, c),
{
    get_tile_type(level[c.y][c.x])
}

/// Index of the tile centre nearest to an offset from the centre of tile 0;
/// an offset halfway between two centres goes to the one farther from zero.
pub open spec fn nearest_index(offset: int) -> int {
    if offset >= 0 {
        (offset + TILE_SIZE / 2) / (TILE_SIZE as int)
    } else {
        -((-offset + TILE_SIZE / 2) / (TILE_SIZE as int))
    }
}

/// The cell whose centre is nearest to a world position, if it is in the grid.
pub open spec fn cell_of(p: Point) -> Option<Cell> {
    let gx = nearest_index(p.x - X_OFFSET);
    let gy = nearest_index(Y_OFFSET - p.y);
    if 0 <= gx < GRID_SIZE && 0 <= gy < GRID_SIZE {
        Some(Cell { x: gx as usize, y: gy as usize })
    } else {
        None
    }
}

/// Index of the nearest tile centre, for offsets of a point of the world.
fn nearest(offset: i64) -> (i: i64)
    requires
        -2_000_000_000_000_000 <= offset <= 2_000_000_000_000_000,
    ensures
        i == nearest_index(offset as int),
{
    if offset >= 0 {
        (offset + TILE_SIZE / 2) / TILE_SIZE
    } else {
        let m: u64 = ((-offset) + TILE_SIZE / 2) as u64;
        let t: u64 = TILE_SIZE as u64;
        -((m / t) as i64)
    }
}

/// Finds the cell under a world position: the one whose centre is nearest,
/// or `None` where that falls outside the grid.
pub fn cell_at(p: Point) -> (c: Option<Cell>)
    requires
        p.in_world(),
    ensures
        c == cell_of(p),
{
    let gx = nearest(p.x - X_OFFSET);
    let gy = nearest(Y_OFFSET - p.y);
    if 0 <= gx && gx < 20 && 0 <= gy && gy < 20 {
        Some(Cell { x: gx as usize, y: gy as usize })
    } else {
        None
    }
}

/// The cell under the centre of a cell is that cell.
pub proof fn lemma_cell_of_world(c: Cell)
    requires
        c.in_grid(),
    ensures
        cell_of(c.world()) == Some(c),
{
}

} // verus!
