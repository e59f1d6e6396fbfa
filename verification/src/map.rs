//! The generated world: a grid, the coordinate-transform center, the player
//! spawn cell and the monster/item spawn lists, with the spatial queries the
//! gameplay systems consume. World positions are continuous; the library
//! carries them in fixed-point thousandths of a world unit, so one tile
//! spans 4000 fixed-point steps.

use vstd::prelude::*;
use crate::grid::{Grid, in_bounds, kind_at, grid_width, grid_height};
use crate::tile::{TileMapping, TileType, ItemType, MonsterType};
use crate::reach::{is_floor, reach};

verus! {

/// Fixed-point steps per tile: one tile is four world units of a thousand
/// steps each.
pub const TILE_STEPS: i64 = 4000;

/// Half a tile, in fixed-point steps: the bias the inverse transform adds
/// before truncation, so a point lands in the cell whose center is nearest.
pub const HALF_TILE_STEPS: i64 = 2000;

/// Largest world-coordinate magnitude the transforms accept.
pub const WORLD_LIMIT: i64 = 2_000_000_000;

/// Largest grid dimension a well-formed map carries.
pub const MAP_DIM_LIMIT: usize = 32_768;

/// A continuous world position on the ground plane, in fixed-point steps.
/// The engine's vertical axis is fixed at zero and carries no information.
#[derive(Debug, PartialEq, Eq, Structural, Clone, Copy)]
pub struct WorldPos {
    pub x: i64,
    pub z: i64,
}

/// A monster placed during generation, consumed once at floor setup.
#[derive(Debug, Clone, Copy)]
pub struct MonsterInMap {
    pub position: (usize, usize),
    pub monster_type: MonsterType,
}

/// An item placed during generation, consumed once at floor setup.
#[derive(Debug, Clone, Copy)]
pub struct ItemInMap {
    pub position: (usize, usize),
    pub item_type: ItemType,
}

/// The world of one floor, constructed atomically by a generator strategy
/// and read-only afterwards.
#[derive(Debug)]
pub struct GameMap {
    pub grid: Grid,
    pub tile_mapping: TileMapping,
    pub player_position: (usize, usize),
    pub monsters: Vec<MonsterInMap>,
    pub items: Vec<ItemInMap>,
    pub center: (usize, usize),
    pub width: usize,
    pub height: usize,
}

/// The world coordinate of a cell index on one axis: offset from the center
/// cell, scaled by the tile size.
pub open spec fn grid_to_world_coord(cell: int, center: int) -> int {
    (cell - center) * 4000
}

/// The cell index of a world coordinate on one axis: a half-tile bias is
/// added before division so that truncation assigns the point to the cell
/// whose center is nearest; negative values saturate at zero.
pub open spec fn world_to_grid_coord(w: int, center: int) -> int {
    let n = w + 2000 + 4000 * center;
    if n < 0 {
        0
    } else {
        n / 4000
    }
}

impl GameMap {
    /// A structurally sound map: the cached dimensions match the grid, they
    /// stay within the machine bound of the transforms, and the spawn cell
    /// lies on the grid.
    pub open spec fn wf(self) -> bool {
        &&& self.grid.wf()
        &&& self.width == grid_width(self.grid@)
        &&& self.height == grid_height(self.grid@)
        &&& 1 <= self.width <= MAP_DIM_LIMIT
        &&& 1 <= self.height <= MAP_DIM_LIMIT
        &&& self.center.0 <= MAP_DIM_LIMIT
        &&& self.center.1 <= MAP_DIM_LIMIT
        &&& in_bounds(self.grid@, self.player_position.0 as int, self.player_position.1 as int)
    }

    /// The spawn cell, as a pair of mathematical integers.
    pub open spec fn spawn(self) -> (int, int) {
        (self.player_position.0 as int, self.player_position.1 as int)
    }

    /// Whether every Floor cell of the map is reachable from the player
    /// spawn by 4-directional movement over Floor cells.
    pub open spec fn all_floor_connected(self) -> bool {
        forall|p: (int, int)|
            is_floor(self.grid@, p) ==> reach(self.grid@, self.spawn(), p)
    }

    /// The world position of a cell: an affine transform anchored at the
    /// map's center cell.
    pub fn grid_to_world(&self, x: usize, y: usize) -> (r: WorldPos)
        requires
            self.wf(),
            x <= MAP_DIM_LIMIT,
            y <= MAP_DIM_LIMIT,
        ensures
            r.x == grid_to_world_coord(x as int, self.center.0 as int),
            r.z == grid_to_world_coord(y as int, self.center.1 as int),
    {
        WorldPos {
            x: (x as i64 - self.center.0 as i64) * TILE_STEPS,
            z: (y as i64 - self.center.1 as i64) * TILE_STEPS,
        }
    }

    /// The cell a world position falls in: the inverse transform, with the
    /// half-tile bias added before truncation.
    pub fn world_to_grid(&self, position: WorldPos) -> (r: (usize, usize))
        requires
            self.wf(),
            -WORLD_LIMIT <= position.x <= WORLD_LIMIT,
            -WORLD_LIMIT <= position.z <= WORLD_LIMIT,
        ensures
            r.0 == world_to_grid_coord(position.x as int, self.center.0 as int),
            r.1 == world_to_grid_coord(position.z as int, self.center.1 as int),
    {
        let nx: i64 = position.x + HALF_TILE_STEPS + TILE_STEPS * (self.center.0 as i64);
        let nz: i64 = position.z + HALF_TILE_STEPS + TILE_STEPS * (self.center.1 as i64);
        let gx: usize = if nx < 0 {
            0
        } else {
            ((nx as u64) / 4000) as usize
        };
        let gz: usize = if nz < 0 {
            0
        } else {
            ((nz as u64) / 4000) as usize
        };
        (gx, gz)
    }

    /// The cell a world position falls in, at the specification level.
    pub open spec fn spec_world_to_grid(self, position: WorldPos) -> (int, int) {
        (
            world_to_grid_coord(position.x as int, self.center.0 as int),
            world_to_grid_coord(position.z as int, self.center.1 as int),
        )
    }

    /// Whether the cell under the world point `(wx, wz)` is a Wall.
    pub open spec fn wall_under(self, wx: int, wz: int) -> bool {
        kind_at(
            self.grid@,
            world_to_grid_coord(wx, self.center.0 as int),
            world_to_grid_coord(wz, self.center.1 as int),
        ) == TileType::Wall
    }

    /// Soft-body collision probe: test the four points offset by
    /// `distance` on each ground axis and report whether any falls in a
    /// Wall cell. The caller owes that all four probe points land on the
    /// grid; a probe off the grid is a coordinate bug.
    pub fn collide_with_wall(&self, position: WorldPos, distance: i64) -> (r: bool)
        requires
            self.wf(),
            0 <= distance,
            -WORLD_LIMIT <= position.x - distance,
            position.x + distance <= WORLD_LIMIT,
            -WORLD_LIMIT <= position.z - distance,
            position.z + distance <= WORLD_LIMIT,
            in_bounds(
                self.grid@,
                world_to_grid_coord(position.x as int, self.center.0 as int),
                world_to_grid_coord((position.z - distance) as int, self.center.1 as int),
            ),
            in_bounds(
                self.grid@,
                world_to_grid_coord(position.x as int, self.center.0 as int),
                world_to_grid_coord((position.z + distance) as int, self.center.1 as int),
            ),
            in_bounds(
                self.grid@,
                world_to_grid_coord((position.x + distance) as int, self.center.0 as int),
                world_to_grid_coord(position.z as int, self.center.1 as int),
            ),
            in_bounds(
                self.grid@,
                world_to_grid_coord((position.x - distance) as int, self.center.0 as int),
                world_to_grid_coord(position.z as int, self.center.1 as int),
            ),
        ensures
            r == (self.wall_under(position.x as int, (position.z - distance) as int)
                || self.wall_under(position.x as int, (position.z + distance) as int)
                || self.wall_under((position.x + distance) as int, position.z as int)
                || self.wall_under((position.x - distance) as int, position.z as int)),
    {
        let probes = [
            WorldPos { x: position.x, z: position.z - distance },
            WorldPos { x: position.x, z: position.z + distance },
            WorldPos { x: position.x + distance, z: position.z },
            WorldPos { x: position.x - distance, z: position.z },
        ];
        let mut i: usize = 0;
        let mut hit = false;
        while i < 4
            invariant
                self.wf(),
                i <= 4,
                probes.len() == 4,
                probes[0] == (WorldPos { x: position.x, z: (position.z - distance) as i64 }),
                probes[1] == (WorldPos { x: position.x, z: (position.z + distance) as i64 }),
                probes[2] == (WorldPos { x: (position.x + distance) as i64, z: position.z }),
                probes[3] == (WorldPos { x: (position.x - distance) as i64, z: position.z }),
                forall|j: int|
                    0 <= j < 4 ==> -WORLD_LIMIT <= (#[trigger] probes[j]).x <= WORLD_LIMIT
                        && -WORLD_LIMIT <= probes[j].z <= WORLD_LIMIT && in_bounds(
                        self.grid@,
                        world_to_grid_coord(probes[j].x as int, self.center.0 as int),
                        world_to_grid_coord(probes[j].z as int, self.center.1 as int),
                    ),
                hit == exists|j: int|
                    0 <= j < i && self.wall_under(
                        (#[trigger] probes[j]).x as int,
                        probes[j].z as int,
                    ),
            decreases 4 - i,
        {
            let p = probes[i];
            let cell = self.world_to_grid(p);
            let tile = self.grid.at(cell.0, cell.1);
            if matches!(tile.tile_type, TileType::Wall) {
                proof {
                    assert(self.wall_under(probes[i as int].x as int, probes[i as int].z as int));
                }
                hit = true;
            }
            i += 1;
        }
        hit
    }
}

/// The two coordinate transforms invert each other on every cell of the
/// grid: mapping a cell to world space and back yields the same cell, the
/// half-tile bias cancelling the truncation exactly.
pub proof fn lemma_coordinate_round_trip(m: GameMap, x: usize, y: usize)
    requires
        m.wf(),
        x < m.width,
        y < m.height,
    ensures
        world_to_grid_coord(
            grid_to_world_coord(x as int, m.center.0 as int),
            m.center.0 as int,
        ) == x,
        world_to_grid_coord(
            grid_to_world_coord(y as int, m.center.1 as int),
            m.center.1 as int,
        ) == y,
{
    lemma_world_round_trip(x as int, m.center.0 as int);
    lemma_world_round_trip(y as int, m.center.1 as int);
}

/// On one axis: the inverse transform undoes the forward transform for any
/// nonnegative cell index.
pub proof fn lemma_world_round_trip(cell: int, center: int)
    requires
        0 <= cell,
    ensures
        world_to_grid_coord(grid_to_world_coord(cell, center), center) == cell,
{
    let n = (cell - center) * 4000 + 2000 + 4000 * center;
    assert(n == 4000 * cell + 2000) by (nonlinear_arith)
        requires
            n == (cell - center) * 4000 + 2000 + 4000 * center,
    ;
    assert(n / 4000 == cell) by (nonlinear_arith)
        requires
            n == 4000 * cell + 2000,
            cell >= 0,
    ;
}

} // verus!
