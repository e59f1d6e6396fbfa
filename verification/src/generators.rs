//! The dungeon generator strategies. Each produces a complete map in one
//! call; the randomized one places rooms by rejection sampling, chains each
//! accepted room to the previously accepted one with an L-shaped tunnel,
//! scatters monsters and items over room interiors, and finishes with a
//! wall-pruning pass.

use vstd::prelude::*;
use crate::grid::{Grid, in_bounds, kind_at, grid_width, grid_height};
use crate::tile::{Tile, TileType, TileMapping, ItemType, MonsterType};
use crate::map::{GameMap, MonsterInMap, ItemInMap, MAP_DIM_LIMIT};
use crate::room::{Room, tile_floored};
use crate::reach::{is_floor, reach, lemma_reach_refl, lemma_reach_trans, lemma_reach_symm,
    lemma_reach_monotone, lemma_straight_reach, floors_monotone, floors_connected_from};
use crate::bresenham::in_box;
use crate::text::{str_chars, trim_chars, spec_trim, text_wf, cell_glyph};
use crate::tile::is_glyph;
use crate::config::ItemAndMonsterParameterItem;

verus! {

/// Why generation failed. Malformed save text is an expected external-input
/// condition and surfaces as a value, never a panic.
#[derive(Debug, PartialEq, Eq, Structural, Clone, Copy)]
pub enum GenerationError {
    EmptyInput,
}

/// A dungeon generation strategy: one call produces one complete floor.
pub trait DungeonGeneratorStrategy {
    /// Whether this strategy's configuration is usable.
    spec fn valid(&self) -> bool;

    /// Produce a complete map. Every strategy returns a structurally sound
    /// map or a generation error.
    fn generate(&self) -> (r: Result<GameMap, GenerationError>)
        requires
            self.valid(),
        ensures
            r matches Ok(m) ==> m.wf(),
    ;
}

/// A trivial baseline: the whole grid one Floor, the spawn at the grid
/// center. A regression fixture, not production content.
pub struct MapGeneratorFirst {
    pub width: usize,
    pub height: usize,
}

impl MapGeneratorFirst {
    pub fn new(width: usize, height: usize) -> (r: MapGeneratorFirst)
        ensures
            r.width == width,
            r.height == height,
    {
        MapGeneratorFirst { width, height }
    }
}

impl DungeonGeneratorStrategy for MapGeneratorFirst {
    open spec fn valid(&self) -> bool {
        1 <= self.width <= MAP_DIM_LIMIT && 1 <= self.height <= MAP_DIM_LIMIT
    }

    fn generate(&self) -> (r: Result<GameMap, GenerationError>)
        ensures
            r is Ok,
            r matches Ok(m) ==> {
                &&& m.width == self.width
                &&& m.height == self.height
                &&& m.center == ((self.width / 2) as usize, (self.height / 2) as usize)
                &&& m.player_position == m.center
                &&& forall|x: int, y: int|
                    in_bounds(m.grid@, x, y) ==> kind_at(m.grid@, x, y) == TileType::Floor
                &&& m.monsters@.len() == 0
                &&& m.items@.len() == 0
                &&& m.all_floor_connected()
            },
    {
        let tile_mapping = TileMapping::new();
        let grid = Grid::new(self.width, self.height, TileType::Floor);

        let x_center = self.width / 2;
        let y_center = self.height / 2;

        let center = (x_center, y_center);
        let player_position: (usize, usize) = (x_center, y_center);

        let m = GameMap {
            grid,
            tile_mapping,
            player_position,
            monsters: Vec::new(),
            items: Vec::new(),
            center,
            width: self.width,
            height: self.height,
        };
        proof {
            let g = m.grid@;
            let spawn = m.spawn();
            assert forall|p: (int, int)| is_floor(g, p) implies reach(g, spawn, p) by {
                let elbow: (int, int) = (p.0, spawn.1);
                assert(in_bounds(g, elbow.0, elbow.1));
                assert forall|q: (int, int)| #[trigger] in_box(q, spawn, elbow) implies is_floor(
                    g,
                    q,
                ) by {
                    assert(in_bounds(g, q.0, q.1));
                }
                lemma_straight_reach(g, spawn, elbow);
                assert forall|q: (int, int)| #[trigger] in_box(q, elbow, p) implies is_floor(
                    g,
                    q,
                ) by {
                    assert(in_bounds(g, q.0, q.1));
                }
                lemma_straight_reach(g, elbow, p);
                lemma_reach_trans(g, spawn, elbow, p);
            }
        }
        Ok(m)
    }
}

/// A fixture with two hardcoded rooms and no tunnel: exercises room
/// stamping in isolation. The two rooms stay disconnected on purpose.
pub struct MapGeneratorSecond {
    pub width: usize,
    pub height: usize,
}

impl MapGeneratorSecond {
    pub fn new(width: usize, height: usize) -> (r: MapGeneratorSecond)
        ensures
            r.width == width,
            r.height == height,
    {
        MapGeneratorSecond { width, height }
    }
}

impl DungeonGeneratorStrategy for MapGeneratorSecond {
    open spec fn valid(&self) -> bool {
        45 <= self.width <= MAP_DIM_LIMIT && 30 <= self.height <= MAP_DIM_LIMIT
    }

    fn generate(&self) -> (r: Result<GameMap, GenerationError>)
        ensures
            r is Ok,
            r matches Ok(m) ==> {
                &&& m.width == self.width
                &&& m.height == self.height
                &&& m.center == ((self.width / 2) as usize, (self.height / 2) as usize)
                &&& m.player_position == ((25usize, 22usize))
                &&& forall|x: int, y: int|
                    in_bounds(m.grid@, x, y) ==> kind_at(m.grid@, x, y) == (if (21 <= x < 30 && 16
                        <= y < 30) || (36 <= x < 45 && 16 <= y < 30) {
                        TileType::Floor
                    } else {
                        TileType::Wall
                    })
                &&& m.monsters@.len() == 0
                &&& m.items@.len() == 0
            },
    {
        let tile_mapping = TileMapping::new();
        let mut grid = Grid::new(self.width, self.height, TileType::Wall);

        let x_center = self.width / 2;
        let y_center = self.height / 2;

        let center = (x_center, y_center);

        let room_1 = Room::new(20, 15, 10, 15);
        let room_2 = Room::new(35, 15, 10, 15);

        let ghost g0 = grid@;
        room_1.fill_grid(&mut grid);
        let ghost g1 = grid@;
        room_2.fill_grid(&mut grid);

        let player_position: (usize, usize) = room_1.center;
        proof {
            let g2 = grid@;
            assert forall|x: int, y: int| in_bounds(g2, x, y) implies kind_at(g2, x, y) == (if (21
                <= x < 30 && 16 <= y < 30) || (36 <= x < 45 && 16 <= y < 30) {
                TileType::Floor
            } else {
                TileType::Wall
            }) by {
                assert(in_bounds(g0, x, y));
                assert(in_bounds(g1, x, y));
                assert(g0[y][x].tile_type == TileType::Wall);
                assert(room_1.in_interior((x, y)) <==> (21 <= x < 30 && 16 <= y < 30));
                assert(room_2.in_interior((x, y)) <==> (36 <= x < 45 && 16 <= y < 30));
            }
        }
        Ok(GameMap {
            grid,
            tile_mapping,
            player_position,
            monsters: Vec::new(),
            items: Vec::new(),
            center,
            width: self.width,
            height: self.height,
        })
    }
}



/// Stamping two rooms into an all-Wall grid leaves exactly the two open
/// interiors as Floor.
pub proof fn lemma_two_fills_on_walls(
    g0: Seq<Seq<Tile>>,
    g1: Seq<Seq<Tile>>,
    g2: Seq<Seq<Tile>>,
    room_1: Room,
    room_2: Room,
)
    requires
        grid_width(g1) == grid_width(g0),
        grid_height(g1) == grid_height(g0),
        grid_width(g2) == grid_width(g0),
        grid_height(g2) == grid_height(g0),
        room_1.x2 <= grid_width(g0),
        room_1.y2 <= grid_height(g0),
        room_2.x2 <= grid_width(g0),
        room_2.y2 <= grid_height(g0),
        forall|x: int, y: int|
            in_bounds(g0, x, y) ==> kind_at(g0, x, y) == TileType::Wall,
        forall|x: int, y: int|
            in_bounds(g0, x, y) ==> g1[y][x] == (if room_1.in_interior((x, y)) {
                tile_floored(g0[y][x])
            } else {
                g0[y][x]
            }),
        forall|x: int, y: int|
            in_bounds(g1, x, y) ==> g2[y][x] == (if room_2.in_interior((x, y)) {
                tile_floored(g1[y][x])
            } else {
                g1[y][x]
            }),
    ensures
        forall|p: (int, int)| #[trigger] room_1.in_interior(p) ==> is_floor(g2, p),
        forall|p: (int, int)| #[trigger] room_2.in_interior(p) ==> is_floor(g2, p),
        forall|p: (int, int)|
            #[trigger] is_floor(g2, p) ==> room_1.in_interior(p) || room_2.in_interior(p),
{
    assert forall|p: (int, int)| #[trigger] room_1.in_interior(p) implies is_floor(g2, p) by {
        assert(in_bounds(g0, p.0, p.1));
        assert(in_bounds(g1, p.0, p.1));
    }
    assert forall|p: (int, int)| #[trigger] room_2.in_interior(p) implies is_floor(g2, p) by {
        assert(in_bounds(g0, p.0, p.1));
        assert(in_bounds(g1, p.0, p.1));
    }
    assert forall|p: (int, int)| #[trigger] is_floor(g2, p) implies room_1.in_interior(p)
        || room_2.in_interior(p) by {
        assert(in_bounds(g0, p.0, p.1));
        assert(in_bounds(g1, p.0, p.1));
        if !room_1.in_interior(p) && !room_2.in_interior(p) {
            assert(g2[p.1][p.0] == g0[p.1][p.0]);
        }
    }
}

/// Two stamped rooms joined by one tunnel leave every Floor cell reachable
/// from the first room's center: the floors before the tunnel are exactly
/// the two interiors, the tunnel only adds floor, and each added cell
/// reaches the first center through the tunnel.
pub proof fn lemma_two_rooms_tunnel_connected(
    g2: Seq<Seq<Tile>>,
    g3: Seq<Seq<Tile>>,
    room_1: Room,
    room_2: Room,
)
    requires
        room_1.wf(),
        room_2.wf(),
        room_1.x2 - room_1.x1 >= 2,
        room_1.y2 - room_1.y1 >= 2,
        room_2.x2 - room_2.x1 >= 2,
        room_2.y2 - room_2.y1 >= 2,
        forall|p: (int, int)| #[trigger] room_1.in_interior(p) ==> is_floor(g2, p),
        forall|p: (int, int)| #[trigger] room_2.in_interior(p) ==> is_floor(g2, p),
        forall|p: (int, int)|
            is_floor(g2, p) ==> room_1.in_interior(p) || room_2.in_interior(p),
        forall|p: (int, int)| is_floor(g2, p) ==> is_floor(g3, p),
        forall|p: (int, int)|
            is_floor(g3, p) ==> is_floor(g2, p) || reach(
                g3,
                (room_1.center.0 as int, room_1.center.1 as int),
                p,
            ),
        reach(
            g3,
            (room_1.center.0 as int, room_1.center.1 as int),
            (room_2.center.0 as int, room_2.center.1 as int),
        ),
    ensures
        forall|p: (int, int)|
            #[trigger] is_floor(g3, p) ==> reach(
                g3,
                (room_1.center.0 as int, room_1.center.1 as int),
                p,
            ),
{
    let c1: (int, int) = (room_1.center.0 as int, room_1.center.1 as int);
    let c2: (int, int) = (room_2.center.0 as int, room_2.center.1 as int);
    room_1.lemma_interior_reach(g2);
    room_2.lemma_interior_reach(g2);
    assert forall|p: (int, int)| #[trigger] is_floor(g3, p) implies reach(g3, c1, p) by {
        if is_floor(g2, p) {
            if room_1.in_interior(p) {
                lemma_reach_monotone(g2, g3, c1, p);
            } else {
                lemma_reach_monotone(g2, g3, c2, p);
                lemma_reach_trans(g3, c1, c2, p);
            }
        }
    }
}

/// A fixture with two hardcoded rooms joined by a tunnel: exercises room
/// stamping and tunnel carving together.
pub struct MapGeneratorThird {
    pub width: usize,
    pub height: usize,
}

impl MapGeneratorThird {
    pub fn new(width: usize, height: usize) -> (r: MapGeneratorThird)
        ensures
            r.width == width,
            r.height == height,
    {
        MapGeneratorThird { width, height }
    }
}

impl DungeonGeneratorStrategy for MapGeneratorThird {
    open spec fn valid(&self) -> bool {
        45 <= self.width <= MAP_DIM_LIMIT && 30 <= self.height <= MAP_DIM_LIMIT
    }

    #[verifier::rlimit(100)]
    fn generate(&self) -> (r: Result<GameMap, GenerationError>)
        ensures
            r is Ok,
            r matches Ok(m) ==> {
                &&& m.width == self.width
                &&& m.height == self.height
                &&& m.center == ((self.width / 2) as usize, (self.height / 2) as usize)
                &&& m.player_position == ((25usize, 22usize))
                &&& is_floor(m.grid@, (25int, 22int))
                &&& is_floor(m.grid@, (40int, 22int))
                &&& reach(m.grid@, (25int, 22int), (40int, 22int))
                &&& forall|x: int, y: int|
                    in_bounds(m.grid@, x, y) ==> kind_at(m.grid@, x, y) == (if (21 <= x < 30 && 16
                        <= y < 30) || (36 <= x < 45 && 16 <= y < 30) || (y == 22 && 25 <= x <= 40) {
                        TileType::Floor
                    } else {
                        TileType::Wall
                    })
                &&& m.monsters@.len() == 0
                &&& m.items@.len() == 0
                &&& m.all_floor_connected()
            },
    {
        let tile_mapping = TileMapping::new();
        let mut grid = Grid::new(self.width, self.height, TileType::Wall);

        let x_center = self.width / 2;
        let y_center = self.height / 2;

        let center = (x_center, y_center);

        let room_1 = Room::new(20, 15, 10, 15);
        let room_2 = Room::new(35, 15, 10, 15);

        let ghost g0 = grid@;
        room_1.fill_grid(&mut grid);
        let ghost g1 = grid@;
        room_2.fill_grid(&mut grid);
        let ghost g2 = grid@;
        proof {
            lemma_two_fills_on_walls(g0, g1, g2, room_1, room_2);
        }

        room_1.create_tunnel(&mut grid, &room_2);

        let player_position: (usize, usize) = room_1.center;
        proof {
            let g3 = grid@;
            assert(room_1.center == ((25usize, 22usize)));
            assert(room_2.center == ((40usize, 22usize)));
            lemma_two_rooms_tunnel_connected(g2, g3, room_1, room_2);
            lemma_reach_symm(g3, (25int, 22int), (40int, 22int));
            // cell by cell: floor exactly on the two interiors and the
            // straight run between the centers, which both elbows collapse to
            let c1: (int, int) = (25int, 22int);
            let c2: (int, int) = (40int, 22int);
            let c = choose|c: (int, int)|
                crate::room::tunnel_elbow(c, c1, c2) && #[trigger] crate::room::changes_on_l_path(
                    g2,
                    g3,
                    c1,
                    c,
                    c2,
                ) && crate::room::segment_floor(g3, c1, c) && crate::room::segment_floor(g3, c, c2);
            assert(c == c1 || c == c2);
            assert forall|x: int, y: int| in_bounds(g3, x, y) implies kind_at(g3, x, y) == (if (21
                <= x < 30 && 16 <= y < 30) || (36 <= x < 45 && 16 <= y < 30) || (y == 22 && 25 <= x
                <= 40) {
                TileType::Floor
            } else {
                TileType::Wall
            }) by {
                assert(in_bounds(g0, x, y));
                assert(in_bounds(g1, x, y));
                assert(in_bounds(g2, x, y));
                if y == 22 && 25 <= x <= 40 {
                    if c == c1 {
                        assert(crate::room::on_segment((x, y), c, c2));
                    } else {
                        assert(crate::room::on_segment((x, y), c1, c));
                    }
                    assert(is_floor(g3, (x, y)));
                } else {
                    assert(!crate::room::on_segment((x, y), c1, c) && !crate::room::on_segment(
                        (x, y),
                        c,
                        c2,
                    ));
                    assert(g3[y][x] == g2[y][x]);
                    if room_1.in_interior((x, y)) || room_2.in_interior((x, y)) {
                        assert(is_floor(g2, (x, y)));
                    } else {
                        assert(g2[y][x] == g1[y][x] && g1[y][x] == g0[y][x]);
                    }
                }
            }
        }
        Ok(GameMap {
            grid,
            tile_mapping,
            player_position,
            monsters: Vec::new(),
            items: Vec::new(),
            center,
            width: self.width,
            height: self.height,
        })
    }
}

} // verus!

verus! {

/// Whether one of the existing 4-adjacent neighbors of `(x, y)` is a Floor
/// cell; cells on the grid boundary skip the missing sides.
pub open spec fn has_floor_neighbor(g: Seq<Seq<Tile>>, x: int, y: int) -> bool {
    ||| (y > 0 && kind_at(g, x, y - 1) == TileType::Floor)
    ||| (y < grid_height(g) - 1 && kind_at(g, x, y + 1) == TileType::Floor)
    ||| (x > 0 && kind_at(g, x - 1, y) == TileType::Floor)
    ||| (x < grid_width(g) - 1 && kind_at(g, x + 1, y) == TileType::Floor)
}

/// The wall-pruning pass: every Wall cell with no 4-adjacent Floor neighbor
/// is downgraded to Empty, so that walls nothing walks beside are never
/// drawn. Floor cells are untouched, so walkability is unchanged.
pub fn remove_walls(width: usize, height: usize, grid: &mut Grid)
    requires
        old(grid).wf(),
        width == old(grid).spec_width(),
        height == old(grid).spec_height(),
    ensures
        final(grid).wf(),
        final(grid).spec_width() == old(grid).spec_width(),
        final(grid).spec_height() == old(grid).spec_height(),
        forall|x: int, y: int|
            in_bounds(old(grid)@, x, y) ==> final(grid)@[y][x] == (if kind_at(old(grid)@, x, y)
                == TileType::Wall && !has_floor_neighbor(old(grid)@, x, y) {
                Tile { tile_type: TileType::Empty, render_hint: old(grid)@[y][x].render_hint }
            } else {
                old(grid)@[y][x]
            }),
        forall|p: (int, int)| is_floor(final(grid)@, p) <==> is_floor(old(grid)@, p),
        forall|x: int, y: int|
            in_bounds(final(grid)@, x, y) && kind_at(final(grid)@, x, y) == TileType::Wall
                ==> has_floor_neighbor(final(grid)@, x, y),
{
    let ghost g0 = grid@;
    let mut x: usize = 0;
    while x < width
        invariant
            grid.wf(),
            grid.spec_width() == grid_width(g0),
            grid.spec_height() == grid_height(g0),
            width == grid_width(g0),
            height == grid_height(g0),
            x <= width,
            forall|xi: int, yi: int|
                in_bounds(g0, xi, yi) ==> grid@[yi][xi] == (if xi < x && kind_at(g0, xi, yi)
                    == TileType::Wall && !has_floor_neighbor(g0, xi, yi) {
                    Tile { tile_type: TileType::Empty, render_hint: g0[yi][xi].render_hint }
                } else {
                    g0[yi][xi]
                }),
        decreases width - x,
    {
        let mut y: usize = 0;
        while y < height
            invariant
                grid.wf(),
                grid.spec_width() == grid_width(g0),
                grid.spec_height() == grid_height(g0),
                width == grid_width(g0),
                height == grid_height(g0),
                x < width,
                y <= height,
                forall|xi: int, yi: int|
                    in_bounds(g0, xi, yi) ==> grid@[yi][xi] == (if (xi < x || (xi == x && yi < y))
                        && kind_at(g0, xi, yi) == TileType::Wall && !has_floor_neighbor(
                        g0,
                        xi,
                        yi,
                    ) {
                        Tile { tile_type: TileType::Empty, render_hint: g0[yi][xi].render_hint }
                    } else {
                        g0[yi][xi]
                    }),
            decreases height - y,
        {
            proof {
                assert forall|xi: int, yi: int| in_bounds(g0, xi, yi) implies (kind_at(
                    grid@,
                    xi,
                    yi,
                ) == TileType::Floor <==> kind_at(g0, xi, yi) == TileType::Floor) by {
                    assert(grid@[yi][xi] == g0[yi][xi] || grid@[yi][xi] == (Tile {
                        tile_type: TileType::Empty,
                        render_hint: g0[yi][xi].render_hint,
                    }));
                }
            }
            let mut keep = false;
            if y != 0 {
                if matches!(grid.at(x, y - 1).tile_type, TileType::Floor) {
                    keep = true;
                }
            }
            if y != height - 1 {
                if matches!(grid.at(x, y + 1).tile_type, TileType::Floor) {
                    keep = true;
                }
            }
            if x != 0 {
                if matches!(grid.at(x - 1, y).tile_type, TileType::Floor) {
                    keep = true;
                }
            }
            if x != width - 1 {
                if matches!(grid.at(x + 1, y).tile_type, TileType::Floor) {
                    keep = true;
                }
            }
            proof {
                assert(keep == has_floor_neighbor(g0, x as int, y as int));
            }
            if !keep {
                let t = grid.at(x, y);
                if matches!(t.tile_type, TileType::Wall) {
                    grid.set(
                        x,
                        y,
                        Tile { tile_type: TileType::Empty, render_hint: t.render_hint },
                    );
                }
            }
            y += 1;
        }
        x += 1;
    }
    proof {
        let g2 = grid@;
        assert forall|p: (int, int)| is_floor(g2, p) <==> is_floor(g0, p) by {
            if in_bounds(g0, p.0, p.1) {
                assert(g2[p.1][p.0] == g0[p.1][p.0] || g2[p.1][p.0] == (Tile {
                    tile_type: TileType::Empty,
                    render_hint: g0[p.1][p.0].render_hint,
                }));
            }
        }
        assert forall|x: int, y: int|
            in_bounds(g2, x, y) && kind_at(g2, x, y) == TileType::Wall implies has_floor_neighbor(
            g2,
            x,
            y,
        ) by {
            assert(in_bounds(g0, x, y));
            assert(kind_at(g0, x, y) == TileType::Wall && has_floor_neighbor(g0, x, y));
            if y > 0 && kind_at(g0, x, y - 1) == TileType::Floor {
                assert(kind_at(g2, x, y - 1) == TileType::Floor);
            } else if y < grid_height(g0) - 1 && kind_at(g0, x, y + 1) == TileType::Floor {
                assert(kind_at(g2, x, y + 1) == TileType::Floor);
            } else if x > 0 && kind_at(g0, x - 1, y) == TileType::Floor {
                assert(kind_at(g2, x - 1, y) == TileType::Floor);
            } else {
                assert(kind_at(g2, x + 1, y) == TileType::Floor);
            }
        }
    }
}

} // verus!

verus! {

/// A room that fits the grid with its one-cell margin and whose extents lie
/// within the configured size band.
pub open spec fn room_fits(room: Room, g: Seq<Seq<Tile>>, min: int, max: int) -> bool {
    &&& room.wf()
    &&& room.x2 + 2 <= grid_width(g)
    &&& room.y2 + 2 <= grid_height(g)
    &&& min <= room.x2 - room.x1 <= max
    &&& min <= room.y2 - room.y1 <= max
}

/// Whether `p` keeps one cell of clearance from every grid boundary.
pub open spec fn in_margin_box(g: Seq<Seq<Tile>>, p: (int, int)) -> bool {
    1 <= p.0 < grid_width(g) - 1 && 1 <= p.1 < grid_height(g) - 1
}

/// An L-shaped floor corridor joins `a` to `b`: through one of the two
/// candidate elbows, every cell of both axis-aligned legs is Floor.
pub open spec fn l_tunnel_floor(g: Seq<Seq<Tile>>, a: (int, int), b: (int, int)) -> bool {
    exists|c: (int, int)|
        crate::room::tunnel_elbow(c, a, b) && #[trigger] crate::room::segment_floor(g, a, c)
            && crate::room::segment_floor(g, c, b)
}

/// Each accepted room after the first is joined by an L-shaped floor
/// corridor to the immediately previously accepted room: the centers form a
/// path graph in acceptance order.
pub open spec fn rooms_chained(rooms: Seq<Room>, g: Seq<Seq<Tile>>) -> bool {
    forall|i: int|
        1 <= i < rooms.len() ==> l_tunnel_floor(
            g,
            ((#[trigger] rooms[i]).center.0 as int, rooms[i].center.1 as int),
            (rooms[i - 1].center.0 as int, rooms[i - 1].center.1 as int),
        )
}

/// Corridors stay walkable when floor is only added.
proof fn lemma_chained_monotone(rooms: Seq<Room>, g1: Seq<Seq<Tile>>, g2: Seq<Seq<Tile>>)
    requires
        rooms_chained(rooms, g1),
        forall|p: (int, int)| is_floor(g1, p) ==> is_floor(g2, p),
    ensures
        rooms_chained(rooms, g2),
{
    assert forall|i: int| 1 <= i < rooms.len() implies l_tunnel_floor(
        g2,
        ((#[trigger] rooms[i]).center.0 as int, rooms[i].center.1 as int),
        (rooms[i - 1].center.0 as int, rooms[i - 1].center.1 as int),
    ) by {
        let a: (int, int) = (rooms[i].center.0 as int, rooms[i].center.1 as int);
        let b: (int, int) = (rooms[i - 1].center.0 as int, rooms[i - 1].center.1 as int);
        let c = choose|c: (int, int)|
            crate::room::tunnel_elbow(c, a, b) && #[trigger] crate::room::segment_floor(g1, a, c)
                && crate::room::segment_floor(g1, c, b);
        assert(crate::room::segment_floor(g2, a, c)) by {
            assert forall|q: (int, int)| #[trigger] crate::room::on_segment(q, a, c) implies is_floor(
                g2,
                q,
            ) by {
                assert(is_floor(g1, q));
            }
        }
        assert(crate::room::segment_floor(g2, c, b)) by {
            assert forall|q: (int, int)| #[trigger] crate::room::on_segment(q, c, b) implies is_floor(
                g2,
                q,
            ) by {
                assert(is_floor(g1, q));
            }
        }
    }
}

/// Accepted rooms pairwise do not overlap, their wall borders included.
pub open spec fn rooms_disjoint(rooms: Seq<Room>) -> bool {
    forall|i: int, j: int|
        #![trigger rooms[i].spec_intersects(rooms[j])]
        0 <= i < rooms.len() && 0 <= j < rooms.len() && i != j ==> !rooms[i].spec_intersects(
            rooms[j],
        )
}

/// Every cell of every accepted room's open interior is Floor.
pub open spec fn rooms_interiors_floor(rooms: Seq<Room>, g: Seq<Seq<Tile>>) -> bool {
    forall|i: int, p: (int, int)|
        0 <= i < rooms.len() && (#[trigger] rooms[i].in_interior(p)) ==> is_floor(g, p)
}

/// Every accepted room's center is Floor and walkably reachable from the
/// spawn cell.
pub open spec fn rooms_centers_connected(rooms: Seq<Room>, g: Seq<Seq<Tile>>, spawn: (int, int)) -> bool {
    forall|i: int|
        0 <= i < rooms.len() ==> is_floor(
            g,
            ((#[trigger] rooms[i]).center.0 as int, rooms[i].center.1 as int),
        ) && reach(g, spawn, (rooms[i].center.0 as int, rooms[i].center.1 as int))
}

/// Rooms whose centers the spawn reaches stay connected when floor is only
/// added.
proof fn lemma_centers_connected_monotone(
    rooms: Seq<Room>,
    g1: Seq<Seq<Tile>>,
    g2: Seq<Seq<Tile>>,
    spawn: (int, int),
)
    requires
        rooms_centers_connected(rooms, g1, spawn),
        forall|p: (int, int)| is_floor(g1, p) ==> is_floor(g2, p),
    ensures
        rooms_centers_connected(rooms, g2, spawn),
{
    assert forall|i: int| 0 <= i < rooms.len() implies is_floor(
        g2,
        ((#[trigger] rooms[i]).center.0 as int, rooms[i].center.1 as int),
    ) && reach(g2, spawn, (rooms[i].center.0 as int, rooms[i].center.1 as int)) by {
        let c = (rooms[i].center.0 as int, rooms[i].center.1 as int);
        lemma_reach_monotone(g1, g2, spawn, c);
    }
}

} // verus!

verus! {

/// Accepting the first room: stamping it into the untouched grid leaves
/// exactly its interior as new floor, all of it reachable from its center.
proof fn lemma_first_accept(g0: Seq<Seq<Tile>>, g_fill: Seq<Seq<Tile>>, new_room: Room)
    requires
        new_room.wf(),
        new_room.x2 - new_room.x1 >= 2,
        new_room.y2 - new_room.y1 >= 2,
        new_room.x2 + 2 <= grid_width(g0),
        new_room.y2 + 2 <= grid_height(g0),
        grid_width(g_fill) == grid_width(g0),
        grid_height(g_fill) == grid_height(g0),
        forall|x: int, y: int|
            in_bounds(g0, x, y) ==> g_fill[y][x] == (if new_room.in_interior((x, y)) {
                crate::room::tile_floored(g0[y][x])
            } else {
                g0[y][x]
            }),
    ensures
        is_floor(g_fill, (new_room.center.0 as int, new_room.center.1 as int)),
        reach(
            g_fill,
            (new_room.center.0 as int, new_room.center.1 as int),
            (new_room.center.0 as int, new_room.center.1 as int),
        ),
        forall|p: (int, int)| #[trigger] new_room.in_interior(p) ==> is_floor(g_fill, p),
        floors_connected_from(g0, g_fill, (new_room.center.0 as int, new_room.center.1 as int)),
        crate::room::tiles_or_floored(g0, g_fill),
        floors_monotone(g0, g_fill),
        forall|p: (int, int)| is_floor(g_fill, p) ==> is_floor(g0, p) || in_margin_box(g0, p),
    {
    let nc: (int, int) = (new_room.center.0 as int, new_room.center.1 as int);
    new_room.lemma_center_in_interior();
    assert forall|p: (int, int)| #[trigger] new_room.in_interior(p) implies is_floor(g_fill, p) by {
        assert(in_bounds(g0, p.0, p.1));
    }
    new_room.lemma_interior_reach(g_fill);
    assert forall|p: (int, int)| is_floor(g_fill, p) implies is_floor(g0, p) || reach(
        g_fill,
        nc,
        p,
    ) by {
        assert(in_bounds(g0, p.0, p.1));
        if !new_room.in_interior(p) {
            assert(g_fill[p.1][p.0] == g0[p.1][p.0]);
        }
    }
    assert forall|p: (int, int)| is_floor(g0, p) implies is_floor(g_fill, p) by {
        assert(in_bounds(g0, p.0, p.1));
    }
    assert forall|p: (int, int)| is_floor(g_fill, p) implies is_floor(g0, p) || in_margin_box(
        g0,
        p,
    ) by {
        assert(in_bounds(g0, p.0, p.1));
        if !new_room.in_interior(p) {
            assert(g_fill[p.1][p.0] == g0[p.1][p.0]);
        }
    }
}

/// Accepting a later room: stamping it and tunnel-chaining it to the
/// previously accepted room keeps every floor cell reachable from the
/// spawn, extends the accepted rooms' floor, center and corridor facts, and
/// keeps all floor clear of the grid boundary.
#[verifier::rlimit(100)]
proof fn lemma_chain_accept(
    g0: Seq<Seq<Tile>>,
    g_pre: Seq<Seq<Tile>>,
    g_fill: Seq<Seq<Tile>>,
    g_tun: Seq<Seq<Tile>>,
    rooms: Seq<Room>,
    new_room: Room,
    last: Room,
    spawn: (int, int),
)
    requires
        grid_width(g_pre) == grid_width(g0),
        grid_height(g_pre) == grid_height(g0),
        grid_width(g_fill) == grid_width(g0),
        grid_height(g_fill) == grid_height(g0),
        grid_width(g_tun) == grid_width(g0),
        grid_height(g_tun) == grid_height(g0),
        rooms.len() >= 1,
        last == rooms[rooms.len() - 1],
        rooms_interiors_floor(rooms, g_pre),
        rooms_centers_connected(rooms, g_pre, spawn),
        floors_monotone(g0, g_pre),
        floors_connected_from(g0, g_pre, spawn),
        new_room.wf(),
        new_room.x2 - new_room.x1 >= 2,
        new_room.y2 - new_room.y1 >= 2,
        new_room.x2 + 2 <= grid_width(g0),
        new_room.y2 + 2 <= grid_height(g0),
        last.wf(),
        last.x2 - last.x1 >= 2,
        last.y2 - last.y1 >= 2,
        last.x2 + 2 <= grid_width(g0),
        last.y2 + 2 <= grid_height(g0),
        rooms_chained(rooms, g_pre),
        forall|p: (int, int)| is_floor(g_pre, p) ==> is_floor(g0, p) || in_margin_box(g0, p),
        forall|x: int, y: int|
            in_bounds(g_pre, x, y) ==> g_fill[y][x] == (if new_room.in_interior((x, y)) {
                crate::room::tile_floored(g_pre[y][x])
            } else {
                g_pre[y][x]
            }),
        crate::room::tiles_or_floored(g_fill, g_tun),
        floors_monotone(g_fill, g_tun),
        floors_connected_from(
            g_fill,
            g_tun,
            (new_room.center.0 as int, new_room.center.1 as int),
        ),
        is_floor(g_tun, (new_room.center.0 as int, new_room.center.1 as int)),
        is_floor(g_tun, (last.center.0 as int, last.center.1 as int)),
        reach(
            g_tun,
            (new_room.center.0 as int, new_room.center.1 as int),
            (last.center.0 as int, last.center.1 as int),
        ),
        exists|c: (int, int)|
            crate::room::tunnel_elbow(
                c,
                (new_room.center.0 as int, new_room.center.1 as int),
                (last.center.0 as int, last.center.1 as int),
            ) && #[trigger] crate::room::changes_on_l_path(
                g_fill,
                g_tun,
                (new_room.center.0 as int, new_room.center.1 as int),
                c,
                (last.center.0 as int, last.center.1 as int),
            ) && crate::room::segment_floor(
                g_tun,
                (new_room.center.0 as int, new_room.center.1 as int),
                c,
            ) && crate::room::segment_floor(
                g_tun,
                c,
                (last.center.0 as int, last.center.1 as int),
            ),
    ensures
        rooms_interiors_floor(rooms.push(new_room), g_tun),
        rooms_centers_connected(rooms.push(new_room), g_tun, spawn),
        rooms_chained(rooms.push(new_room), g_tun),
        floors_monotone(g0, g_tun),
        floors_connected_from(g0, g_tun, spawn),
        crate::room::tiles_or_floored(g_pre, g_tun),
        forall|p: (int, int)| is_floor(g_tun, p) ==> is_floor(g0, p) || in_margin_box(g0, p),
{
    let nc: (int, int) = (new_room.center.0 as int, new_room.center.1 as int);
    let lc: (int, int) = (last.center.0 as int, last.center.1 as int);
    new_room.lemma_center_in_interior();
    assert forall|p: (int, int)| #[trigger] new_room.in_interior(p) implies is_floor(g_fill, p) by {
        assert(in_bounds(g_pre, p.0, p.1));
    }
    assert forall|p: (int, int)| is_floor(g_pre, p) implies is_floor(g_fill, p) by {
        assert(in_bounds(g_pre, p.0, p.1));
    }
    assert(crate::room::tiles_or_floored(g_pre, g_fill)) by {
        assert forall|x: int, y: int| in_bounds(g_pre, x, y) implies g_fill[y][x] == g_pre[y][x]
            || g_fill[y][x] == crate::room::tile_floored(g_pre[y][x]) by {}
    }
    crate::room::lemma_tiles_or_floored_trans(g_pre, g_fill, g_tun);
    // the spawn reaches the new center through the previous center
    assert(is_floor(g_pre, lc) && reach(g_pre, spawn, lc));
    lemma_reach_monotone(g_pre, g_fill, spawn, lc);
    lemma_reach_monotone(g_fill, g_tun, spawn, lc);
    lemma_reach_symm(g_tun, nc, lc);
    lemma_reach_trans(g_tun, spawn, lc, nc);
    // every floor cell traces back to the spawn
    new_room.lemma_interior_reach(g_fill);
    assert forall|p: (int, int)| is_floor(g_tun, p) implies is_floor(g0, p) || reach(
        g_tun,
        spawn,
        p,
    ) by {
        if is_floor(g_fill, p) {
            if new_room.in_interior(p) {
                lemma_reach_monotone(g_fill, g_tun, nc, p);
                lemma_reach_trans(g_tun, spawn, nc, p);
            } else {
                assert(in_bounds(g_pre, p.0, p.1));
                assert(g_fill[p.1][p.0] == g_pre[p.1][p.0]);
                assert(is_floor(g_pre, p));
                if !is_floor(g0, p) {
                    lemma_reach_monotone(g_pre, g_fill, spawn, p);
                    lemma_reach_monotone(g_fill, g_tun, spawn, p);
                }
            }
        } else {
            lemma_reach_trans(g_tun, spawn, nc, p);
        }
    }
    // the accepted rooms' interiors and centers carry over, the new room's
    // join them
    assert forall|i: int, p: (int, int)|
        0 <= i < rooms.push(new_room).len() && (#[trigger] rooms.push(new_room)[i].in_interior(
            p,
        )) implies is_floor(g_tun, p) by {
        if i < rooms.len() {
            assert(rooms.push(new_room)[i] == rooms[i]);
            assert(is_floor(g_pre, p));
        } else {
            assert(rooms.push(new_room)[i] == new_room);
        }
    }
    lemma_centers_connected_monotone(rooms, g_pre, g_fill, spawn);
    lemma_centers_connected_monotone(rooms, g_fill, g_tun, spawn);
    assert forall|i: int| 0 <= i < rooms.push(new_room).len() implies is_floor(
        g_tun,
        ((#[trigger] rooms.push(new_room)[i]).center.0 as int, rooms.push(
            new_room,
        )[i].center.1 as int),
    ) && reach(
        g_tun,
        spawn,
        (rooms.push(new_room)[i].center.0 as int, rooms.push(new_room)[i].center.1 as int),
    ) by {
        if i < rooms.len() {
            assert(rooms.push(new_room)[i] == rooms[i]);
        } else {
            assert(rooms.push(new_room)[i] == new_room);
        }
    }
    // the corridor chain extends by exactly one link
    let c = choose|c: (int, int)|
        crate::room::tunnel_elbow(c, nc, lc) && #[trigger] crate::room::changes_on_l_path(
            g_fill,
            g_tun,
            nc,
            c,
            lc,
        ) && crate::room::segment_floor(g_tun, nc, c) && crate::room::segment_floor(g_tun, c, lc);
    assert(l_tunnel_floor(g_tun, nc, lc));
    lemma_chained_monotone(rooms, g_pre, g_fill);
    lemma_chained_monotone(rooms, g_fill, g_tun);
    assert forall|i: int| 1 <= i < rooms.push(new_room).len() implies l_tunnel_floor(
        g_tun,
        ((#[trigger] rooms.push(new_room)[i]).center.0 as int, rooms.push(
            new_room,
        )[i].center.1 as int),
        (rooms.push(new_room)[i - 1].center.0 as int, rooms.push(new_room)[i - 1].center.1 as int),
    ) by {
        if i < rooms.len() {
            assert(rooms.push(new_room)[i] == rooms[i]);
            assert(rooms.push(new_room)[i - 1] == rooms[i - 1]);
        } else {
            assert(rooms.push(new_room)[i] == new_room);
            assert(rooms.push(new_room)[i - 1] == last);
        }
    }
    // every floor cell keeps one cell of clearance from the boundary: room
    // interiors do by the placement margins, and the corridor runs between
    // two interior centers
    last.lemma_center_in_interior();
    assert(in_margin_box(g0, nc));
    assert(in_margin_box(g0, lc));
    assert(in_margin_box(g0, c));
    assert forall|p: (int, int)| is_floor(g_tun, p) implies is_floor(g0, p) || in_margin_box(
        g0,
        p,
    ) by {
        if is_floor(g_fill, p) {
            assert(in_bounds(g_pre, p.0, p.1));
            if !new_room.in_interior(p) {
                assert(g_fill[p.1][p.0] == g_pre[p.1][p.0]);
                assert(is_floor(g_pre, p));
            }
        } else {
            assert(in_bounds(g_fill, p.0, p.1));
            assert(g_tun[p.1][p.0] != g_fill[p.1][p.0]);
            assert(crate::room::on_segment(p, nc, c) || crate::room::on_segment(p, c, lc));
        }
    }
}

} // verus!

verus! {

/// Place up to `max_rooms` rooms by rejection sampling: each attempt draws
/// an extent within the size band and a position that keeps a one-cell
/// margin, and is discarded — consuming the attempt — when it overlaps any
/// accepted room. An accepted room is stamped to floor; each one after the
/// first is tunnel-chained to the immediately previously accepted room, so
/// the centers form a path graph in acceptance order. The first accepted
/// room's center becomes the player spawn; with no accepted room the spawn
/// stays at the grid origin and the grid is untouched. All carved floor
/// keeps one cell of clearance from the grid boundary.
#[verifier::rlimit(100)]
pub fn place_rooms(
    grid: &mut Grid,
    max_rooms: usize,
    room_min_size: usize,
    room_max_size: usize,
) -> (r: (Vec<Room>, (usize, usize)))
    requires
        old(grid).wf(),
        2 <= room_min_size <= room_max_size,
        room_max_size + 2 <= old(grid).spec_width(),
        room_max_size + 2 <= old(grid).spec_height(),
        old(grid).spec_width() <= MAP_DIM_LIMIT,
        old(grid).spec_height() <= MAP_DIM_LIMIT,
    ensures
        final(grid).wf(),
        final(grid).spec_width() == old(grid).spec_width(),
        final(grid).spec_height() == old(grid).spec_height(),
        forall|i: int|
            0 <= i < r.0@.len() ==> room_fits(
                #[trigger] r.0@[i],
                old(grid)@,
                room_min_size as int,
                room_max_size as int,
            ),
        rooms_disjoint(r.0@),
        rooms_interiors_floor(r.0@, final(grid)@),
        rooms_centers_connected(r.0@, final(grid)@, (r.1.0 as int, r.1.1 as int)),
        max_rooms >= 1 ==> r.0@.len() >= 1,
        r.0@.len() >= 1 ==> r.1 == r.0@[0].center,
        r.0@.len() == 0 ==> r.1 == ((0usize, 0usize)) && final(grid)@ == old(grid)@,
        crate::room::tiles_or_floored(old(grid)@, final(grid)@),
        floors_monotone(old(grid)@, final(grid)@),
        floors_connected_from(old(grid)@, final(grid)@, (r.1.0 as int, r.1.1 as int)),
        rooms_chained(r.0@, final(grid)@),
        forall|p: (int, int)|
            is_floor(final(grid)@, p) ==> is_floor(old(grid)@, p) || in_margin_box(old(grid)@, p),
{
    let ghost g0 = grid@;
    let width = grid.width();
    let height = grid.height();

    let mut player_position: (usize, usize) = (0, 0);
    let mut rooms: Vec<Room> = Vec::new();

    let mut attempt: usize = 0;
    while attempt < max_rooms
        invariant
            grid.wf(),
            grid.spec_width() == grid_width(g0),
            grid.spec_height() == grid_height(g0),
            width == grid_width(g0),
            height == grid_height(g0),
            2 <= room_min_size <= room_max_size,
            room_max_size + 2 <= width,
            room_max_size + 2 <= height,
            width <= MAP_DIM_LIMIT,
            height <= MAP_DIM_LIMIT,
            attempt <= max_rooms,
            forall|i: int|
                0 <= i < rooms@.len() ==> room_fits(
                    #[trigger] rooms@[i],
                    g0,
                    room_min_size as int,
                    room_max_size as int,
                ),
            rooms_disjoint(rooms@),
            rooms_interiors_floor(rooms@, grid@),
            rooms_centers_connected(
                rooms@,
                grid@,
                (player_position.0 as int, player_position.1 as int),
            ),
            attempt >= 1 ==> rooms@.len() >= 1,
            rooms@.len() >= 1 ==> player_position == rooms@[0].center,
            rooms@.len() == 0 ==> player_position == ((0usize, 0usize)) && grid@ == g0,
            crate::room::tiles_or_floored(g0, grid@),
            floors_monotone(g0, grid@),
            floors_connected_from(
                g0,
                grid@,
                (player_position.0 as int, player_position.1 as int),
            ),
            rooms_chained(rooms@, grid@),
            forall|p: (int, int)|
                is_floor(grid@, p) ==> is_floor(g0, p) || in_margin_box(g0, p),
        decreases max_rooms - attempt,
    {
        let room_width = crate::rng::rand_below(room_min_size, room_max_size + 1);
        let room_height = crate::rng::rand_below(room_min_size, room_max_size + 1);

        let x = crate::rng::rand_below(0, width - room_width - 1);
        let y = crate::rng::rand_below(0, height - room_height - 1);

        let new_room = Room::new(x, y, room_width, room_height);

        let mut intersection_found = false;
        let mut i: usize = 0;
        while i < rooms.len()
            invariant
                i <= rooms@.len(),
                intersection_found == exists|j: int|
                    0 <= j < i && (#[trigger] rooms@[j]).spec_intersects(new_room),
            decreases rooms@.len() - i,
        {
            if rooms[i].intersects(&new_room) {
                intersection_found = true;
            }
            i += 1;
        }

        if !intersection_found {
            let ghost g_pre = grid@;
            let ghost rooms_pre = rooms@;
            let ghost spawn_pre: (int, int) = (
                player_position.0 as int,
                player_position.1 as int,
            );
            new_room.fill_grid(grid);
            let ghost g_fill = grid@;

            if rooms.len() == 0 {
                player_position = new_room.center;
                proof {
                    lemma_first_accept(g0, g_fill, new_room);
                }
            } else {
                let last = rooms[rooms.len() - 1];
                proof {
                    let lc: (int, int) = (last.center.0 as int, last.center.1 as int);
                    assert(is_floor(g_pre, lc));
                    assert(is_floor(g_fill, lc));
                    new_room.lemma_center_in_interior();
                    assert(in_bounds(g_fill, new_room.center.0 as int, new_room.center.1 as int));
                }
                new_room.create_tunnel(grid, &last);
                proof {
                    lemma_chain_accept(
                        g0,
                        g_pre,
                        g_fill,
                        grid@,
                        rooms_pre,
                        new_room,
                        last,
                        spawn_pre,
                    );
                    crate::room::lemma_tiles_or_floored_trans(g0, g_pre, grid@);
                }
            }
            proof {
                // pairwise disjointness extends to the accepted room
                assert forall|j: int| 0 <= j < rooms_pre.len() implies !new_room.spec_intersects(
                    #[trigger] rooms_pre[j],
                ) && !rooms_pre[j].spec_intersects(new_room) by {}
            }
            rooms.push(new_room);
            proof {
                assert(rooms@ == rooms_pre.push(new_room));
                assert(rooms@[0] == (if rooms_pre.len() == 0 {
                    new_room
                } else {
                    rooms_pre[0]
                }));
                if rooms_pre.len() == 0 {
                    let spawn: (int, int) = (
                        player_position.0 as int,
                        player_position.1 as int,
                    );
                    assert(rooms_chained(rooms@, grid@));
                    assert(rooms_interiors_floor(rooms@, grid@)) by {
                        assert forall|i2: int, p: (int, int)|
                            0 <= i2 < rooms@.len() && (#[trigger] rooms@[i2].in_interior(
                                p,
                            )) implies is_floor(grid@, p) by {
                            assert(rooms@[i2] == new_room);
                        }
                    }
                    assert(rooms_centers_connected(rooms@, grid@, spawn)) by {
                        assert forall|i2: int| 0 <= i2 < rooms@.len() implies is_floor(
                            grid@,
                            ((#[trigger] rooms@[i2]).center.0 as int, rooms@[i2].center.1 as int),
                        ) && reach(
                            grid@,
                            spawn,
                            (rooms@[i2].center.0 as int, rooms@[i2].center.1 as int),
                        ) by {
                            assert(rooms@[i2] == new_room);
                        }
                    }
                }
                assert(rooms_disjoint(rooms@)) by {
                    assert forall|i2: int, j2: int|
                        #![trigger rooms@[i2].spec_intersects(rooms@[j2])]
                        0 <= i2 < rooms@.len() && 0 <= j2 < rooms@.len() && i2
                            != j2 implies !rooms@[i2].spec_intersects(rooms@[j2]) by {
                        if i2 < rooms_pre.len() && j2 < rooms_pre.len() {
                            assert(rooms@[i2] == rooms_pre[i2] && rooms@[j2] == rooms_pre[j2]);
                        } else if i2 < rooms_pre.len() {
                            assert(rooms@[i2] == rooms_pre[i2] && rooms@[j2] == new_room);
                        } else {
                            assert(rooms@[i2] == new_room && rooms@[j2] == rooms_pre[j2]);
                        }
                    }
                }
            }
        }
        attempt += 1;
    }
    (rooms, player_position)
}

} // verus!

verus! {

/// What the population pass guarantees of every spawned monster: it stands
/// on a Floor cell, inside the open interior of one of the accepted rooms,
/// and bears one of the two monster kinds.
pub open spec fn monster_spawn_ok(m: MonsterInMap, rooms: Seq<Room>, g: Seq<Seq<Tile>>) -> bool {
    &&& is_floor(g, (m.position.0 as int, m.position.1 as int))
    &&& exists|j: int|
        0 <= j < rooms.len() && #[trigger] rooms[j].in_interior(
            (m.position.0 as int, m.position.1 as int),
        )
    &&& (m.monster_type == MonsterType::Orc || m.monster_type == MonsterType::Troll)
}

/// Scatter monsters over the accepted rooms: each room independently draws
/// a count up to the per-room budget and, for each monster, a position
/// uniform over its open interior and a kind from the 80/20 Orc/Troll
/// split. At most `rooms.len() * max_monsters_per_room` monsters come back,
/// each on a Floor cell inside an accepted room's open interior.
pub fn add_monsters(grid: &Grid, rooms: &Vec<Room>, max_monsters_per_room: usize) -> (r: Vec<
    MonsterInMap,
>)
    requires
        grid.wf(),
        max_monsters_per_room < usize::MAX,
        forall|i: int|
            0 <= i < rooms@.len() ==> (#[trigger] rooms@[i]).wf() && rooms@[i].x2 - rooms@[i].x1
                >= 2 && rooms@[i].y2 - rooms@[i].y1 >= 2,
        rooms_interiors_floor(rooms@, grid@),
    ensures
        r@.len() <= rooms@.len() * max_monsters_per_room,
        forall|k: int| 0 <= k < r@.len() ==> monster_spawn_ok(#[trigger] r@[k], rooms@, grid@),
{
    let mut monsters: Vec<MonsterInMap> = Vec::new();

    let mut i: usize = 0;
    while i < rooms.len()
        invariant
            grid.wf(),
            max_monsters_per_room < usize::MAX,
            i <= rooms@.len(),
            forall|j: int|
                0 <= j < rooms@.len() ==> (#[trigger] rooms@[j]).wf() && rooms@[j].x2
                    - rooms@[j].x1 >= 2 && rooms@[j].y2 - rooms@[j].y1 >= 2,
            rooms_interiors_floor(rooms@, grid@),
            monsters@.len() <= i * max_monsters_per_room,
            forall|k: int|
                0 <= k < monsters@.len() ==> monster_spawn_ok(
                    #[trigger] monsters@[k],
                    rooms@,
                    grid@,
                ),
        decreases rooms@.len() - i,
    {
        let room = rooms[i];
        let monsters_per_room = crate::rng::rand_below(0, max_monsters_per_room + 1);
        let mut n: usize = 0;
        while n < monsters_per_room
            invariant
                grid.wf(),
                n <= monsters_per_room,
                monsters_per_room <= max_monsters_per_room,
                room.wf(),
                room.x2 - room.x1 >= 2,
                room.y2 - room.y1 >= 2,
                0 <= i < rooms@.len(),
                room == rooms@[i as int],
                rooms_interiors_floor(rooms@, grid@),
                monsters@.len() <= i * max_monsters_per_room + n,
                forall|k: int|
                    0 <= k < monsters@.len() ==> monster_spawn_ok(
                        #[trigger] monsters@[k],
                        rooms@,
                        grid@,
                    ),
            decreases monsters_per_room - n,
        {
            let monster_type: MonsterType = if crate::rng::rand_below(0, 100) < 80 {
                MonsterType::Orc
            } else {
                MonsterType::Troll
            };
            let position = (
                crate::rng::rand_below(room.x1 + 1, room.x2),
                crate::rng::rand_below(room.y1 + 1, room.y2),
            );
            proof {
                assert(rooms@[i as int].in_interior((position.0 as int, position.1 as int)));
                let m = MonsterInMap { monster_type, position };
                assert(m.position == position);
                assert(rooms@[i as int].in_interior((m.position.0 as int, m.position.1 as int)));
                assert(exists|j: int|
                    0 <= j < rooms@.len() && #[trigger] rooms@[j].in_interior(
                        (m.position.0 as int, m.position.1 as int),
                    ));
                assert(monster_spawn_ok(m, rooms@, grid@));
            }
            monsters.push(MonsterInMap { monster_type, position });
            n += 1;
        }
        proof {
            assert(i * max_monsters_per_room + max_monsters_per_room == (i + 1)
                * max_monsters_per_room) by (nonlinear_arith);
        }
        i += 1;
    }
    monsters
}

/// What the population pass guarantees of every spawned item: it lies on a
/// Floor cell inside the open interior of one of the accepted rooms.
pub open spec fn item_spawn_ok(it: ItemInMap, rooms: Seq<Room>, g: Seq<Seq<Tile>>) -> bool {
    &&& is_floor(g, (it.position.0 as int, it.position.1 as int))
    &&& exists|j: int|
        0 <= j < rooms.len() && #[trigger] rooms[j].in_interior(
            (it.position.0 as int, it.position.1 as int),
        )
}

/// Scatter items over the accepted rooms: each room independently draws a
/// count up to the per-room budget and, for each item, a position uniform
/// over its open interior and a kind from the 60/40 potion/lightning split.
/// At most `rooms.len() * items_per_room` items come back, each on a Floor
/// cell inside an accepted room's open interior.
pub fn add_items(grid: &Grid, rooms: &Vec<Room>, items_per_room: usize) -> (r: Vec<ItemInMap>)
    requires
        grid.wf(),
        items_per_room < usize::MAX,
        forall|i: int|
            0 <= i < rooms@.len() ==> (#[trigger] rooms@[i]).wf() && rooms@[i].x2 - rooms@[i].x1
                >= 2 && rooms@[i].y2 - rooms@[i].y1 >= 2,
        rooms_interiors_floor(rooms@, grid@),
    ensures
        r@.len() <= rooms@.len() * items_per_room,
        forall|k: int| 0 <= k < r@.len() ==> item_spawn_ok(#[trigger] r@[k], rooms@, grid@),
{
    let mut items: Vec<ItemInMap> = Vec::new();

    let mut i: usize = 0;
    while i < rooms.len()
        invariant
            grid.wf(),
            items_per_room < usize::MAX,
            i <= rooms@.len(),
            forall|j: int|
                0 <= j < rooms@.len() ==> (#[trigger] rooms@[j]).wf() && rooms@[j].x2
                    - rooms@[j].x1 >= 2 && rooms@[j].y2 - rooms@[j].y1 >= 2,
            rooms_interiors_floor(rooms@, grid@),
            items@.len() <= i * items_per_room,
            forall|k: int|
                0 <= k < items@.len() ==> item_spawn_ok(#[trigger] items@[k], rooms@, grid@),
        decreases rooms@.len() - i,
    {
        let room = rooms[i];
        let count = crate::rng::rand_below(0, items_per_room + 1);
        let mut n: usize = 0;
        while n < count
            invariant
                grid.wf(),
                n <= count,
                count <= items_per_room,
                room.wf(),
                room.x2 - room.x1 >= 2,
                room.y2 - room.y1 >= 2,
                0 <= i < rooms@.len(),
                room == rooms@[i as int],
                rooms_interiors_floor(rooms@, grid@),
                items@.len() <= i * items_per_room + n,
                forall|k: int|
                    0 <= k < items@.len() ==> item_spawn_ok(#[trigger] items@[k], rooms@, grid@),
            decreases count - n,
        {
            let position = (
                crate::rng::rand_below(room.x1 + 1, room.x2),
                crate::rng::rand_below(room.y1 + 1, room.y2),
            );
            let item_type = if crate::rng::rand_below(0, 100) < 60 {
                ItemType::HealPotion
            } else {
                ItemType::Lightning
            };
            proof {
                assert(rooms@[i as int].in_interior((position.0 as int, position.1 as int)));
                let it = ItemInMap { item_type, position };
                assert(it.position == position);
                assert(rooms@[i as int].in_interior((it.position.0 as int, it.position.1 as int)));
                assert(exists|j: int|
                    0 <= j < rooms@.len() && #[trigger] rooms@[j].in_interior(
                        (it.position.0 as int, it.position.1 as int),
                    ));
                assert(item_spawn_ok(it, rooms@, grid@));
            }
            items.push(ItemInMap { item_type, position });
            n += 1;
        }
        proof {
            assert(i * items_per_room + items_per_room == (i + 1) * items_per_room)
                by (nonlinear_arith);
        }
        i += 1;
    }
    items
}

} // verus!

verus! {

/// The randomized room-packing strategy without population: random rooms,
/// chained tunnels, wall pruning. An under-populated floor is valid output;
/// a rejected placement consumes one of the `max_rooms` attempts.
pub struct MapGeneratorStart1 {
    pub width: usize,
    pub height: usize,
    pub max_rooms: usize,
    pub room_min_size: usize,
    pub room_max_size: usize,
}

impl MapGeneratorStart1 {
    pub fn new(
        width: usize,
        height: usize,
        max_rooms: usize,
        room_min_size: usize,
        room_max_size: usize,
    ) -> (r: MapGeneratorStart1)
        ensures
            r == (MapGeneratorStart1 { width, height, max_rooms, room_min_size, room_max_size }),
    {
        MapGeneratorStart1 { width, height, max_rooms, room_min_size, room_max_size }
    }
}

impl DungeonGeneratorStrategy for MapGeneratorStart1 {
    open spec fn valid(&self) -> bool {
        &&& 2 <= self.room_min_size <= self.room_max_size
        &&& self.room_max_size + 2 <= self.width
        &&& self.room_max_size + 2 <= self.height
        &&& self.width <= MAP_DIM_LIMIT
        &&& self.height <= MAP_DIM_LIMIT
    }

    fn generate(&self) -> (r: Result<GameMap, GenerationError>)
        ensures
            r is Ok,
            r matches Ok(m) ==> {
                &&& m.width == self.width
                &&& m.height == self.height
                &&& m.center == ((self.width / 2) as usize, (self.height / 2) as usize)
                &&& m.all_floor_connected()
                &&& forall|x: int, y: int|
                    in_bounds(m.grid@, x, y) && kind_at(m.grid@, x, y) == TileType::Wall
                        ==> has_floor_neighbor(m.grid@, x, y)
                &&& forall|p: (int, int)| is_floor(m.grid@, p) ==> in_margin_box(m.grid@, p)
                &&& (self.max_rooms >= 1 ==> is_floor(m.grid@, m.spawn()))
                &&& m.monsters@.len() == 0
                &&& m.items@.len() == 0
            },
    {
        let tile_mapping = TileMapping::new();

        let mut grid = Grid::new(self.width, self.height, TileType::Wall);
        let ghost g0 = grid@;

        let x_center = self.width / 2;
        let y_center = self.height / 2;

        let center = (x_center, y_center);

        let placed = place_rooms(&mut grid, self.max_rooms, self.room_min_size, self.room_max_size);
        let rooms = placed.0;
        let player_position = placed.1;
        let ghost g1 = grid@;

        remove_walls(self.width, self.height, &mut grid);
        proof {
            let g2 = grid@;
            let spawn: (int, int) = (player_position.0 as int, player_position.1 as int);
            assert forall|p: (int, int)| is_floor(g2, p) implies reach(g2, spawn, p)
                && in_margin_box(g2, p) by {
                assert(is_floor(g1, p));
                assert(!is_floor(g0, p));
                assert(reach(g1, spawn, p));
                assert(in_margin_box(g0, p));
                assert(forall|q: (int, int)| is_floor(g1, q) ==> is_floor(g2, q));
                lemma_reach_monotone(g1, g2, spawn, p);
            }
            if self.max_rooms >= 1 {
                assert(rooms@.len() >= 1);
                assert(is_floor(
                    g1,
                    ((rooms@[0]).center.0 as int, rooms@[0].center.1 as int),
                ));
                assert(is_floor(g2, spawn));
            }
        }
        Ok(GameMap {
            grid,
            tile_mapping,
            player_position,
            monsters: Vec::new(),
            items: Vec::new(),
            center,
            width: self.width,
            height: self.height,
        })
    }
}

/// The primary randomized strategy: rooms, tunnels, monsters and items
/// scattered over room interiors, then the wall-pruning pass.
pub struct MapGeneratorStart {
    pub width: usize,
    pub height: usize,
    pub max_rooms: usize,
    pub room_min_size: usize,
    pub room_max_size: usize,
    pub max_monsters_per_room: usize,
    pub max_items_per_room: usize,
}

impl MapGeneratorStart {
    pub fn new(
        width: usize,
        height: usize,
        max_rooms: usize,
        room_min_size: usize,
        room_max_size: usize,
        max_monsters_per_room: usize,
        max_items_per_room: usize,
    ) -> (r: MapGeneratorStart)
        ensures
            r == (MapGeneratorStart {
                width,
                height,
                max_rooms,
                room_min_size,
                room_max_size,
                max_monsters_per_room,
                max_items_per_room,
            }),
    {
        MapGeneratorStart {
            width,
            height,
            max_rooms,
            room_min_size,
            room_max_size,
            max_monsters_per_room,
            max_items_per_room,
        }
    }
}

impl DungeonGeneratorStrategy for MapGeneratorStart {
    open spec fn valid(&self) -> bool {
        &&& 2 <= self.room_min_size <= self.room_max_size
        &&& self.room_max_size + 2 <= self.width
        &&& self.room_max_size + 2 <= self.height
        &&& self.width <= MAP_DIM_LIMIT
        &&& self.height <= MAP_DIM_LIMIT
        &&& self.max_monsters_per_room < usize::MAX
        &&& self.max_items_per_room < usize::MAX
    }

    #[verifier::rlimit(100)]
    fn generate(&self) -> (r: Result<GameMap, GenerationError>)
        ensures
            r is Ok,
            r matches Ok(m) ==> {
                &&& m.width == self.width
                &&& m.height == self.height
                &&& m.center == ((self.width / 2) as usize, (self.height / 2) as usize)
                &&& m.all_floor_connected()
                &&& forall|x: int, y: int|
                    in_bounds(m.grid@, x, y) && kind_at(m.grid@, x, y) == TileType::Wall
                        ==> has_floor_neighbor(m.grid@, x, y)
                &&& forall|k: int|
                    0 <= k < m.monsters@.len() ==> is_floor(
                        m.grid@,
                        (
                            (#[trigger] m.monsters@[k]).position.0 as int,
                            m.monsters@[k].position.1 as int,
                        ),
                    )
                &&& forall|k: int|
                    0 <= k < m.items@.len() ==> is_floor(
                        m.grid@,
                        ((#[trigger] m.items@[k]).position.0 as int, m.items@[k].position.1 as int),
                    )
                &&& forall|p: (int, int)| is_floor(m.grid@, p) ==> in_margin_box(m.grid@, p)
                &&& (self.max_rooms >= 1 ==> is_floor(m.grid@, m.spawn()))
            },
    {
        let tile_mapping = TileMapping::new();

        let mut grid = Grid::new(self.width, self.height, TileType::Wall);
        let ghost g0 = grid@;

        let x_center = self.width / 2;
        let y_center = self.height / 2;

        let center = (x_center, y_center);

        let placed = place_rooms(&mut grid, self.max_rooms, self.room_min_size, self.room_max_size);
        let rooms = placed.0;
        let player_position = placed.1;
        let ghost g1 = grid@;

        let monsters = add_monsters(&grid, &rooms, self.max_monsters_per_room);

        let items = add_items(&grid, &rooms, self.max_items_per_room);

        remove_walls(self.width, self.height, &mut grid);
        proof {
            let g2 = grid@;
            let spawn: (int, int) = (player_position.0 as int, player_position.1 as int);
            assert forall|p: (int, int)| is_floor(g2, p) implies reach(g2, spawn, p)
                && in_margin_box(g2, p) by {
                assert(is_floor(g1, p));
                assert(!is_floor(g0, p));
                assert(reach(g1, spawn, p));
                assert(in_margin_box(g0, p));
                assert(forall|q: (int, int)| is_floor(g1, q) ==> is_floor(g2, q));
                lemma_reach_monotone(g1, g2, spawn, p);
            }
            if self.max_rooms >= 1 {
                assert(rooms@.len() >= 1);
                assert(is_floor(
                    g1,
                    ((rooms@[0]).center.0 as int, rooms@[0].center.1 as int),
                ));
                assert(is_floor(g2, spawn));
            }
            assert forall|k: int| 0 <= k < monsters@.len() implies is_floor(
                g2,
                ((#[trigger] monsters@[k]).position.0 as int, monsters@[k].position.1 as int),
            ) by {
                assert(is_floor(
                    g1,
                    (monsters@[k].position.0 as int, monsters@[k].position.1 as int),
                ));
            }
            assert forall|k: int| 0 <= k < items@.len() implies is_floor(
                g2,
                ((#[trigger] items@[k]).position.0 as int, items@[k].position.1 as int),
            ) by {
                assert(is_floor(g1, (items@[k].position.0 as int, items@[k].position.1 as int)));
            }
        }
        Ok(GameMap {
            grid,
            tile_mapping,
            player_position,
            monsters,
            items,
            center,
            width: self.width,
            height: self.height,
        })
    }
}

impl GameMap {
    /// Parse a textual level. The unique player glyph becomes the spawn and
    /// its cell is rewritten to Floor; an all-whitespace input is rejected
    /// as empty.
    pub fn from_string(map_string: &str) -> (r: Result<GameMap, GenerationError>)
        requires
            map_text_valid(map_string@),
        ensures
            r is Err <==> spec_trim(map_string@).len() == 0,
            r matches Err(e) ==> e == GenerationError::EmptyInput,
            r matches Ok(m) ==> m.wf() && forall|w: int, h: int|
                #[trigger] text_wf(spec_trim(map_string@), w, h) ==> parsed_map_ok(
                    m,
                    spec_trim(map_string@),
                    w,
                    h,
                ),
    {
        let generator = StringMapGenerator { map_string: map_string.to_owned() };
        generator.generate()
    }

    /// Run a generation strategy: the strategy's own contract carries the
    /// map's guarantees.
    pub fn create_dungeon<G: DungeonGeneratorStrategy>(generator: G) -> (r: Result<
        GameMap,
        GenerationError,
    >)
        requires
            generator.valid(),
        ensures
            r matches Ok(m) ==> m.wf(),
    {
        generator.generate()
    }
}

} // verus!

verus! {

/// What a successful parse of the rectangular block `t`, of line width
/// `w` and `h` lines, guarantees about the map.
pub open spec fn parsed_map_ok(m: GameMap, t: Seq<char>, w: int, h: int) -> bool {
    &&& m.width == w
    &&& m.height == h
    &&& m.center.0 == w / 2 && m.center.1 == h / 2
    &&& m.monsters@.len() == 0
    &&& m.items@.len() == 0
    &&& ((forall|k: int| 0 <= k < t.len() ==> t[k] != '@') ==> m.player_position == ((
        0usize,
        0usize,
    )))
    &&& ((exists|k: int| 0 <= k < t.len() && t[k] == '@') ==> m.player_position.0 < w
        && m.player_position.1 < h && cell_glyph(
        t,
        w,
        m.player_position.0 as int,
        m.player_position.1 as int,
    ) == '@')
    &&& forall|x: int, y: int|
        0 <= x < w && 0 <= y < h ==> kind_at(m.grid@, x, y) == (if x
            == m.player_position.0 as int && y == m.player_position.1 as int {
            TileType::Floor
        } else {
            crate::tile::tile_type_of(#[trigger] cell_glyph(t, w, x, y))
        })
}

/// The text-parse strategy: one character per cell, one line per row,
/// resolved through the glyph table; the unique player glyph becomes the
/// spawn and its cell is rewritten to Floor. An all-whitespace input is the
/// one recoverable error.
pub struct StringMapGenerator {
    pub map_string: String,
}

impl StringMapGenerator {
    pub fn new(map_string: &str) -> (r: StringMapGenerator)
        ensures
            r.map_string@ == map_string@,
    {
        StringMapGenerator { map_string: map_string.to_owned() }
    }
}

/// Acceptable map text: once trimmed it is empty, or a rectangular block of
/// known glyphs within the grid size limit; the player glyph occurs at most
/// once.
pub open spec fn map_text_valid(s: Seq<char>) -> bool {
    let t = spec_trim(s);
    &&& (t.len() == 0 || exists|w: int, h: int|
        text_wf(t, w, h) && w <= MAP_DIM_LIMIT && h <= MAP_DIM_LIMIT)
    &&& forall|k1: int, k2: int|
        #![trigger t[k1], t[k2]]
        0 <= k1 < t.len() && 0 <= k2 < t.len() && t[k1] == '@' && t[k2] == '@' ==> k1 == k2
}

impl DungeonGeneratorStrategy for StringMapGenerator {
    open spec fn valid(&self) -> bool {
        map_text_valid(self.map_string@)
    }

    #[verifier::rlimit(100)]
    fn generate(&self) -> (r: Result<GameMap, GenerationError>)
        ensures
            r is Err <==> spec_trim(self.map_string@).len() == 0,
            r matches Err(e) ==> e == GenerationError::EmptyInput,
            r matches Ok(m) ==> forall|w: int, h: int|
                #[trigger] text_wf(spec_trim(self.map_string@), w, h) ==> parsed_map_ok(
                    m,
                    spec_trim(self.map_string@),
                    w,
                    h,
                ),
    {
        let tile_mapping = TileMapping::new();
        let chars = str_chars(self.map_string.as_str());
        let trimmed = trim_chars(&chars);
        let ghost t = trimmed@;

        if trimmed.len() == 0 {
            return Err(GenerationError::EmptyInput);
        }
        let ghost (ws, hs): (int, int) = choose|w: int, h: int|
            text_wf(t, w, h) && w <= MAP_DIM_LIMIT && h <= MAP_DIM_LIMIT;
        proof {
            assert(text_wf(t, ws, hs) && ws <= MAP_DIM_LIMIT && hs <= MAP_DIM_LIMIT);
            assert(t.len() >= ws) by (nonlinear_arith)
                requires
                    t.len() == hs * (ws + 1) - 1,
                    hs >= 1,
                    ws >= 0,
            ;
            assert forall|k: int| 0 <= k < ws implies t[k] != '\n' by {
                assert(k % (ws + 1) == k) by (nonlinear_arith)
                    requires
                        0 <= k < ws,
                ;
            }
            if hs >= 2 {
                assert(t.len() > ws) by (nonlinear_arith)
                    requires
                        t.len() == hs * (ws + 1) - 1,
                        hs >= 2,
                        ws >= 1,
                ;
                assert(ws % (ws + 1) == ws) by (nonlinear_arith)
                    requires
                        ws >= 1,
                ;
                assert(t[ws] == '\n');
            } else {
                assert(t.len() == ws) by (nonlinear_arith)
                    requires
                        hs == 1,
                        t.len() == hs * (ws + 1) - 1,
                ;
            }
        }
        let mut width: usize = 0;
        while width < trimmed.len() && trimmed[width] != '\n'
            invariant
                width <= t.len(),
                t == trimmed@,
                forall|j: int| 0 <= j < width ==> t[j] != '\n',
            decreases t.len() - width,
        {
            width += 1;
        }
        proof {
            assert(width == ws);
            assert(t.len() + 1 == hs * (ws + 1));
            assert((hs * (ws + 1)) / (ws + 1) == hs) by (nonlinear_arith)
                requires
                    ws >= 1,
                    hs >= 1,
            ;
        }
        proof {
            assert(t.len() + 1 <= 1073774592) by (nonlinear_arith)
                requires
                    t.len() == hs * (ws + 1) - 1,
                    1 <= ws <= 32768,
                    1 <= hs <= 32768,
            ;
        }
        let height = (trimmed.len() + 1) / (width + 1);
        proof {
            assert(height == hs);
        }

        let mut grid = Grid::new(width, height, TileType::Empty);
        let mut player_position: (usize, usize) = (0, 0);
        let ghost mut found: bool = false;

        let mut y: usize = 0;
        while y < height
            invariant
                grid.wf(),
                grid.spec_width() == ws,
                grid.spec_height() == hs,
                t == trimmed@,
                text_wf(t, ws, hs),
                width == ws,
                height == hs,
                1 <= ws <= MAP_DIM_LIMIT,
                1 <= hs <= MAP_DIM_LIMIT,
                y <= height,
                forall|xi: int, yi: int|
                    0 <= xi < ws && 0 <= yi < hs && yi < y ==> kind_at(grid@, xi, yi)
                        == crate::tile::tile_type_of(#[trigger] cell_glyph(t, ws, xi, yi)),
                found ==> player_position.0 < ws && player_position.1 < hs && cell_glyph(
                    t,
                    ws,
                    player_position.0 as int,
                    player_position.1 as int,
                ) == '@',
                !found ==> player_position == ((0usize, 0usize)),
                !found ==> forall|xi: int, yi: int|
                    0 <= xi < ws && 0 <= yi < hs && yi < y ==> #[trigger] cell_glyph(
                        t,
                        ws,
                        xi,
                        yi,
                    ) != '@',
            decreases height - y,
        {
            let mut x: usize = 0;
            while x < width
                invariant
                    grid.wf(),
                    grid.spec_width() == ws,
                    grid.spec_height() == hs,
                    t == trimmed@,
                    text_wf(t, ws, hs),
                    width == ws,
                    height == hs,
                    1 <= ws <= MAP_DIM_LIMIT,
                    1 <= hs <= MAP_DIM_LIMIT,
                    y < height,
                    x <= width,
                    forall|xi: int, yi: int|
                        0 <= xi < ws && 0 <= yi < hs && (yi < y || (yi == y && xi < x))
                            ==> kind_at(grid@, xi, yi) == crate::tile::tile_type_of(
                            #[trigger] cell_glyph(t, ws, xi, yi),
                        ),
                    found ==> player_position.0 < ws && player_position.1 < hs && cell_glyph(
                        t,
                        ws,
                        player_position.0 as int,
                        player_position.1 as int,
                    ) == '@',
                    !found ==> player_position == ((0usize, 0usize)),
                    !found ==> forall|xi: int, yi: int|
                        0 <= xi < ws && 0 <= yi < hs && (yi < y || (yi == y && xi < x))
                            ==> #[trigger] cell_glyph(t, ws, xi, yi) != '@',
                decreases width - x,
            {
                proof {
                    assert((y * (ws + 1) + x) < t.len() && (y * (ws + 1) + x) % (ws + 1) == x)
                        by (nonlinear_arith)
                        requires
                            0 <= x < ws,
                            0 <= y < hs,
                            t.len() == hs * (ws + 1) - 1,
                    ;
                    assert(t.len() + 1 <= 1073774592) by (nonlinear_arith)
                        requires
                            t.len() == hs * (ws + 1) - 1,
                            1 <= ws <= 32768,
                            1 <= hs <= 32768,
                    ;
                    assert(y * (width + 1) + x < t.len());
                }
                let idx = y * (width + 1) + x;
                let c = trimmed[idx];
                proof {
                    assert(is_glyph(t[idx as int]));
                    assert(c == cell_glyph(t, ws, x as int, y as int));
                }
                let tt = tile_mapping.get_tile_type(c);
                if c == '@' {
                    player_position = (x, y);
                    proof {
                        found = true;
                    }
                }
                grid.set(x, y, Tile::new(tt));
                x += 1;
            }
            y += 1;
        }

        grid.set(player_position.0, player_position.1, Tile::new(TileType::Floor));

        let x_center = width / 2;
        let y_center = height / 2;
        let center = (x_center, y_center);

        let m = GameMap {
            grid,
            tile_mapping,
            player_position,
            monsters: Vec::new(),
            items: Vec::new(),
            center,
            width,
            height,
        };
        proof {
            let pp: (int, int) = (player_position.0 as int, player_position.1 as int);
            assert forall|w2: int, h2: int| #[trigger] text_wf(t, w2, h2) implies w2 == ws && h2
                == hs by {
                crate::text::lemma_text_wf_unique(t, w2, h2, ws, hs);
            }
            if found {
                assert(0 <= pp.1 * (ws + 1) + pp.0 < t.len()) by (nonlinear_arith)
                    requires
                        0 <= pp.0 < ws,
                        0 <= pp.1 < hs,
                        t.len() == hs * (ws + 1) - 1,
                ;
                assert(t[pp.1 * (ws + 1) + pp.0] == '@');
                assert(exists|k: int| 0 <= k < t.len() && t[k] == '@');
            }
            if exists|k: int| 0 <= k < t.len() && t[k] == '@' {
                let k = choose|k: int| 0 <= k < t.len() && t[k] == '@';
                let xk = k % (ws + 1);
                let yk = k / (ws + 1);
                assert(k == yk * (ws + 1) + xk && 0 <= xk < ws + 1 && 0 <= yk < hs)
                    by (nonlinear_arith)
                    requires
                        0 <= k < t.len(),
                        t.len() == hs * (ws + 1) - 1,
                        ws >= 1,
                        hs >= 1,
                        xk == k % (ws + 1),
                        yk == k / (ws + 1),
                ;
                assert(t[k] != '\n');
                assert(xk != ws);
                assert(cell_glyph(t, ws, xk, yk) == '@');
                assert(found);
            }
            assert(parsed_map_ok(m, t, ws, hs)) by {
                assert forall|x: int, y: int| 0 <= x < ws && 0 <= y < hs implies kind_at(
                    m.grid@,
                    x,
                    y,
                ) == (if x == pp.0 && y == pp.1 {
                    TileType::Floor
                } else {
                    crate::tile::tile_type_of(#[trigger] cell_glyph(t, ws, x, y))
                }) by {}
            }
        }
        Ok(m)
    }
}

} // verus!

verus! {

/// Cumulative-threshold selection over a weight table: the index of the
/// first entry whose running total exceeds the draw, falling through to the
/// last entry on any residual.
pub open spec fn spec_weighted_pick(w: Seq<u32>, draw: int) -> int
    decreases w.len(),
{
    if w.len() <= 1 {
        0
    } else if draw < w[0] {
        0
    } else {
        1 + spec_weighted_pick(w.drop_first(), draw - w[0])
    }
}

/// The selected index stays within the table.
pub proof fn lemma_weighted_pick_in_range(w: Seq<u32>, draw: int)
    requires
        w.len() >= 1,
    ensures
        0 <= spec_weighted_pick(w, draw) < w.len(),
    decreases w.len(),
{
    if w.len() > 1 && draw >= w[0] {
        lemma_weighted_pick_in_range(w.drop_first(), draw - w[0]);
    }
}

/// Walk the weight table accumulating thresholds and return the first index
/// whose running total exceeds the draw; the last entry takes any residual.
pub fn pick_weighted_index(weights: &Vec<u32>, draw: u32) -> (r: usize)
    requires
        weights@.len() >= 1,
    ensures
        r == spec_weighted_pick(weights@, draw as int),
        r < weights@.len(),
{
    proof {
        lemma_weighted_pick_in_range(weights@, draw as int);
        assert(weights@.skip(0) =~= weights@);
    }
    let mut i: usize = 0;
    let mut rest = draw;
    while i < weights.len() - 1
        invariant
            weights@.len() >= 1,
            i < weights@.len(),
            spec_weighted_pick(weights@, draw as int) == i + spec_weighted_pick(
                weights@.skip(i as int),
                rest as int,
            ),
            0 <= spec_weighted_pick(weights@, draw as int) < weights@.len(),
        decreases weights@.len() - i,
    {
        let w0 = weights[i];
        proof {
            assert(weights@.skip(i as int)[0] == weights@[i as int]);
            assert(weights@.skip(i as int).len() >= 2);
        }
        if rest < w0 {
            proof {
                assert(spec_weighted_pick(weights@.skip(i as int), rest as int) == 0);
            }
            return i;
        }
        proof {
            assert(weights@.skip(i as int).drop_first() =~= weights@.skip(i as int + 1));
            assert(spec_weighted_pick(weights@.skip(i as int), rest as int) == 1
                + spec_weighted_pick(weights@.skip(i as int + 1), rest - w0));
        }
        rest = rest - w0;
        i += 1;
    }
    proof {
        assert(weights@.skip(i as int).len() == 1);
        assert(spec_weighted_pick(weights@.skip(i as int), rest as int) == 0);
    }
    i
}

/// Scatter monsters over the accepted rooms, kinds drawn by weighted
/// sampling over the floor's table. At most `rooms.len() * budget` monsters
/// come back, each on a Floor cell inside an accepted room's open interior,
/// each bearing a kind from the table.
pub fn add_monsters_weighted(
    grid: &Grid,
    rooms: &Vec<Room>,
    max_monsters_per_room: usize,
    table: &Vec<(MonsterType, u32)>,
) -> (r: Vec<MonsterInMap>)
    requires
        grid.wf(),
        max_monsters_per_room < usize::MAX,
        table@.len() >= 1,
        forall|i: int|
            0 <= i < rooms@.len() ==> (#[trigger] rooms@[i]).wf() && rooms@[i].x2 - rooms@[i].x1
                >= 2 && rooms@[i].y2 - rooms@[i].y1 >= 2,
        rooms_interiors_floor(rooms@, grid@),
    ensures
        r@.len() <= rooms@.len() * max_monsters_per_room,
        forall|k: int|
            0 <= k < r@.len() ==> monster_spawn_ok(#[trigger] r@[k], rooms@, grid@) && exists|
                j: int,
            | 0 <= j < table@.len() && r@[k].monster_type == (#[trigger] table@[j]).0,
{
    let mut weights: Vec<u32> = Vec::new();
    let mut t: usize = 0;
    while t < table.len()
        invariant
            t <= table@.len(),
            weights@.len() == t,
        decreases table@.len() - t,
    {
        weights.push(table[t].1);
        t += 1;
    }

    let mut monsters: Vec<MonsterInMap> = Vec::new();
    let mut i: usize = 0;
    while i < rooms.len()
        invariant
            grid.wf(),
            max_monsters_per_room < usize::MAX,
            table@.len() >= 1,
            weights@.len() == table@.len(),
            i <= rooms@.len(),
            forall|j: int|
                0 <= j < rooms@.len() ==> (#[trigger] rooms@[j]).wf() && rooms@[j].x2
                    - rooms@[j].x1 >= 2 && rooms@[j].y2 - rooms@[j].y1 >= 2,
            rooms_interiors_floor(rooms@, grid@),
            monsters@.len() <= i * max_monsters_per_room,
            forall|k: int|
                0 <= k < monsters@.len() ==> monster_spawn_ok(
                    #[trigger] monsters@[k],
                    rooms@,
                    grid@,
                ) && exists|j: int|
                    0 <= j < table@.len() && monsters@[k].monster_type == (#[trigger] table@[j]).0,
        decreases rooms@.len() - i,
    {
        let room = rooms[i];
        let count = crate::rng::rand_below(0, max_monsters_per_room + 1);
        let mut n: usize = 0;
        while n < count
            invariant
                grid.wf(),
                n <= count,
                count <= max_monsters_per_room,
                room.wf(),
                room.x2 - room.x1 >= 2,
                room.y2 - room.y1 >= 2,
                0 <= i < rooms@.len(),
                room == rooms@[i as int],
                table@.len() >= 1,
                weights@.len() == table@.len(),
                rooms_interiors_floor(rooms@, grid@),
                monsters@.len() <= i * max_monsters_per_room + n,
                forall|k: int|
                    0 <= k < monsters@.len() ==> monster_spawn_ok(
                        #[trigger] monsters@[k],
                        rooms@,
                        grid@,
                    ) && exists|j: int|
                        0 <= j < table@.len() && monsters@[k].monster_type == (
                        #[trigger] table@[j]).0,
            decreases count - n,
        {
            let draw = crate::rng::rand_below(0, 1000);
            let pick = pick_weighted_index(&weights, draw as u32);
            let monster_type = table[pick].0;
            let position = (
                crate::rng::rand_below(room.x1 + 1, room.x2),
                crate::rng::rand_below(room.y1 + 1, room.y2),
            );
            proof {
                assert(rooms@[i as int].in_interior((position.0 as int, position.1 as int)));
                assert(monster_type == table@[pick as int].0);
                let m = MonsterInMap { monster_type, position };
                assert(m.position == position);
                assert(rooms@[i as int].in_interior((m.position.0 as int, m.position.1 as int)));
                assert(exists|j: int|
                    0 <= j < rooms@.len() && #[trigger] rooms@[j].in_interior(
                        (m.position.0 as int, m.position.1 as int),
                    ));
                assert(monster_spawn_ok(m, rooms@, grid@));
            }
            monsters.push(MonsterInMap { monster_type, position });
            n += 1;
        }
        proof {
            assert(i * max_monsters_per_room + max_monsters_per_room == (i + 1)
                * max_monsters_per_room) by (nonlinear_arith);
        }
        i += 1;
    }
    monsters
}

/// Scatter items over the accepted rooms, kinds drawn by weighted sampling
/// over the floor's table. At most `rooms.len() * budget` items come back,
/// each on a Floor cell inside an accepted room's open interior, each
/// bearing a kind from the table.
pub fn add_items_weighted(
    grid: &Grid,
    rooms: &Vec<Room>,
    max_items_per_room: usize,
    table: &Vec<(ItemType, u32)>,
) -> (r: Vec<ItemInMap>)
    requires
        grid.wf(),
        max_items_per_room < usize::MAX,
        table@.len() >= 1,
        forall|i: int|
            0 <= i < rooms@.len() ==> (#[trigger] rooms@[i]).wf() && rooms@[i].x2 - rooms@[i].x1
                >= 2 && rooms@[i].y2 - rooms@[i].y1 >= 2,
        rooms_interiors_floor(rooms@, grid@),
    ensures
        r@.len() <= rooms@.len() * max_items_per_room,
        forall|k: int|
            0 <= k < r@.len() ==> item_spawn_ok(#[trigger] r@[k], rooms@, grid@) && exists|j: int|
                0 <= j < table@.len() && r@[k].item_type == (#[trigger] table@[j]).0,
{
    let mut weights: Vec<u32> = Vec::new();
    let mut t: usize = 0;
    while t < table.len()
        invariant
            t <= table@.len(),
            weights@.len() == t,
        decreases table@.len() - t,
    {
        weights.push(table[t].1);
        t += 1;
    }

    let mut items: Vec<ItemInMap> = Vec::new();
    let mut i: usize = 0;
    while i < rooms.len()
        invariant
            grid.wf(),
            max_items_per_room < usize::MAX,
            table@.len() >= 1,
            weights@.len() == table@.len(),
            i <= rooms@.len(),
            forall|j: int|
                0 <= j < rooms@.len() ==> (#[trigger] rooms@[j]).wf() && rooms@[j].x2
                    - rooms@[j].x1 >= 2 && rooms@[j].y2 - rooms@[j].y1 >= 2,
            rooms_interiors_floor(rooms@, grid@),
            items@.len() <= i * max_items_per_room,
            forall|k: int|
                0 <= k < items@.len() ==> item_spawn_ok(#[trigger] items@[k], rooms@, grid@)
                    && exists|j: int|
                    0 <= j < table@.len() && items@[k].item_type == (#[trigger] table@[j]).0,
        decreases rooms@.len() - i,
    {
        let room = rooms[i];
        let count = crate::rng::rand_below(0, max_items_per_room + 1);
        let mut n: usize = 0;
        while n < count
            invariant
                grid.wf(),
                n <= count,
                count <= max_items_per_room,
                room.wf(),
                room.x2 - room.x1 >= 2,
                room.y2 - room.y1 >= 2,
                0 <= i < rooms@.len(),
                room == rooms@[i as int],
                table@.len() >= 1,
                weights@.len() == table@.len(),
                rooms_interiors_floor(rooms@, grid@),
                items@.len() <= i * max_items_per_room + n,
                forall|k: int|
                    0 <= k < items@.len() ==> item_spawn_ok(#[trigger] items@[k], rooms@, grid@)
                        && exists|j: int|
                        0 <= j < table@.len() && items@[k].item_type == (#[trigger] table@[j]).0,
            decreases count - n,
        {
            let draw = crate::rng::rand_below(0, 1000);
            let pick = pick_weighted_index(&weights, draw as u32);
            let item_type = table[pick].0;
            let position = (
                crate::rng::rand_below(room.x1 + 1, room.x2),
                crate::rng::rand_below(room.y1 + 1, room.y2),
            );
            proof {
                assert(rooms@[i as int].in_interior((position.0 as int, position.1 as int)));
                assert(item_type == table@[pick as int].0);
                let it = ItemInMap { item_type, position };
                assert(it.position == position);
                assert(rooms@[i as int].in_interior((it.position.0 as int, it.position.1 as int)));
                assert(exists|j: int|
                    0 <= j < rooms@.len() && #[trigger] rooms@[j].in_interior(
                        (it.position.0 as int, it.position.1 as int),
                    ));
                assert(item_spawn_ok(it, rooms@, grid@));
            }
            items.push(ItemInMap { item_type, position });
            n += 1;
        }
        proof {
            assert(i * max_items_per_room + max_items_per_room == (i + 1) * max_items_per_room)
                by (nonlinear_arith);
        }
        i += 1;
    }
    items
}

} // verus!

verus! {

/// The grid with the tile at `s` carved back to floor; restoring a cell the
/// staircase took recovers the field the connectivity argument ran on.
pub open spec fn restored_at(g: Seq<Seq<Tile>>, s: (int, int)) -> Seq<Seq<Tile>> {
    g.update(s.1, g[s.1].update(s.0, crate::room::tile_floored(g[s.1][s.0])))
}

/// Every floor cell of the grid, with `s` carved back to floor, walkably
/// reaches `spawn` there.
pub open spec fn connected_modulo(g: Seq<Seq<Tile>>, spawn: (int, int), s: (int, int)) -> bool {
    forall|p: (int, int)|
        is_floor(restored_at(g, s), p) ==> reach(restored_at(g, s), spawn, p)
}


/// Stamping the staircase onto a floor cell of a fully connected field
/// keeps the field connected modulo that one cell.
proof fn lemma_staircase_restore(
    g_pre: Seq<Seq<Tile>>,
    g_post: Seq<Seq<Tile>>,
    spawn0: (int, int),
    stair: (int, int),
)
    requires
        crate::grid::grid_wf(g_pre),
        is_floor(g_pre, stair),
        g_post == g_pre.update(
            stair.1,
            g_pre[stair.1].update(
                stair.0,
                (Tile {
                    tile_type: TileType::StaircaseDown,
                    render_hint: g_pre[stair.1][stair.0].render_hint,
                }),
            ),
        ),
        forall|p: (int, int)| is_floor(g_pre, p) ==> reach(g_pre, spawn0, p),
    ensures
        connected_modulo(g_post, spawn0, stair),
{
    assert(g_pre[stair.1].len() == crate::grid::grid_width(g_pre));
    assert(restored_at(g_post, stair) =~~= g_pre);
}

/// A field whose floor cells all reach the spawn stays that way when one
/// cell is carved back to floor, the carved cell reaching the spawn... the
/// carved cell being the spawn itself.
#[verifier::rlimit(100)]
proof fn lemma_restore_spawn_cell(g: Seq<Seq<Tile>>, spawn0: (int, int))
    requires
        crate::grid::grid_wf(g),
        in_bounds(g, spawn0.0, spawn0.1),
        forall|p: (int, int)| is_floor(g, p) ==> reach(g, spawn0, p),
    ensures
        connected_modulo(g, spawn0, spawn0),
{
    let stair = spawn0;
    let restored = restored_at(g, stair);
    assert(g[stair.1].len() == crate::grid::grid_width(g));
    assert(restored[stair.1] == g[stair.1].update(
        stair.0,
        crate::room::tile_floored(g[stair.1][stair.0]),
    ));
    assert(is_floor(restored, stair));
    assert forall|q: (int, int)|
        in_bounds(g, q.0, q.1) && q != stair implies restored[q.1][q.0] == #[trigger] g[q.1][q.0] by {
        if q.1 == stair.1 {
            assert(q.0 != stair.0);
        } else {
            assert(restored[q.1] == g[q.1]);
        }
    }
    assert forall|q: (int, int)| is_floor(g, q) implies is_floor(restored, q) by {
        if q != stair {
            assert(restored[q.1][q.0] == g[q.1][q.0]);
        }
    }
    assert forall|p: (int, int)| is_floor(restored, p) implies reach(restored, spawn0, p) by {
        if p == stair {
            lemma_reach_refl(restored, stair);
        } else {
            assert(restored[p.1][p.0] == g[p.1][p.0]);
            assert(is_floor(g, p));
            assert(reach(g, spawn0, p));
            lemma_reach_monotone(g, restored, spawn0, p);
        }
    }
}

/// Turn one interior cell of a non-spawn room into the staircase down, or
/// leave the grid alone when fewer than two rooms were accepted. Returns
/// the staircase cell (the spawn itself when none was placed): restoring
/// that one cell to floor recovers a field whose every floor cell reaches
/// the spawn.
#[verifier::rlimit(100)]
fn place_staircase(
    grid: &mut Grid,
    rooms: &Vec<Room>,
    Ghost(spawn0): Ghost<(int, int)>,
) -> (r: Ghost<(int, int)>)
    requires
        old(grid).wf(),
        forall|i: int|
            0 <= i < rooms@.len() ==> (#[trigger] rooms@[i]).wf() && rooms@[i].x2 - rooms@[i].x1
                >= 2 && rooms@[i].y2 - rooms@[i].y1 >= 2 && rooms@[i].x2 < old(grid).spec_width()
                && rooms@[i].y2 < old(grid).spec_height(),
        rooms_disjoint(rooms@),
        rooms_interiors_floor(rooms@, old(grid)@),
        in_bounds(old(grid)@, spawn0.0, spawn0.1),
        rooms@.len() >= 1 ==> spawn0 == ((rooms@[0].center.0 as int, rooms@[0].center.1 as int))
            && is_floor(old(grid)@, spawn0),
        forall|p: (int, int)| is_floor(old(grid)@, p) ==> reach(old(grid)@, spawn0, p),
        forall|x: int, y: int|
            in_bounds(old(grid)@, x, y) ==> kind_at(old(grid)@, x, y) != TileType::StaircaseDown,
    ensures
        final(grid).wf(),
        final(grid).spec_width() == old(grid).spec_width(),
        final(grid).spec_height() == old(grid).spec_height(),
        in_bounds(final(grid)@, r@.0, r@.1),
        forall|x: int, y: int|
            in_bounds(old(grid)@, x, y) && (x, y) != r@ ==> final(grid)@[y][x] == old(
                grid,
            )@[y][x],
        forall|x: int, y: int|
            in_bounds(final(grid)@, x, y) && kind_at(final(grid)@, x, y)
                == TileType::StaircaseDown ==> (x, y) == r@,
        final(grid)@[r@.1][r@.0] == old(grid)@[r@.1][r@.0] || kind_at(final(grid)@, r@.0, r@.1)
            == TileType::StaircaseDown,
        rooms@.len() >= 2 ==> kind_at(final(grid)@, r@.0, r@.1) == TileType::StaircaseDown,
        rooms@.len() < 2 ==> final(grid)@ == old(grid)@ && r@ == spawn0,
        rooms@.len() >= 1 ==> is_floor(final(grid)@, spawn0),
        connected_modulo(final(grid)@, spawn0, r@),
{
    let ghost g_pre = grid@;
    let ghost mut stair: (int, int) = spawn0;
    if rooms.len() >= 2 {
        let idx = crate::rng::rand_below(1, rooms.len());
        let room = rooms[idx];
        let cell = (
            crate::rng::rand_below(room.x1 + 1, room.x2),
            crate::rng::rand_below(room.y1 + 1, room.y2),
        );
        proof {
            stair = (cell.0 as int, cell.1 as int);
            assert(rooms@[idx as int].in_interior(stair));
            assert(is_floor(g_pre, stair));
            // the staircase room is not the spawn room, whose interiors are
            // disjoint, so the spawn cell survives the stamp
            let r0 = rooms@[0];
            r0.lemma_center_in_interior();
            assert(r0.in_interior(spawn0));
            assert(!r0.spec_intersects(rooms@[idx as int]));
            assert(!rooms@[idx as int].in_interior(spawn0));
            assert(stair != spawn0);
        }
        let t = grid.at(cell.0, cell.1);
        grid.set(
            cell.0,
            cell.1,
            Tile { tile_type: TileType::StaircaseDown, render_hint: t.render_hint },
        );
        proof {
            lemma_staircase_restore(g_pre, grid@, spawn0, stair);
            assert(grid@[spawn0.1] == (if spawn0.1 == stair.1 {
                g_pre[stair.1].update(stair.0, (Tile {
                    tile_type: TileType::StaircaseDown,
                    render_hint: g_pre[stair.1][stair.0].render_hint,
                }))
            } else {
                g_pre[spawn0.1]
            }));
            assert(grid@[spawn0.1][spawn0.0] == g_pre[spawn0.1][spawn0.0]);
            assert(is_floor(grid@, spawn0));
            assert forall|x: int, y: int|
                in_bounds(grid@, x, y) && kind_at(grid@, x, y)
                    == TileType::StaircaseDown implies (x, y) == stair by {
                if (x, y) != stair {
                    if y == stair.1 {
                        assert(grid@[y] == g_pre[stair.1].update(stair.0, (Tile {
                            tile_type: TileType::StaircaseDown,
                            render_hint: g_pre[stair.1][stair.0].render_hint,
                        })));
                        assert(x != stair.0);
                        assert(grid@[y][x] == g_pre[y][x]);
                    } else {
                        assert(grid@[y] == g_pre[y]);
                    }
                    assert(in_bounds(g_pre, x, y));
                }
            }
        }
    } else {
        proof {
            lemma_restore_spawn_cell(g_pre, spawn0);
            assert(grid@ == g_pre);
            assert forall|x: int, y: int|
                in_bounds(grid@, x, y) && kind_at(grid@, x, y)
                    == TileType::StaircaseDown implies (x, y) == stair by {
                assert(in_bounds(g_pre, x, y));
            }
        }
    }
    Ghost(stair)
}

} // verus!

verus! {

/// The full next-floor strategy: random rooms and tunnels, monsters and
/// items drawn from the floor's weighted kind tables, the wall-pruning
/// pass, then exactly one non-spawn room interior cell turned into the
/// staircase down; a caller-supplied previous-floor entry cell overrides
/// the spawn. With fewer than two accepted rooms there is no non-spawn room
/// and no staircase is placed.
pub struct MapGeneratorNextFloor {
    pub width: usize,
    pub height: usize,
    pub max_rooms: usize,
    pub room_min_size: usize,
    pub room_max_size: usize,
    pub max_monsters_per_room: usize,
    pub max_items_per_room: usize,
    pub parameters: ItemAndMonsterParameterItem,
    pub entry: Option<(usize, usize)>,
}

impl MapGeneratorNextFloor {
    pub fn new(
        width: usize,
        height: usize,
        max_rooms: usize,
        room_min_size: usize,
        room_max_size: usize,
        max_monsters_per_room: usize,
        max_items_per_room: usize,
        parameters: ItemAndMonsterParameterItem,
        entry: Option<(usize, usize)>,
    ) -> (r: MapGeneratorNextFloor)
        ensures
            r.width == width,
            r.height == height,
            r.max_rooms == max_rooms,
            r.room_min_size == room_min_size,
            r.room_max_size == room_max_size,
            r.max_monsters_per_room == max_monsters_per_room,
            r.max_items_per_room == max_items_per_room,
            r.parameters == parameters,
            r.entry == entry,
    {
        MapGeneratorNextFloor {
            width,
            height,
            max_rooms,
            room_min_size,
            room_max_size,
            max_monsters_per_room,
            max_items_per_room,
            parameters,
            entry,
        }
    }
}

impl DungeonGeneratorStrategy for MapGeneratorNextFloor {
    open spec fn valid(&self) -> bool {
        &&& 2 <= self.room_min_size <= self.room_max_size
        &&& self.room_max_size + 2 <= self.width
        &&& self.room_max_size + 2 <= self.height
        &&& self.width <= MAP_DIM_LIMIT
        &&& self.height <= MAP_DIM_LIMIT
        &&& self.max_monsters_per_room < usize::MAX
        &&& self.max_items_per_room < usize::MAX
        &&& self.parameters.monsters@.len() >= 1
        &&& self.parameters.items@.len() >= 1
        &&& (self.entry matches Some(p) ==> p.0 < self.width && p.1 < self.height)
    }

    #[verifier::rlimit(100)]
    fn generate(&self) -> (r: Result<GameMap, GenerationError>)
        ensures
            r is Ok,
            r matches Ok(m) ==> {
                &&& m.width == self.width
                &&& m.height == self.height
                &&& m.center == ((self.width / 2) as usize, (self.height / 2) as usize)
                &&& (self.entry matches Some(p) ==> m.player_position == p)
                &&& forall|k: int|
                    0 <= k < m.monsters@.len() ==> in_bounds(
                        m.grid@,
                        (#[trigger] m.monsters@[k]).position.0 as int,
                        m.monsters@[k].position.1 as int,
                    ) && (kind_at(
                        m.grid@,
                        m.monsters@[k].position.0 as int,
                        m.monsters@[k].position.1 as int,
                    ) == TileType::Floor || kind_at(
                        m.grid@,
                        m.monsters@[k].position.0 as int,
                        m.monsters@[k].position.1 as int,
                    ) == TileType::StaircaseDown)
                &&& forall|k: int|
                    0 <= k < m.items@.len() ==> in_bounds(
                        m.grid@,
                        (#[trigger] m.items@[k]).position.0 as int,
                        m.items@[k].position.1 as int,
                    ) && (kind_at(
                        m.grid@,
                        m.items@[k].position.0 as int,
                        m.items@[k].position.1 as int,
                    ) == TileType::Floor || kind_at(
                        m.grid@,
                        m.items@[k].position.0 as int,
                        m.items@[k].position.1 as int,
                    ) == TileType::StaircaseDown)
                &&& forall|p: (int, int), q: (int, int)|
                    #![trigger kind_at(m.grid@, p.0, p.1), kind_at(m.grid@, q.0, q.1)]
                    in_bounds(m.grid@, p.0, p.1) && in_bounds(m.grid@, q.0, q.1) && kind_at(
                        m.grid@,
                        p.0,
                        p.1,
                    ) == TileType::StaircaseDown && kind_at(m.grid@, q.0, q.1)
                        == TileType::StaircaseDown ==> p == q
                &&& (self.max_rooms >= 1 ==> exists|p: (int, int)| is_floor(m.grid@, p))
                &&& (self.entry is None && self.max_rooms >= 1 ==> is_floor(
                    m.grid@,
                    m.spawn(),
                ))
                &&& (self.entry is None ==> exists|s: (int, int)|
                    in_bounds(m.grid@, s.0, s.1) && connected_modulo(m.grid@, m.spawn(), s) && (
                    kind_at(m.grid@, s.0, s.1) == TileType::StaircaseDown || ((forall|
                        x: int,
                        y: int,
                    |
                        in_bounds(m.grid@, x, y) ==> kind_at(m.grid@, x, y)
                            != TileType::StaircaseDown) && s == m.spawn())))
            },
    {
        let tile_mapping = TileMapping::new();

        let mut grid = Grid::new(self.width, self.height, TileType::Wall);
        let ghost g0 = grid@;

        let x_center = self.width / 2;
        let y_center = self.height / 2;

        let center = (x_center, y_center);

        let placed = place_rooms(&mut grid, self.max_rooms, self.room_min_size, self.room_max_size);
        let rooms = placed.0;
        let placed_spawn = placed.1;
        let ghost g1 = grid@;

        let monsters = add_monsters_weighted(
            &grid,
            &rooms,
            self.max_monsters_per_room,
            &self.parameters.monsters,
        );
        let items = add_items_weighted(
            &grid,
            &rooms,
            self.max_items_per_room,
            &self.parameters.items,
        );

        remove_walls(self.width, self.height, &mut grid);
        let ghost g2 = grid@;
        let ghost spawn0: (int, int) = (placed_spawn.0 as int, placed_spawn.1 as int);
        proof {
            // the pruned field is fully connected from the placement spawn
            assert forall|p: (int, int)| is_floor(g2, p) implies reach(g2, spawn0, p) by {
                assert(is_floor(g1, p));
                assert(!is_floor(g0, p));
                assert(reach(g1, spawn0, p));
                assert(forall|q: (int, int)| is_floor(g1, q) ==> is_floor(g2, q));
                lemma_reach_monotone(g1, g2, spawn0, p);
            }
            if rooms@.len() >= 1 {
                assert(is_floor(g1, ((rooms@[0]).center.0 as int, rooms@[0].center.1 as int)));
                assert(is_floor(g2, spawn0));
            }
            assert(in_bounds(g2, spawn0.0, spawn0.1));
            // the accepted rooms' interiors are still floor after pruning
            assert forall|i: int, p: (int, int)|
                0 <= i < rooms@.len() && (#[trigger] rooms@[i].in_interior(p)) implies is_floor(
                g2,
                p,
            ) by {
                assert(is_floor(g1, p));
            }
            // no staircase stands on the field yet
            assert forall|x: int, y: int| in_bounds(g2, x, y) implies kind_at(g2, x, y)
                != TileType::StaircaseDown by {
                assert(in_bounds(g0, x, y));
                assert(in_bounds(g1, x, y));
                assert(g1[y][x] == g0[y][x] || g1[y][x] == crate::room::tile_floored(g0[y][x]));
                assert(g2[y][x] == g1[y][x] || g2[y][x] == (Tile {
                    tile_type: TileType::Empty,
                    render_hint: g1[y][x].render_hint,
                }));
            }
        }

        let stair_token = place_staircase(&mut grid, &rooms, Ghost(spawn0));
        let ghost stair = stair_token@;
        let ghost g3 = grid@;

        let player_position = match self.entry {
            Some(p) => p,
            None => placed_spawn,
        };

        let m = GameMap {
            grid,
            tile_mapping,
            player_position,
            monsters,
            items,
            center,
            width: self.width,
            height: self.height,
        };
        proof {
            // occupants that sat on floor now sit on floor or the staircase
            assert forall|k: int| 0 <= k < monsters@.len() implies in_bounds(
                g3,
                (#[trigger] monsters@[k]).position.0 as int,
                monsters@[k].position.1 as int,
            ) && (kind_at(g3, monsters@[k].position.0 as int, monsters@[k].position.1 as int)
                == TileType::Floor || kind_at(
                g3,
                monsters@[k].position.0 as int,
                monsters@[k].position.1 as int,
            ) == TileType::StaircaseDown) by {
                let p: (int, int) = (
                    monsters@[k].position.0 as int,
                    monsters@[k].position.1 as int,
                );
                assert(is_floor(g1, p));
                assert(is_floor(g2, p));
                if p != stair {
                    assert(g3[p.1][p.0] == g2[p.1][p.0]);
                } else {
                    assert(g3[p.1][p.0] == g2[p.1][p.0] || kind_at(g3, p.0, p.1)
                        == TileType::StaircaseDown);
                }
            }
            assert forall|k: int| 0 <= k < items@.len() implies in_bounds(
                g3,
                (#[trigger] items@[k]).position.0 as int,
                items@[k].position.1 as int,
            ) && (kind_at(g3, items@[k].position.0 as int, items@[k].position.1 as int)
                == TileType::Floor || kind_at(
                g3,
                items@[k].position.0 as int,
                items@[k].position.1 as int,
            ) == TileType::StaircaseDown) by {
                let p: (int, int) = (items@[k].position.0 as int, items@[k].position.1 as int);
                assert(is_floor(g1, p));
                assert(is_floor(g2, p));
                if p != stair {
                    assert(g3[p.1][p.0] == g2[p.1][p.0]);
                } else {
                    assert(g3[p.1][p.0] == g2[p.1][p.0] || kind_at(g3, p.0, p.1)
                        == TileType::StaircaseDown);
                }
            }
            if self.max_rooms >= 1 {
                // the first placement attempt always succeeds, and the
                // staircase takes a non-spawn room's cell, so the placement
                // spawn stays floor in every outcome
                assert(rooms@.len() >= 1);
                assert(is_floor(g3, spawn0));
                assert(is_floor(m.grid@, spawn0));
                assert(exists|p: (int, int)| is_floor(m.grid@, p));
            }
            if self.entry is None {
                assert(m.player_position == placed_spawn);
                assert(m.spawn() == spawn0);
                assert(in_bounds(m.grid@, stair.0, stair.1));
                assert(connected_modulo(m.grid@, m.spawn(), stair));
                // the witness is the staircase cell where one was placed,
                // else the spawn of a staircase-free field
                if rooms@.len() >= 2 {
                    assert(kind_at(g3, stair.0, stair.1) == TileType::StaircaseDown);
                } else {
                    assert(g3 == g2);
                    assert(stair == spawn0);
                    assert forall|x: int, y: int| in_bounds(g3, x, y) implies kind_at(g3, x, y)
                        != TileType::StaircaseDown by {
                        assert(kind_at(g2, x, y) != TileType::StaircaseDown);
                    }
                }
            }
            assert(m.wf());
        }
        Ok(m)
    }
}

} // verus!
