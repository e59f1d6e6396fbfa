//! Serialization of the world back to the textual map format: the base
//! terrain glyphs, then item glyphs, then monster glyphs, then the player
//! glyph last, so the player wins any overlap; rows joined by newlines with
//! no trailing newline.

use vstd::prelude::*;
use crate::grid::{Grid, in_bounds, kind_at, grid_width, grid_height};
use crate::tile::{Tile, TileType, TileMapping, ItemType, MonsterType, glyph_of};
use crate::map::{GameMap, WorldPos, WORLD_LIMIT};
use crate::text::chars_string;

verus! {

/// The glyph matrix of the base terrain.
pub open spec fn base_rows(g: Seq<Seq<Tile>>) -> Seq<Seq<char>> {
    g.map_values(|row: Seq<Tile>| row.map_values(|t: Tile| glyph_of(t.tile_type)))
}

/// One overlay stamped into a glyph matrix.
pub open spec fn put_glyph(mat: Seq<Seq<char>>, cell: (int, int), c: char) -> Seq<Seq<char>> {
    mat.update(cell.1, mat[cell.1].update(cell.0, c))
}

/// The first `k` overlays stamped into a glyph matrix, in order: a later
/// overlay wins any overlap.
pub open spec fn apply_overlays(
    mat: Seq<Seq<char>>,
    ov: Seq<((int, int), char)>,
    k: int,
) -> Seq<Seq<char>>
    decreases k,
{
    if k <= 0 {
        mat
    } else {
        put_glyph(apply_overlays(mat, ov, k - 1), ov[k - 1].0, ov[k - 1].1)
    }
}

/// Rows joined by single newlines, with no trailing newline.
pub open spec fn join_rows(mat: Seq<Seq<char>>) -> Seq<char>
    decreases mat.len(),
{
    if mat.len() == 0 {
        Seq::empty()
    } else if mat.len() == 1 {
        mat[0]
    } else {
        mat[0] + seq!['\n'] + join_rows(mat.drop_first())
    }
}

proof fn lemma_join_push(mat: Seq<Seq<char>>, row: Seq<char>)
    ensures
        join_rows(mat.push(row)) == (if mat.len() == 0 {
            row
        } else {
            join_rows(mat) + seq!['\n'] + row
        }),
    decreases mat.len(),
{
    let m2 = mat.push(row);
    if mat.len() == 0 {
        assert(m2.len() == 1);
        assert(join_rows(m2) == m2[0]);
        assert(m2[0] == row);
    } else {
        assert(m2.len() >= 2);
        assert(m2[0] == mat[0]);
        assert(m2.drop_first() =~= mat.drop_first().push(row));
        lemma_join_push(mat.drop_first(), row);
        if mat.len() == 1 {
            assert(mat.drop_first().len() == 0);
            assert(join_rows(m2) == m2[0] + seq!['\n'] + row);
            assert(join_rows(mat) == mat[0]);
        } else {
            assert(join_rows(m2) == m2[0] + seq!['\n'] + (join_rows(mat.drop_first())
                + seq!['\n'] + row));
            assert(join_rows(mat) + seq!['\n'] + row == (mat[0] + seq!['\n'] + join_rows(
                mat.drop_first(),
            )) + seq!['\n'] + row);
            assert(m2[0] + seq!['\n'] + (join_rows(mat.drop_first()) + seq!['\n'] + row) =~= (
            mat[0] + seq!['\n'] + join_rows(mat.drop_first())) + seq!['\n'] + row);
        }
    }
}

/// The cell an overlay's world position maps to, and the glyph it stamps.
pub open spec fn item_overlay(m: GameMap, e: (WorldPos, ItemType)) -> ((int, int), char) {
    (m.spec_world_to_grid(e.0), glyph_of(e.1.spec_tile_type()))
}

/// The cell a monster overlay maps to, and the glyph it stamps.
pub open spec fn monster_overlay(m: GameMap, e: (WorldPos, MonsterType)) -> ((int, int), char) {
    (m.spec_world_to_grid(e.0), glyph_of(e.1.spec_tile_type()))
}

/// The full overlay list of one save: items, then monsters, then the player.
pub open spec fn save_overlays(
    m: GameMap,
    player: WorldPos,
    items: Seq<(WorldPos, ItemType)>,
    monsters: Seq<(WorldPos, MonsterType)>,
) -> Seq<((int, int), char)> {
    items.map_values(|e: (WorldPos, ItemType)| item_overlay(m, e)) + monsters.map_values(
        |e: (WorldPos, MonsterType)| monster_overlay(m, e),
    ) + seq![(m.spec_world_to_grid(player), '@')]
}

/// A world position the serializer accepts: within the transform bound and
/// over a cell of the grid.
pub open spec fn on_grid(m: GameMap, p: WorldPos) -> bool {
    &&& -WORLD_LIMIT <= p.x <= WORLD_LIMIT
    &&& -WORLD_LIMIT <= p.z <= WORLD_LIMIT
    &&& in_bounds(m.grid@, m.spec_world_to_grid(p).0, m.spec_world_to_grid(p).1)
}

/// Writes the textual form of a world: base glyphs overlaid with item,
/// monster and player glyphs, the player stamped last.
pub struct DungeonWriter {}

impl Default for DungeonWriter {
    fn default() -> (r: DungeonWriter) {
        DungeonWriter {  }
    }
}

impl DungeonWriter {
    /// Render the map and its occupants as map text: one line per grid row,
    /// items then monsters then the player stamped over the terrain glyphs.
    /// Every occupant must stand over a cell of the grid.
    #[verifier::rlimit(100)]
    pub fn write(
        &self,
        game_map: &GameMap,
        player: WorldPos,
        items: Vec<(WorldPos, ItemType)>,
        monsters: Vec<(WorldPos, MonsterType)>,
    ) -> (r: String)
        requires
            game_map.wf(),
            on_grid(*game_map, player),
            forall|k: int| 0 <= k < items@.len() ==> on_grid(*game_map, (#[trigger] items@[k]).0),
            forall|k: int|
                0 <= k < monsters@.len() ==> on_grid(*game_map, (#[trigger] monsters@[k]).0),
        ensures
            r@ == join_rows(
                apply_overlays(
                    base_rows(game_map.grid@),
                    save_overlays(*game_map, player, items@, monsters@),
                    save_overlays(*game_map, player, items@, monsters@).len() as int,
                ),
            ),
    {
        let ghost ov = save_overlays(*game_map, player, items@, monsters@);

        // base terrain glyphs
        let mut map_rows: Vec<Vec<char>> = Vec::new();
        let height = game_map.grid.height();
        let width = game_map.grid.width();
        let mut y: usize = 0;
        while y < height
            invariant
                game_map.wf(),
                width == grid_width(game_map.grid@),
                height == grid_height(game_map.grid@),
                y <= height,
                map_rows@.len() == y,
                forall|yi: int|
                    0 <= yi < y ==> (#[trigger] map_rows@[yi])@ == base_rows(game_map.grid@)[yi],
            decreases height - y,
        {
            let mut row: Vec<char> = Vec::new();
            let mut x: usize = 0;
            while x < width
                invariant
                    game_map.wf(),
                    width == grid_width(game_map.grid@),
                    height == grid_height(game_map.grid@),
                    y < height,
                    x <= width,
                    row@.len() == x,
                    forall|xi: int|
                        0 <= xi < x ==> #[trigger] row@[xi] == glyph_of(
                            kind_at(game_map.grid@, xi, y as int),
                        ),
                decreases width - x,
            {
                let t = game_map.grid.at(x, y);
                row.push(game_map.tile_mapping.get_char(&t.tile_type));
                x += 1;
            }
            proof {
                assert(row@ =~= base_rows(game_map.grid@)[y as int]);
            }
            map_rows.push(row);
            y += 1;
        }
        let ghost mat0 = base_rows(game_map.grid@);
        proof {
            assert(map_rows@.map_values(|r: Vec<char>| r@) =~= mat0);
        }

        // gather the overlays in stamping order
        let mut overlays: Vec<((usize, usize), char)> = Vec::new();
        let mut i: usize = 0;
        while i < items.len()
            invariant
                game_map.wf(),
                i <= items@.len(),
                forall|k: int|
                    0 <= k < items@.len() ==> on_grid(*game_map, (#[trigger] items@[k]).0),
                overlays@.len() == i,
                forall|k: int|
                    0 <= k < i ==> (((#[trigger] overlays@[k]).0.0 as int,
                        overlays@[k].0.1 as int), overlays@[k].1) == item_overlay(
                        *game_map,
                        items@[k],
                    ),
            decreases items@.len() - i,
        {
            let (pos, it) = items[i];
            let cell = game_map.world_to_grid(pos);
            overlays.push((cell, game_map.tile_mapping.get_char(&it.to_tile_type())));
            i += 1;
        }
        let mut j: usize = 0;
        while j < monsters.len()
            invariant
                game_map.wf(),
                j <= monsters@.len(),
                forall|k: int|
                    0 <= k < monsters@.len() ==> on_grid(*game_map, (#[trigger] monsters@[k]).0),
                overlays@.len() == items@.len() + j,
                forall|k: int|
                    0 <= k < items@.len() ==> (((#[trigger] overlays@[k]).0.0 as int,
                        overlays@[k].0.1 as int), overlays@[k].1) == item_overlay(
                        *game_map,
                        items@[k],
                    ),
                forall|k: int|
                    0 <= k < j ==> (((#[trigger] overlays@[items@.len() + k]).0.0 as int,
                        overlays@[items@.len() + k].0.1 as int), overlays@[items@.len() + k].1)
                        == monster_overlay(*game_map, monsters@[k]),
            decreases monsters@.len() - j,
        {
            let (pos, mt) = monsters[j];
            let cell = game_map.world_to_grid(pos);
            overlays.push((cell, game_map.tile_mapping.get_char(&mt.to_tile_type())));
            j += 1;
        }
        let player_cell = game_map.world_to_grid(player);
        overlays.push((player_cell, '@'));
        proof {
            assert(overlays@.len() == ov.len());
            assert forall|k: int| 0 <= k < ov.len() implies (((#[trigger] overlays@[k]).0.0 as int,
                overlays@[k].0.1 as int), overlays@[k].1) == ov[k] by {
                if k < items@.len() {
                } else if k < items@.len() + monsters@.len() {
                    assert(overlays@[k] == overlays@[items@.len() + (k - items@.len())]);
                } else {
                    assert(k == ov.len() - 1);
                }
            }
            // every overlay cell is on the grid
            assert forall|k: int| 0 <= k < ov.len() implies in_bounds(
                game_map.grid@,
                (#[trigger] ov[k]).0.0,
                ov[k].0.1,
            ) by {
                if k < items@.len() {
                    assert(on_grid(*game_map, items@[k].0));
                } else if k < items@.len() + monsters@.len() {
                    assert(on_grid(*game_map, monsters@[k - items@.len()].0));
                } else {
                    assert(on_grid(*game_map, player));
                }
            }
        }

        // stamp them in order
        let mut k: usize = 0;
        while k < overlays.len()
            invariant
                k <= overlays@.len(),
                overlays@.len() == ov.len(),
                forall|k2: int|
                    0 <= k2 < ov.len() ==> (((#[trigger] overlays@[k2]).0.0 as int,
                        overlays@[k2].0.1 as int), overlays@[k2].1) == ov[k2],
                forall|k2: int|
                    0 <= k2 < ov.len() ==> in_bounds(
                        game_map.grid@,
                        (#[trigger] ov[k2]).0.0,
                        ov[k2].0.1,
                    ),
                grid_width_of(mat0) == grid_width(game_map.grid@),
                mat0.len() == grid_height(game_map.grid@),
                forall|yi: int| 0 <= yi < mat0.len() ==> (#[trigger] mat0[yi]).len() == grid_width(
                    game_map.grid@,
                ),
                map_rows@.len() == apply_overlays(mat0, ov, k as int).len(),
                map_rows@.map_values(|r: Vec<char>| r@) =~= apply_overlays(mat0, ov, k as int),
            decreases overlays@.len() - k,
        {
            proof {
                // the matrix keeps its shape under stamping
                lemma_apply_overlays_shape(mat0, ov, k as int);
            }
            let (cell, glyph) = overlays[k];
            proof {
                assert((((overlays@[k as int]).0.0 as int, overlays@[k as int].0.1 as int),
                    overlays@[k as int].1) == ov[k as int]);
                assert(in_bounds(game_map.grid@, cell.0 as int, cell.1 as int));
                assert(map_rows@.len() == mat0.len());
                assert(map_rows@[cell.1 as int]@ == apply_overlays(mat0, ov, k as int)[cell.1 as int]);
                assert(map_rows@[cell.1 as int]@.len() == grid_width_of(mat0));
            }
            let row: &mut Vec<char> = &mut map_rows[cell.1];
            row.set(cell.0, glyph);
            proof {
                assert(map_rows@.map_values(|r: Vec<char>| r@) =~= apply_overlays(
                    mat0,
                    ov,
                    k as int + 1,
                ));
            }
            k += 1;
        }

        // join the rows
        let mut out: Vec<char> = Vec::new();
        let ghost mat_final = apply_overlays(mat0, ov, ov.len() as int);
        let mut y2: usize = 0;
        while y2 < map_rows.len()
            invariant
                map_rows@.len() == mat_final.len(),
                forall|yi: int|
                    0 <= yi < mat_final.len() ==> (#[trigger] map_rows@[yi])@ == mat_final[yi],
                y2 <= mat_final.len(),
                out@ == join_rows(mat_final.take(y2 as int)),
            decreases map_rows@.len() - y2,
        {
            if y2 > 0 {
                out.push('\n');
            }
            let row = &map_rows[y2];
            let mut x2: usize = 0;
            let ghost out_before = out@;
            while x2 < row.len()
                invariant
                    0 <= y2 < map_rows@.len(),
                    row == map_rows@[y2 as int],
                    x2 <= row@.len(),
                    out@ == out_before + row@.take(x2 as int),
                decreases row@.len() - x2,
            {
                out.push(row[x2]);
                x2 += 1;
            }
            proof {
                assert(out@ =~= out_before + map_rows@[y2 as int]@);
                lemma_join_push(mat_final.take(y2 as int), mat_final[y2 as int]);
                assert(mat_final.take(y2 as int).push(mat_final[y2 as int]) =~= mat_final.take(
                    y2 as int + 1,
                ));
                assert(out@ =~= join_rows(mat_final.take(y2 as int + 1)));
            }
            y2 += 1;
        }
        proof {
            assert(mat_final.take(mat_final.len() as int) =~= mat_final);
        }
        chars_string(&out)
    }
}

/// Stamping overlays whose cells lie on the grid keeps the matrix's shape.
proof fn lemma_apply_overlays_shape(
    mat: Seq<Seq<char>>,
    ov: Seq<((int, int), char)>,
    k: int,
)
    requires
        0 <= k <= ov.len(),
        forall|k2: int| 0 <= k2 < ov.len() ==> 0 <= (#[trigger] ov[k2]).0.1 < mat.len(),
        forall|k2: int|
            0 <= k2 < ov.len() ==> 0 <= (#[trigger] ov[k2]).0.0 < grid_width_of(mat),
        forall|yi: int| 0 <= yi < mat.len() ==> (#[trigger] mat[yi]).len() == grid_width_of(mat),
    ensures
        apply_overlays(mat, ov, k).len() == mat.len(),
        forall|yi: int|
            0 <= yi < mat.len() ==> (#[trigger] apply_overlays(mat, ov, k)[yi]).len()
                == grid_width_of(mat),
    decreases k,
{
    if k > 0 {
        lemma_apply_overlays_shape(mat, ov, k - 1);
    }
}

/// The row width of a glyph matrix: the length of its first row, or zero.
pub open spec fn grid_width_of(mat: Seq<Seq<char>>) -> int {
    if mat.len() == 0 {
        0
    } else {
        mat[0].len() as int
    }
}

} // verus!

verus! {

/// The character a viewport shows at world cell `(vx, vy)`: the player
/// glyph on the player's cell, the terrain glyph inside the map, a space
/// outside it.
pub open spec fn viewport_char(m: GameMap, player: (int, int), vx: int, vy: int) -> char {
    if 0 <= vx < m.width && 0 <= vy < m.height {
        if vx == player.0 && vy == player.1 {
            '@'
        } else {
            glyph_of(kind_at(m.grid@, vx, vy))
        }
    } else {
        ' '
    }
}

/// The glyph matrix of a `width x height` viewport anchored at `pos`.
pub open spec fn viewport_rows(
    m: GameMap,
    player: (int, int),
    pos: (int, int),
    width: int,
    height: int,
) -> Seq<Seq<char>> {
    Seq::new(
        height as nat,
        |r: int| Seq::new(width as nat, |c: int| viewport_char(m, player, pos.0 + c, pos.1 + r)),
    )
}

impl GameMap {
    /// Render a rectangular viewport of the map as text: one line per row,
    /// the given player cell drawn as the player glyph, cells outside the
    /// map as spaces; rows joined by newlines with no trailing newline.
    #[verifier::rlimit(100)]
    pub fn to_string(
        &self,
        position: (i32, i32),
        player_position: (usize, usize),
        width: usize,
        height: usize,
    ) -> (r: String)
        requires
            self.wf(),
            1 <= height <= 32768,
            width <= 32768,
            -1073741824 <= position.0 <= 1073741824,
            -1073741824 <= position.1 <= 1073741824,
        ensures
            r@ == join_rows(
                viewport_rows(
                    *self,
                    (player_position.0 as int, player_position.1 as int),
                    (position.0 as int, position.1 as int),
                    width as int,
                    height as int,
                ),
            ),
    {
        let ghost mat = viewport_rows(
            *self,
            (player_position.0 as int, player_position.1 as int),
            (position.0 as int, position.1 as int),
            width as int,
            height as int,
        );
        let mut out: Vec<char> = Vec::new();
        let map_width = self.width;
        let map_height = self.height;
        let mut ry: usize = 0;
        while ry < height
            invariant
                self.wf(),
                map_width == self.width,
                map_height == self.height,
                1 <= height <= 32768,
                width <= 32768,
                -1073741824 <= position.0 <= 1073741824,
                -1073741824 <= position.1 <= 1073741824,
                mat == viewport_rows(
                    *self,
                    (player_position.0 as int, player_position.1 as int),
                    (position.0 as int, position.1 as int),
                    width as int,
                    height as int,
                ),
                ry <= height,
                out@ == join_rows(mat.take(ry as int)),
            decreases height - ry,
        {
            if ry > 0 {
                out.push('\n');
            }
            let ghost out_before = out@;
            let vy: i32 = position.1 + (ry as i32);
            let mut rx: usize = 0;
            while rx < width
                invariant
                    self.wf(),
                    map_width == self.width,
                    map_height == self.height,
                    width <= 32768,
                    -1073741824 <= position.0 <= 1073741824,
                    vy == position.1 + ry,
                    -1073741824 <= vy <= 1073741824 + 32768,
                    ry < height,
                    rx <= width,
                    mat == viewport_rows(
                        *self,
                        (player_position.0 as int, player_position.1 as int),
                        (position.0 as int, position.1 as int),
                        width as int,
                        height as int,
                    ),
                    height <= 32768,
                    out@ == out_before + mat[ry as int].take(rx as int),
                decreases width - rx,
            {
                let vx: i32 = position.0 + (rx as i32);
                let c: char = if 0 <= vx && (vx as usize) < map_width && 0 <= vy && (vy as usize)
                    < map_height {
                    if player_position.0 == (vx as usize) && player_position.1 == (vy as usize) {
                        '@'
                    } else {
                        let t = self.grid.at(vx as usize, vy as usize);
                        self.tile_mapping.get_char(&t.tile_type)
                    }
                } else {
                    ' '
                };
                proof {
                    assert(c == viewport_char(
                        *self,
                        (player_position.0 as int, player_position.1 as int),
                        vx as int,
                        vy as int,
                    ));
                    assert(mat[ry as int][rx as int] == c);
                }
                out.push(c);
                proof {
                    assert(out@ =~= out_before + mat[ry as int].take(rx as int + 1));
                }
                rx += 1;
            }
            proof {
                assert(mat[ry as int].take(width as int) =~= mat[ry as int]);
                lemma_join_push(mat.take(ry as int), mat[ry as int]);
                assert(mat.take(ry as int).push(mat[ry as int]) =~= mat.take(ry as int + 1));
                assert(out@ =~= join_rows(mat.take(ry as int + 1)));
            }
            ry += 1;
        }
        proof {
            assert(mat.take(height as int) =~= mat);
        }
        chars_string(&out)
    }
}

} // verus!
