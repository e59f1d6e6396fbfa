//! A dense, row-major, rectangular grid of tiles with bounds-checked
//! accessors for probing and contract-guarded direct access for interior
//! loops whose indices are already known to be in range.

use vstd::prelude::*;
use crate::tile::{Tile, TileType};

verus! {

/// A rectangular `height x width` dense array of tiles, row-major.
/// Cells are addressed as `(column, row)`, that is `(x, y)`.
#[derive(Debug, Clone)]
pub struct Grid {
    inner: Vec<Vec<Tile>>,
}

impl View for Grid {
    type V = Seq<Seq<Tile>>;

    closed spec fn view(&self) -> Seq<Seq<Tile>> {
        self.inner@.map_values(|r: Vec<Tile>| r@)
    }
}

/// The height of a grid model: its number of rows.
pub open spec fn grid_height(g: Seq<Seq<Tile>>) -> int {
    g.len() as int
}

/// The width of a grid model: the length of its first row, or zero when it
/// has no rows.
pub open spec fn grid_width(g: Seq<Seq<Tile>>) -> int {
    if g.len() == 0 {
        0
    } else {
        g[0].len() as int
    }
}

/// A well-formed grid model: every row has the same length.
pub open spec fn grid_wf(g: Seq<Seq<Tile>>) -> bool {
    forall|r: int| 0 <= r < g.len() ==> (#[trigger] g[r]).len() == grid_width(g)
}

/// Whether `(x, y)` lies within the bounds of a grid model.
pub open spec fn in_bounds(g: Seq<Seq<Tile>>, x: int, y: int) -> bool {
    0 <= x < grid_width(g) && 0 <= y < grid_height(g)
}

/// The kind of the cell at `(x, y)` of a grid model.
pub open spec fn kind_at(g: Seq<Seq<Tile>>, x: int, y: int) -> TileType {
    g[y][x].tile_type
}

impl Grid {
    /// A well-formed grid, at the executable level.
    pub open spec fn wf(&self) -> bool {
        grid_wf(self@)
    }

    /// The grid's width, at the specification level.
    pub open spec fn spec_width(&self) -> int {
        grid_width(self@)
    }

    /// The grid's height, at the specification level.
    pub open spec fn spec_height(&self) -> int {
        grid_height(self@)
    }

    /// A fully initialized dense grid: `height` rows of `width` cells, every
    /// cell a fresh tile of kind `tile_type`.
    pub fn new(width: usize, height: usize, tile_type: TileType) -> (r: Grid)
        ensures
            r.wf(),
            r.spec_height() == height,
            height > 0 ==> r.spec_width() == width,
            forall|x: int, y: int|
                in_bounds(r@, x, y) ==> #[trigger] r@[y][x] == (Tile {
                    tile_type,
                    render_hint: crate::tile::RenderHint::Empty,
                }),
    {
        let mut inner: Vec<Vec<Tile>> = Vec::new();
        let mut y: usize = 0;
        while y < height
            invariant
                y <= height,
                inner@.len() == y,
                forall|r: int| 0 <= r < y ==> (#[trigger] inner@[r])@.len() == width,
                forall|r: int, c: int|
                    0 <= r < y && 0 <= c < width ==> (#[trigger] inner@[r]@[c]) == (Tile {
                        tile_type,
                        render_hint: crate::tile::RenderHint::Empty,
                    }),
            decreases height - y,
        {
            let mut row: Vec<Tile> = Vec::new();
            let mut x: usize = 0;
            while x < width
                invariant
                    x <= width,
                    row@.len() == x,
                    forall|c: int|
                        0 <= c < x ==> (#[trigger] row@[c]) == (Tile {
                            tile_type,
                            render_hint: crate::tile::RenderHint::Empty,
                        }),
                decreases width - x,
            {
                row.push(Tile::new(tile_type));
                x += 1;
            }
            inner.push(row);
            y += 1;
        }
        Grid { inner }
    }

    /// The number of columns.
    pub fn width(&self) -> (r: usize)
        ensures
            r == self.spec_width(),
    {
        if self.inner.len() == 0 {
            0
        } else {
            self.inner[0].len()
        }
    }

    /// The number of rows.
    pub fn height(&self) -> (r: usize)
        ensures
            r == self.spec_height(),
    {
        self.inner.len()
    }

    /// Safe probe: the tile at `(col, row)`, or `None` out of range.
    pub fn get(&self, col: usize, row: usize) -> (r: Option<Tile>)
        requires
            self.wf(),
        ensures
            in_bounds(self@, col as int, row as int) <==> r is Some,
            r matches Some(t) ==> t == self@[row as int][col as int],
    {
        if row < self.inner.len() {
            let line = &self.inner[row];
            if col < line.len() {
                Some(line[col])
            } else {
                None
            }
        } else {
            None
        }
    }

    /// Direct access for interior loops: the caller owes the bounds.
    pub fn at(&self, col: usize, row: usize) -> (r: Tile)
        requires
            self.wf(),
            in_bounds(self@, col as int, row as int),
        ensures
            r == self@[row as int][col as int],
    {
        self.inner[row][col]
    }

    /// Direct write: the caller owes the bounds. Only the one cell changes.
    pub fn set(&mut self, col: usize, row: usize, tile: Tile)
        requires
            old(self).wf(),
            in_bounds(old(self)@, col as int, row as int),
        ensures
            final(self).wf(),
            final(self)@ == old(self)@.update(
                row as int,
                old(self)@[row as int].update(col as int, tile),
            ),
            final(self).spec_width() == old(self).spec_width(),
            final(self).spec_height() == old(self).spec_height(),
    {
        proof {
            assert(self@[row as int] == self.inner@[row as int]@);
        }
        let row_vec: &mut Vec<Tile> = &mut self.inner[row];
        row_vec.set(col, tile);
        proof {
            assert(self@ =~= old(self)@.update(
                row as int,
                old(self)@[row as int].update(col as int, tile),
            ));
            assert(grid_width(self@) == grid_width(old(self)@));
        }
    }

    /// Whether `(col, row)` lies within the grid.
    pub fn is_valid_position(&self, col: usize, row: usize) -> (r: bool)
        ensures
            r == in_bounds(self@, col as int, row as int),
    {
        row < self.height() && col < self.width()
    }
}

} // verus!

use crate::bresenham::{BresenhamLine, COORD_LIMIT, line_model, line_points, line_wf, at_end,
    spec_step, lemma_line_points, lemma_step, in_box};

verus! {

/// Whether some cell of the diagonal-disallowed rasterized line from
/// `(x0, y0)` to `(x1, y1)`, both endpoints included, is a Wall cell.
pub open spec fn wall_on_line(g: Seq<Seq<Tile>>, x0: int, y0: int, x1: int, y1: int) -> bool {
    let pts = line_points(line_model(x0, y0, x1, y1, false));
    exists|i: int|
        0 <= i < pts.len() && kind_at(g, (#[trigger] pts[i]).0, pts[i].1) == TileType::Wall
}

impl Grid {
    /// Walk the diagonal-disallowed rasterized line between two cells and
    /// report whether any visited cell, endpoints included, is a Wall. Used
    /// for sightline occlusion over the grid.
    pub fn is_wall_between(&self, pos_0: (usize, usize), pos_1: (usize, usize)) -> (r: bool)
        requires
            self.wf(),
            in_bounds(self@, pos_0.0 as int, pos_0.1 as int),
            in_bounds(self@, pos_1.0 as int, pos_1.1 as int),
            self.spec_width() <= COORD_LIMIT,
            self.spec_height() <= COORD_LIMIT,
        ensures
            r == wall_on_line(
                self@,
                pos_0.0 as int,
                pos_0.1 as int,
                pos_1.0 as int,
                pos_1.1 as int,
            ),
    {
        let mut line = BresenhamLine::new(
            pos_0.0 as i32,
            pos_0.1 as i32,
            pos_1.0 as i32,
            pos_1.1 as i32,
            false,
        );
        let ghost m0 = line@;
        let ghost pts = line_points(m0);
        let ghost mut k: int = 0;
        proof {
            lemma_line_points(m0);
        }
        loop
            invariant
                self.wf(),
                self.spec_width() <= COORD_LIMIT,
                self.spec_height() <= COORD_LIMIT,
                line_wf(m0),
                !m0.finished,
                m0 == line_model(pos_0.0 as int, pos_0.1 as int, pos_1.0 as int, pos_1.1 as int, false),
                in_bounds(self@, m0.x0, m0.y0),
                in_bounds(self@, m0.x1, m0.y1),
                pts == line_points(m0),
                line_wf(line@),
                0 <= k <= pts.len(),
                !line@.finished ==> pts == pts.take(k) + line_points(line@),
                line@.finished ==> k == pts.len(),
                forall|i: int|
                    0 <= i < k ==> kind_at(self@, (#[trigger] pts[i]).0, pts[i].1)
                        != TileType::Wall,
            ensures
                k == pts.len(),
            decreases crate::bresenham::rem_x(line@) + crate::bresenham::rem_y(line@) + (if line@.finished {
                0int
            } else {
                1int
            }),
        {
            let ghost m_pre = line@;
            match line.next() {
                Some(point) => {
                    proof {
                        lemma_line_points(m0);
                        assert(pts == pts.take(k) + line_points(m_pre));
                        assert(pts.skip(k) =~= line_points(m_pre));
                        assert(k < pts.len());
                        assert(pts[k] == (m_pre.x0, m_pre.y0)) by {
                            assert(pts.skip(k)[0] == pts[k]);
                        }
                        assert(in_box(pts[k], (m0.x0, m0.y0), (m0.x1, m0.y1)));
                        assert(in_bounds(self@, pts[k].0, pts[k].1));
                    }
                    let tile = self.at(point.0 as usize, point.1 as usize);
                    if matches!(tile.tile_type, TileType::Wall) {
                        proof {
                            assert(kind_at(self@, pts[k].0, pts[k].1) == TileType::Wall);
                        }
                        return true;
                    }
                    proof {
                        if at_end(m_pre) {
                            assert(line_points(m_pre) == seq![(m_pre.x0, m_pre.y0)]);
                            assert(pts.len() == k + 1);
                        } else {
                            lemma_step(m_pre);
                            assert(line_points(m_pre) == seq![(m_pre.x0, m_pre.y0)] + line_points(
                                line@,
                            ));
                            assert(pts == pts.take(k + 1) + line_points(line@)) by {
                                assert(pts =~= pts.take(k) + (seq![pts[k]] + line_points(line@)));
                                assert(pts.take(k) + (seq![pts[k]] + line_points(line@))
                                    =~= pts.take(k + 1) + line_points(line@));
                            }
                        }
                        k = k + 1;
                    }
                },
                None => {
                    proof {
                        assert(k == pts.len());
                    }
                    break;
                },
            }
        }
        false
    }
}

} // verus!
