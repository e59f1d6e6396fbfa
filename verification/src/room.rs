//! Axis-aligned rectangular rooms: the ephemeral value the generators use to
//! stamp floor into a grid and to carve an L-shaped tunnel to the previously
//! accepted room. Two rooms intersect when their outer rectangles overlap on
//! both axes; touching edges count as intersecting, so accepted rooms never
//! share even their one-cell wall border.

use vstd::prelude::*;
use crate::tile::{Tile, TileType};
use crate::grid::{Grid, in_bounds, grid_width, grid_height};
use crate::reach::{is_floor, reach, lemma_reach_refl, lemma_reach_adjacent, lemma_reach_trans,
    lemma_reach_monotone};
use crate::bresenham::{BresenhamLine, COORD_LIMIT, line_points, line_wf, at_end, spec_step,
    lemma_line_points, in_box, unit_step};

verus! {

/// A rectangular region `[x1, x2] x [y1, y2]` with its precomputed center.
/// The nominal rectangle keeps a one-cell wall border: only the open
/// interior `(x1, x2) x (y1, y2)` is stamped to floor.
#[derive(Clone, Copy)]
pub struct Room {
    pub x1: usize,
    pub y1: usize,
    pub x2: usize,
    pub y2: usize,
    pub center: (usize, usize),
}

/// A tile whose kind was carved to floor, its render hint kept.
pub open spec fn tile_floored(t: Tile) -> Tile {
    Tile { tile_type: TileType::Floor, render_hint: t.render_hint }
}

impl Room {
    /// A structurally sound room: positive extent on both axes and the
    /// center at the midpoint of its corners.
    pub open spec fn wf(self) -> bool {
        &&& self.x1 < self.x2
        &&& self.y1 < self.y2
        &&& self.center.0 == ((self.x1 + self.x2) as int) / 2
        &&& self.center.1 == ((self.y1 + self.y2) as int) / 2
    }

    /// Whether `p` lies in the open interior of the room.
    pub open spec fn in_interior(self, p: (int, int)) -> bool {
        self.x1 + 1 <= p.0 < self.x2 && self.y1 + 1 <= p.1 < self.y2
    }

    /// Whether the outer rectangles of two rooms overlap on both axes.
    /// Touching edges count as overlap.
    pub open spec fn spec_intersects(self, other: Room) -> bool {
        !(self.x2 <= other.x1 || other.x2 <= self.x1 || self.y2 <= other.y1 || other.y2
            <= self.y1)
    }

    /// A room anchored at `(x, y)` extending `width` columns and `height`
    /// rows.
    pub fn new(x: usize, y: usize, width: usize, height: usize) -> (r: Room)
        requires
            2 * x + width <= usize::MAX,
            2 * y + height <= usize::MAX,
        ensures
            r.x1 == x,
            r.y1 == y,
            r.x2 == x + width,
            r.y2 == y + height,
            r.center.0 == ((r.x1 + r.x2) as int) / 2,
            r.center.1 == ((r.y1 + r.y2) as int) / 2,
            width >= 1 && height >= 1 ==> r.wf(),
    {
        let x1 = x;
        let y1 = y;
        let x2 = x + width;
        let y2 = y + height;
        let center = ((x1 + x2) / 2, (y1 + y2) / 2);
        Room { x1, y1, x2, y2, center }
    }

    /// The half-open index ranges of the room's open interior, as
    /// `((first_column, end_column), (first_row, end_row))`.
    pub fn inner(&self) -> (r: ((usize, usize), (usize, usize)))
        requires
            self.x1 < self.x2,
            self.y1 < self.y2,
        ensures
            r == (((self.x1 + 1) as usize, self.x2), ((self.y1 + 1) as usize, self.y2)),
    {
        ((self.x1 + 1, self.x2), (self.y1 + 1, self.y2))
    }

    /// The room's extent in columns.
    pub fn width(&self) -> (r: usize)
        ensures
            r == (if self.x2 >= self.x1 {
                self.x2 - self.x1
            } else {
                self.x1 - self.x2
            }),
    {
        if self.x2 >= self.x1 {
            self.x2 - self.x1
        } else {
            self.x1 - self.x2
        }
    }

    /// The room's extent in rows.
    pub fn height(&self) -> (r: usize)
        ensures
            r == (if self.y2 >= self.y1 {
                self.y2 - self.y1
            } else {
                self.y1 - self.y2
            }),
    {
        if self.y2 >= self.y1 {
            self.y2 - self.y1
        } else {
            self.y1 - self.y2
        }
    }

    /// Whether this room overlaps another, their wall borders included.
    pub fn intersects(&self, other: &Room) -> (r: bool)
        ensures
            r == self.spec_intersects(*other),
    {
        !(self.x2 <= other.x1 || other.x2 <= self.x1 || self.y2 <= other.y1 || other.y2
            <= self.y1)
    }

    /// A room of extent at least two on both axes holds its center strictly
    /// inside its open interior.
    pub proof fn lemma_center_in_interior(self)
        requires
            self.wf(),
            self.x2 - self.x1 >= 2,
            self.y2 - self.y1 >= 2,
        ensures
            self.in_interior((self.center.0 as int, self.center.1 as int)),
    {
        assert(2 * (self.x1 + 1) <= self.x1 + self.x2);
        assert(2 * (self.x2 - 1) >= self.x1 + self.x2 - 1);
        assert(2 * (self.y1 + 1) <= self.y1 + self.y2);
        assert(2 * (self.y2 - 1) >= self.y1 + self.y2 - 1);
    }

    /// Stamp the room's open interior to floor; the one-cell border and
    /// everything outside it keep their tiles, and render hints survive.
    pub fn fill_grid(&self, grid: &mut Grid)
        requires
            old(grid).wf(),
            self.x1 < self.x2,
            self.y1 < self.y2,
            self.x2 <= old(grid).spec_width(),
            self.y2 <= old(grid).spec_height(),
        ensures
            final(grid).wf(),
            final(grid).spec_width() == old(grid).spec_width(),
            final(grid).spec_height() == old(grid).spec_height(),
            forall|x: int, y: int|
                in_bounds(old(grid)@, x, y) ==> final(grid)@[y][x] == (if self.in_interior(
                    (x, y),
                ) {
                    tile_floored(old(grid)@[y][x])
                } else {
                    old(grid)@[y][x]
                }),
            forall|p: (int, int)| is_floor(old(grid)@, p) ==> is_floor(final(grid)@, p),
    {
        let ghost g0 = grid@;
        let mut x = self.x1 + 1;
        while x < self.x2
            invariant
                grid.wf(),
                grid.spec_width() == grid_width(g0),
                grid.spec_height() == grid_height(g0),
                self.x1 + 1 <= x <= self.x2,
                self.x1 < self.x2,
                self.y1 < self.y2,
                self.x2 <= grid_width(g0),
                self.y2 <= grid_height(g0),
                forall|xi: int, yi: int|
                    in_bounds(g0, xi, yi) ==> grid@[yi][xi] == (if self.in_interior((xi, yi))
                        && xi < x {
                        tile_floored(g0[yi][xi])
                    } else {
                        g0[yi][xi]
                    }),
            decreases self.x2 - x,
        {
            let mut y = self.y1 + 1;
            while y < self.y2
                invariant
                    grid.wf(),
                    grid.spec_width() == grid_width(g0),
                    grid.spec_height() == grid_height(g0),
                    self.x1 + 1 <= x < self.x2,
                    self.y1 + 1 <= y <= self.y2,
                    self.y1 < self.y2,
                    self.x2 <= grid_width(g0),
                    self.y2 <= grid_height(g0),
                    forall|xi: int, yi: int|
                        in_bounds(g0, xi, yi) ==> grid@[yi][xi] == (if self.in_interior((xi, yi))
                            && (xi < x || (xi == x && yi < y)) {
                            tile_floored(g0[yi][xi])
                        } else {
                            g0[yi][xi]
                        }),
                decreases self.y2 - y,
            {
                let t = grid.at(x, y);
                grid.set(x, y, Tile { tile_type: TileType::Floor, render_hint: t.render_hint });
                y += 1;
            }
            x += 1;
        }
        proof {
            assert forall|p: (int, int)| is_floor(g0, p) implies is_floor(grid@, p) by {
                assert(in_bounds(g0, p.0, p.1));
            }
        }
    }
}

} // verus!

verus! {

/// Carve exactly the cells of the axis-aligned segment from `(x0, y0)` to
/// `(x1, y1)` to floor: every cell of the segment becomes Floor, every cell
/// off it keeps its tile, and every newly carved cell is walkably reachable
/// from the segment's start.
#[verifier::rlimit(100)]
pub(crate) fn carve_floor_line(grid: &mut Grid, x0: usize, y0: usize, x1: usize, y1: usize)
    requires
        old(grid).wf(),
        x0 == x1 || y0 == y1,
        in_bounds(old(grid)@, x0 as int, y0 as int),
        in_bounds(old(grid)@, x1 as int, y1 as int),
        old(grid).spec_width() <= COORD_LIMIT,
        old(grid).spec_height() <= COORD_LIMIT,
    ensures
        final(grid).wf(),
        final(grid).spec_width() == old(grid).spec_width(),
        final(grid).spec_height() == old(grid).spec_height(),
        forall|x: int, y: int|
            in_bounds(old(grid)@, x, y) ==> final(grid)@[y][x] == old(grid)@[y][x] || (in_box(
                (x, y),
                (x0 as int, y0 as int),
                (x1 as int, y1 as int),
            ) && final(grid)@[y][x] == tile_floored(old(grid)@[y][x])),
        forall|q: (int, int)|
            #[trigger] in_box(q, (x0 as int, y0 as int), (x1 as int, y1 as int)) ==> is_floor(
                final(grid)@,
                q,
            ),
        forall|p: (int, int)| is_floor(old(grid)@, p) ==> is_floor(final(grid)@, p),
        forall|p: (int, int)|
            is_floor(final(grid)@, p) ==> is_floor(old(grid)@, p) || reach(
                final(grid)@,
                (x0 as int, y0 as int),
                p,
            ),
        is_floor(final(grid)@, (x0 as int, y0 as int)),
        is_floor(final(grid)@, (x1 as int, y1 as int)),
        reach(final(grid)@, (x0 as int, y0 as int), (x1 as int, y1 as int)),
{
    let ghost g0 = grid@;
    let ghost start: (int, int) = (x0 as int, y0 as int);
    let ghost target: (int, int) = (x1 as int, y1 as int);
    let mut line = BresenhamLine::new(x0 as i32, y0 as i32, x1 as i32, y1 as i32, true);
    let ghost m0 = line@;
    proof {
        lemma_line_points(m0);
    }
    let ghost pts = line_points(m0);
    let ghost mut k: int = 0;
    loop
        invariant
            grid.wf(),
            grid.spec_width() == grid_width(g0),
            grid.spec_height() == grid_height(g0),
            grid_width(g0) <= COORD_LIMIT,
            grid_height(g0) <= COORD_LIMIT,
            line_wf(m0),
            !m0.finished,
            m0.dx == 0 || m0.dy == 0,
            m0.x0 == start.0 && m0.y0 == start.1,
            m0.x1 == target.0 && m0.y1 == target.1,
            in_bounds(g0, start.0, start.1),
            in_bounds(g0, target.0, target.1),
            pts == line_points(m0),
            line_wf(line@),
            0 <= k <= pts.len(),
            !line@.finished ==> pts == pts.take(k) + line_points(line@),
            line@.finished ==> k == pts.len(),
            forall|x: int, y: int|
                in_bounds(g0, x, y) ==> grid@[y][x] == g0[y][x] || (in_box((x, y), start, target)
                    && grid@[y][x] == tile_floored(g0[y][x])),
            forall|p: (int, int)| is_floor(g0, p) ==> is_floor(grid@, p),
            forall|p: (int, int)|
                is_floor(grid@, p) ==> is_floor(g0, p) || reach(grid@, start, p),
            forall|i: int| 0 <= i < k ==> is_floor(grid@, #[trigger] pts[i]),
            k >= 1 ==> reach(grid@, start, pts[k - 1]),
        ensures
            k == pts.len(),
        decreases crate::bresenham::rem_x(line@) + crate::bresenham::rem_y(line@) + (if line@.finished {
            0int
        } else {
            1int
        }),
    {
        let ghost m_pre = line@;
        let step = line.next();
        match step {
            Some(point) => {
                proof {
                    lemma_line_points(m0);
                    assert(!m_pre.finished);
                    assert(line_points(m_pre) == pts.skip(k)) by {
                        assert(pts == pts.take(k) + line_points(m_pre));
                        assert(pts.skip(k) =~= line_points(m_pre));
                    }
                    assert(line_points(m_pre).first() == (m_pre.x0, m_pre.y0));
                    assert(k < pts.len());
                    assert(pts[k] == (m_pre.x0, m_pre.y0)) by {
                        assert(pts.skip(k)[0] == pts[k]);
                    }
                    assert(in_box(pts[k], (m0.x0, m0.y0), (m0.x1, m0.y1)));
                    assert(in_bounds(g0, pts[k].0, pts[k].1));
                }
                let px = point.0 as usize;
                let py = point.1 as usize;
                proof {
                    assert(point.0 == m_pre.x0 && point.1 == m_pre.y0);
                    assert(px as int == pts[k].0 && py as int == pts[k].1);
                }
                let t = grid.at(px, py);
                let ghost g_cur = grid@;
                grid.set(px, py, Tile { tile_type: TileType::Floor, render_hint: t.render_hint });
                proof {
                    let g_new = grid@;
                    assert(is_floor(g_new, pts[k]));
                    assert forall|p: (int, int)| is_floor(g_cur, p) implies is_floor(g_new, p) by {
                        assert(in_bounds(g_cur, p.0, p.1));
                    }
                    // the carved cell is reachable from the start
                    if k == 0 {
                        assert(pts[0] == start);
                        lemma_reach_refl(g_new, start);
                    } else {
                        assert(is_floor(g_cur, pts[k - 1]));
                        assert(reach(g_cur, start, pts[k - 1]));
                        lemma_reach_monotone(g_cur, g_new, start, pts[k - 1]);
                        assert(crate::bresenham::unit_step(pts[k - 1], pts[k])) by {
                            assert(m0.diagonal_allow || m0.dx == 0 || m0.dy == 0);
                        }
                        lemma_reach_adjacent(g_new, pts[k - 1], pts[k]);
                        lemma_reach_trans(g_new, start, pts[k - 1], pts[k]);
                    }
                    assert(reach(g_new, start, pts[k]));
                    // lift the reach facts of the other floor cells
                    assert forall|p: (int, int)|
                        is_floor(g_new, p) implies is_floor(g0, p) || reach(g_new, start, p) by {
                        if p.0 == px as int && p.1 == py as int {
                            assert(p == pts[k]);
                        } else {
                            assert(is_floor(g_cur, p) ==> is_floor(g0, p) || reach(
                                g_cur,
                                start,
                                p,
                            ));
                            assert(is_floor(g_cur, p));
                            if !is_floor(g0, p) {
                                lemma_reach_monotone(g_cur, g_new, start, p);
                            }
                        }
                    }
                    // advance the ghost cursor
                    if at_end(m_pre) {
                        assert(line_points(m_pre) == seq![(m_pre.x0, m_pre.y0)]);
                        assert(pts.len() == k + 1);
                        assert(line@.finished);
                    } else {
                        crate::bresenham::lemma_step(m_pre);
                        assert(line@ == spec_step(m_pre));
                        assert(line_points(m_pre) == seq![(m_pre.x0, m_pre.y0)] + line_points(
                            line@,
                        ));
                        assert(pts == pts.take(k + 1) + line_points(line@)) by {
                            assert(pts =~= pts.take(k) + (seq![pts[k]] + line_points(line@)));
                            assert(pts.take(k) + (seq![pts[k]] + line_points(line@)) =~= pts.take(
                                k + 1,
                            ) + line_points(line@));
                        }
                    }
                    k = k + 1;
                    assert forall|i: int| 0 <= i < k implies is_floor(grid@, #[trigger] pts[i]) by {
                        if i < k - 1 {
                            assert(is_floor(g_cur, pts[i]));
                        }
                    }
                }
            },
            None => {
                proof {
                    assert(m_pre.finished);
                    assert(k == pts.len());
                }
                break;
            },
        }
    }
    proof {
        assert(k == pts.len());
        assert(pts.len() >= 1);
        assert(pts[0] == start && pts[k - 1] == (m0.x1, m0.y1));
        assert(is_floor(grid@, start));
        assert(is_floor(grid@, target));
        assert(reach(grid@, start, target));
        crate::bresenham::lemma_line_points_cover(m0);
        assert forall|q: (int, int)| #[trigger] in_box(q, start, target) implies is_floor(
            grid@,
            q,
        ) by {
            assert(in_box(q, (m0.x0, m0.y0), (m0.x1, m0.y1)));
            let i = choose|i: int| 0 <= i < pts.len() && pts[i] == q;
            assert(is_floor(grid@, pts[i]));
        }
    }
}

} // verus!

verus! {

/// Whether `p` lies on the axis-aligned segment from `a` to `b` (which
/// must share a coordinate), endpoints included.
pub open spec fn on_segment(p: (int, int), a: (int, int), b: (int, int)) -> bool {
    (a.0 == b.0 || a.1 == b.1) && in_box(p, a, b)
}

/// Whether `c` is one of the two candidate elbows of the L-shaped corridor
/// between `a` and `b`.
pub open spec fn tunnel_elbow(c: (int, int), a: (int, int), b: (int, int)) -> bool {
    c == ((a.0, b.1)) || c == ((b.0, a.1))
}

/// Every cell of `g_new` holds its `g_old` tile, except cells on the
/// L-shaped corridor from `a` through the elbow `c` to `b`, which may be
/// carved to floor.
pub open spec fn changes_on_l_path(
    g_old: Seq<Seq<Tile>>,
    g_new: Seq<Seq<Tile>>,
    a: (int, int),
    c: (int, int),
    b: (int, int),
) -> bool {
    forall|x: int, y: int|
        in_bounds(g_old, x, y) ==> g_new[y][x] == g_old[y][x] || ((on_segment((x, y), a, c)
            || on_segment((x, y), c, b)) && g_new[y][x] == tile_floored(g_old[y][x]))
}

/// Every cell of the axis-aligned segment from `a` to `b` is Floor.
pub open spec fn segment_floor(g: Seq<Seq<Tile>>, a: (int, int), b: (int, int)) -> bool {
    forall|p: (int, int)| #[trigger] on_segment(p, a, b) ==> is_floor(g, p)
}

impl Room {
    /// Carve an L-shaped floor corridor from this room's center to the
    /// other's, routed through one elbow whose orientation is an
    /// independent per-call coin flip. Every cell of the chosen corridor's
    /// two axis-aligned legs becomes Floor, every cell off it keeps its
    /// tile, and the two centers end up walkably joined.
    pub fn create_tunnel(&self, grid: &mut Grid, other: &Room)
        requires
            old(grid).wf(),
            old(grid).spec_width() <= COORD_LIMIT,
            old(grid).spec_height() <= COORD_LIMIT,
            in_bounds(old(grid)@, self.center.0 as int, self.center.1 as int),
            in_bounds(old(grid)@, other.center.0 as int, other.center.1 as int),
        ensures
            final(grid).wf(),
            final(grid).spec_width() == old(grid).spec_width(),
            final(grid).spec_height() == old(grid).spec_height(),
            forall|x: int, y: int|
                in_bounds(old(grid)@, x, y) ==> final(grid)@[y][x] == old(grid)@[y][x]
                    || final(grid)@[y][x] == tile_floored(old(grid)@[y][x]),
            exists|c: (int, int)|
                tunnel_elbow(
                    c,
                    (self.center.0 as int, self.center.1 as int),
                    (other.center.0 as int, other.center.1 as int),
                ) && #[trigger] changes_on_l_path(
                    old(grid)@,
                    final(grid)@,
                    (self.center.0 as int, self.center.1 as int),
                    c,
                    (other.center.0 as int, other.center.1 as int),
                ) && segment_floor(
                    final(grid)@,
                    (self.center.0 as int, self.center.1 as int),
                    c,
                ) && segment_floor(
                    final(grid)@,
                    c,
                    (other.center.0 as int, other.center.1 as int),
                ),
            forall|p: (int, int)| is_floor(old(grid)@, p) ==> is_floor(final(grid)@, p),
            forall|p: (int, int)|
                is_floor(final(grid)@, p) ==> is_floor(old(grid)@, p) || reach(
                    final(grid)@,
                    (self.center.0 as int, self.center.1 as int),
                    p,
                ),
            is_floor(final(grid)@, (self.center.0 as int, self.center.1 as int)),
            is_floor(final(grid)@, (other.center.0 as int, other.center.1 as int)),
            reach(
                final(grid)@,
                (self.center.0 as int, self.center.1 as int),
                (other.center.0 as int, other.center.1 as int),
            ),
    {
        let center1 = self.center;
        let center2 = other.center;
        let mut corner_x = center1.0;
        let mut corner_y = center2.1;

        let horizontal: bool = crate::rng::rand_coin();
        if horizontal {
            corner_x = center2.0;
            corner_y = center1.1;
        }
        let ghost c1: (int, int) = (center1.0 as int, center1.1 as int);
        let ghost c2: (int, int) = (center2.0 as int, center2.1 as int);
        let ghost corner: (int, int) = (corner_x as int, corner_y as int);
        let ghost g0 = grid@;

        carve_floor_line(grid, center1.0, center1.1, corner_x, corner_y);
        let ghost g1 = grid@;

        carve_floor_line(grid, corner_x, corner_y, center2.0, center2.1);
        proof {
            let g2 = grid@;
            assert forall|x: int, y: int| in_bounds(g0, x, y) implies g2[y][x] == g0[y][x]
                || g2[y][x] == tile_floored(g0[y][x]) by {
                assert(in_bounds(g1, x, y));
            }
            lemma_reach_monotone(g1, g2, c1, corner);
            lemma_reach_trans(g2, c1, corner, c2);
            assert forall|p: (int, int)| is_floor(g2, p) implies is_floor(g0, p) || reach(
                g2,
                c1,
                p,
            ) by {
                if is_floor(g1, p) {
                    if !is_floor(g0, p) {
                        lemma_reach_monotone(g1, g2, c1, p);
                    }
                } else {
                    lemma_reach_trans(g2, c1, corner, p);
                }
            }
            // the carving is confined to the one L-shaped corridor and
            // covers it entirely
            assert(tunnel_elbow(corner, c1, c2));
            assert(changes_on_l_path(g0, g2, c1, corner, c2)) by {
                assert forall|x: int, y: int| in_bounds(g0, x, y) implies g2[y][x] == g0[y][x] || (
                (on_segment((x, y), c1, corner) || on_segment((x, y), corner, c2)) && g2[y][x]
                    == tile_floored(g0[y][x])) by {
                    assert(in_bounds(g1, x, y));
                    assert(c1.0 == corner.0 || c1.1 == corner.1);
                    assert(corner.0 == c2.0 || corner.1 == c2.1);
                }
            }
            assert(segment_floor(g2, c1, corner)) by {
                assert forall|q: (int, int)| #[trigger] on_segment(q, c1, corner) implies is_floor(
                    g2,
                    q,
                ) by {
                    assert(in_box(q, c1, corner));
                    assert(is_floor(g1, q));
                }
            }
            assert(segment_floor(g2, corner, c2)) by {
                assert forall|q: (int, int)| #[trigger] on_segment(q, corner, c2) implies is_floor(
                    g2,
                    q,
                ) by {
                    assert(in_box(q, corner, c2));
                }
            }
        }
    }
}

} // verus!

verus! {

impl Room {
    /// In a grid whose cells inside this room's open interior are all
    /// Floor, every interior cell is walkably reachable from the room's
    /// center.
    pub proof fn lemma_interior_reach(self, g: Seq<Seq<Tile>>)
        requires
            self.wf(),
            self.x2 - self.x1 >= 2,
            self.y2 - self.y1 >= 2,
            forall|p: (int, int)| #[trigger] self.in_interior(p) ==> is_floor(g, p),
        ensures
            forall|p: (int, int)|
                #[trigger] self.in_interior(p) ==> reach(
                    g,
                    (self.center.0 as int, self.center.1 as int),
                    p,
                ),
    {
        self.lemma_center_in_interior();
        let c: (int, int) = (self.center.0 as int, self.center.1 as int);
        assert forall|p: (int, int)| self.in_interior(p) implies reach(g, c, p) by {
            let elbow: (int, int) = (p.0, c.1);
            assert(self.in_interior(elbow));
            assert forall|q: (int, int)| #[trigger] in_box(q, c, elbow) implies is_floor(g, q) by {
                assert(self.in_interior(q));
            }
            crate::reach::lemma_straight_reach(g, c, elbow);
            assert forall|q: (int, int)| #[trigger] in_box(q, elbow, p) implies is_floor(g, q) by {
                assert(self.in_interior(q));
            }
            crate::reach::lemma_straight_reach(g, elbow, p);
            lemma_reach_trans(g, c, elbow, p);
        }
    }
}

} // verus!

verus! {

/// Every cell of `g2` holds its `g1` tile, or that tile carved to floor.
pub open spec fn tiles_or_floored(g1: Seq<Seq<Tile>>, g2: Seq<Seq<Tile>>) -> bool {
    forall|x: int, y: int|
        in_bounds(g1, x, y) ==> g2[y][x] == g1[y][x] || g2[y][x] == tile_floored(g1[y][x])
}

/// The or-floored tile relation composes across grids of equal dimensions.
pub proof fn lemma_tiles_or_floored_trans(g0: Seq<Seq<Tile>>, g1: Seq<Seq<Tile>>, g2: Seq<Seq<Tile>>)
    requires
        grid_width(g1) == grid_width(g0),
        grid_height(g1) == grid_height(g0),
        tiles_or_floored(g0, g1),
        tiles_or_floored(g1, g2),
    ensures
        tiles_or_floored(g0, g2),
{
    assert forall|x: int, y: int| in_bounds(g0, x, y) implies g2[y][x] == g0[y][x] || g2[y][x]
        == tile_floored(g0[y][x]) by {
        assert(in_bounds(g1, x, y));
    }
}

} // verus!
