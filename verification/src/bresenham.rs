//! Incremental line rasterization over integer grid coordinates: a finite,
//! restartable producer of the cells of the segment from `(x0, y0)` to
//! `(x1, y1)`, both endpoints included. In the diagonal-disallowed mode every
//! consecutive pair of emitted cells differs by exactly one unit on exactly
//! one axis, which corridor carving and sightline checks rely on.

use vstd::prelude::*;

verus! {

/// Largest coordinate magnitude a walk accepts; keeps the doubled error
/// accumulator within `i32` range for the whole walk.
pub const COORD_LIMIT: i32 = 100_000_000;

/// An in-progress walk along a rasterized line.
#[derive(Debug)]
pub struct BresenhamLine {
    x0: i32,
    y0: i32,
    x1: i32,
    y1: i32,
    dx: i32,
    sx: i32,
    dy: i32,
    sy: i32,
    err: i32,
    diagonal_allow: bool,
    finished: bool,
}

/// The mathematical state of a walk.
pub struct LineModel {
    pub x0: int,
    pub y0: int,
    pub x1: int,
    pub y1: int,
    pub dx: int,
    pub sx: int,
    pub dy: int,
    pub sy: int,
    pub err: int,
    pub diagonal_allow: bool,
    pub finished: bool,
}

impl View for BresenhamLine {
    type V = LineModel;

    closed spec fn view(&self) -> LineModel {
        LineModel {
            x0: self.x0 as int,
            y0: self.y0 as int,
            x1: self.x1 as int,
            y1: self.y1 as int,
            dx: self.dx as int,
            sx: self.sx as int,
            dy: self.dy as int,
            sy: self.sy as int,
            err: self.err as int,
            diagonal_allow: self.diagonal_allow,
            finished: self.finished,
        }
    }
}

/// How many unit steps the walk still owes on the x axis.
pub open spec fn rem_x(m: LineModel) -> int {
    if m.sx == 1 {
        m.x1 - m.x0
    } else {
        m.x0 - m.x1
    }
}

/// How many unit steps the walk still owes on the y axis.
pub open spec fn rem_y(m: LineModel) -> int {
    if m.sy == 1 {
        m.y1 - m.y0
    } else {
        m.y0 - m.y1
    }
}

/// Whether the walk's cursor stands on the target cell.
pub open spec fn at_end(m: LineModel) -> bool {
    m.x0 == m.x1 && m.y0 == m.y1
}

/// The walk invariant: the cursor lies between start and target on both
/// axes, the error accumulator carries its closed form over the remaining
/// steps, and it stays within a band that rules out `i32` overflow.
pub open spec fn line_wf(m: LineModel) -> bool {
    &&& -COORD_LIMIT <= m.x1 <= COORD_LIMIT
    &&& -COORD_LIMIT <= m.y1 <= COORD_LIMIT
    &&& 0 <= m.dx <= 2 * COORD_LIMIT
    &&& -2 * COORD_LIMIT <= m.dy <= 0
    &&& (m.sx == 1 || m.sx == -1)
    &&& (m.sy == 1 || m.sy == -1)
    &&& 0 <= rem_x(m) <= m.dx
    &&& 0 <= rem_y(m) <= -m.dy
    &&& m.err == m.dx + m.dy + (-m.dy - rem_y(m)) * m.dx + (m.dx - rem_x(m)) * m.dy
    &&& 2 * m.dy <= m.err <= 2 * m.dx
    &&& (m.finished ==> at_end(m))
}

/// One iteration of the error-accumulator update, with the cursor not yet on
/// the target: step x while the doubled error exceeds `dy`, then step y while
/// it is below `dx`, the y step being suppressed after an x step when
/// diagonal movement is disallowed.
pub open spec fn spec_step(m: LineModel) -> LineModel {
    let e2 = 2 * m.err;
    let x_walk = e2 > m.dy;
    let m1 = if x_walk {
        LineModel { x0: m.x0 + m.sx, err: m.err + m.dy, ..m }
    } else {
        m
    };
    if (m.diagonal_allow || !x_walk) && e2 < m.dx {
        LineModel { y0: m1.y0 + m.sy, err: m1.err + m.dx, ..m1 }
    } else {
        m1
    }
}

/// The walk's step preserves the invariant, moves the cursor at least one
/// unit toward the target and never past it, and moves on exactly one axis
/// when diagonal movement is disallowed or the line is axis-aligned.
pub proof fn lemma_step(m: LineModel)
    requires
        line_wf(m),
        !at_end(m),
    ensures
        line_wf(spec_step(m)),
        spec_step(m).x1 == m.x1,
        spec_step(m).y1 == m.y1,
        spec_step(m).dx == m.dx,
        spec_step(m).dy == m.dy,
        spec_step(m).sx == m.sx,
        spec_step(m).sy == m.sy,
        spec_step(m).diagonal_allow == m.diagonal_allow,
        spec_step(m).finished == m.finished,
        rem_x(spec_step(m)) + rem_y(spec_step(m)) < rem_x(m) + rem_y(m),
        rem_x(spec_step(m)) <= rem_x(m),
        rem_y(spec_step(m)) <= rem_y(m),
        spec_step(m).x0 == m.x0 || spec_step(m).x0 == m.x0 + m.sx,
        spec_step(m).y0 == m.y0 || spec_step(m).y0 == m.y0 + m.sy,
        !(spec_step(m).x0 == m.x0 && spec_step(m).y0 == m.y0),
        (!m.diagonal_allow || m.dx == 0 || m.dy == 0) ==> (spec_step(m).x0 == m.x0 <==> spec_step(
            m,
        ).y0 != m.y0),
{
    let e2 = 2 * m.err;
    let rx = rem_x(m);
    let ry = rem_y(m);
    // The cursor never overshoots: once an axis is exhausted, its guard is
    // closed.
    if rx == 0 {
        assert(ry >= 1);
        assert(2 * m.err <= m.dy) by (nonlinear_arith)
            requires
                m.err == m.dx + m.dy + (-m.dy - ry) * m.dx + (m.dx - 0) * m.dy,
                ry >= 1,
                m.dx >= 0,
                m.dy <= 0,
                rem_x(m) == 0,
                rx == 0,
                ry == rem_y(m),
        ;
    }
    if ry == 0 {
        assert(rx >= 1);
        assert(2 * m.err >= m.dx) by (nonlinear_arith)
            requires
                m.err == m.dx + m.dy + (-m.dy - 0) * m.dx + (m.dx - rx) * m.dy,
                rx >= 1,
                m.dx >= 0,
                m.dy <= 0,
                ry == 0,
                rx == rem_x(m),
        ;
    }
    let x_walk = e2 > m.dy;
    let s = spec_step(m);
    if x_walk {
        assert(rx >= 1);
        assert(rem_x(s) == rx - 1);
    } else {
        assert(rem_x(s) == rx);
    }
    let y_walk = (m.diagonal_allow || !x_walk) && e2 < m.dx;
    if y_walk {
        assert(ry >= 1);
        assert(rem_y(s) == ry - 1);
    } else {
        assert(rem_y(s) == ry);
    }
    // At least one axis moves: were both guards closed, dx <= 2 err <= dy
    // would force dx == dy == 0, i.e. the end.
    if !x_walk && !y_walk {
        assert(2 * m.err <= m.dy && 2 * m.err >= m.dx);
        assert(m.dx == 0 && m.dy == 0);
        assert(rx == 0 && ry == 0);
        assert(false);
    }
    // The closed form of the error accumulator is maintained.
    assert(s.err == s.dx + s.dy + (-s.dy - rem_y(s)) * s.dx + (s.dx - rem_x(s)) * s.dy)
        by (nonlinear_arith)
        requires
            m.err == m.dx + m.dy + (-m.dy - ry) * m.dx + (m.dx - rx) * m.dy,
            rx == rem_x(m),
            ry == rem_y(m),
            s.dx == m.dx,
            s.dy == m.dy,
            x_walk ==> s.err == m.err + m.dy + (if y_walk {
                m.dx
            } else {
                0
            }),
            !x_walk ==> s.err == m.err + (if y_walk {
                m.dx
            } else {
                0
            }),
            rem_x(s) == (if x_walk {
                rx - 1
            } else {
                rx
            }),
            rem_y(s) == (if y_walk {
                ry - 1
            } else {
                ry
            }),
    ;
    // The error accumulator stays in its band.
    if x_walk && y_walk {
        assert(2 * s.err == 2 * m.err + 2 * m.dy + 2 * m.dx);
        assert(2 * m.dy <= s.err <= 2 * m.dx);
    } else if x_walk {
        assert(2 * m.dy <= s.err <= 2 * m.dx);
    } else if y_walk {
        assert(2 * m.dy <= s.err <= 2 * m.dx);
    }
    // Axis-aligned lines never step on the degenerate axis.
    if m.dx == 0 {
        assert(rx == 0);
    }
    if m.dy == 0 {
        assert(ry == 0);
    }
}

/// The cells the walk will emit from state `m` on, both endpoints included.
pub open spec fn line_points(m: LineModel) -> Seq<(int, int)>
    decreases rem_x(m) + rem_y(m),
        when line_wf(m)
        via line_points_dec
{
    if at_end(m) {
        seq![(m.x0, m.y0)]
    } else {
        seq![(m.x0, m.y0)] + line_points(spec_step(m))
    }
}

#[via_fn]
proof fn line_points_dec(m: LineModel) {
    if !at_end(m) {
        lemma_step(m);
    }
}

/// Whether two cells are distinct and differ by exactly one unit on exactly
/// one axis.
pub open spec fn unit_step(a: (int, int), b: (int, int)) -> bool {
    (a.0 == b.0 && (a.1 == b.1 + 1 || a.1 == b.1 - 1)) || (a.1 == b.1 && (a.0 == b.0 + 1 || a.0
        == b.0 - 1))
}

/// Whether `p` lies in the axis-aligned bounding box of `a` and `b`.
pub open spec fn in_box(p: (int, int), a: (int, int), b: (int, int)) -> bool {
    &&& (a.0 <= p.0 <= b.0 || b.0 <= p.0 <= a.0)
    &&& (a.1 <= p.1 <= b.1 || b.1 <= p.1 <= a.1)
}

/// Endpoint and stepping law of the rasterized line: the first emitted cell
/// is the cursor, the last is the target, every emitted cell lies in the
/// bounding box of the two, and when diagonal movement is disallowed, or the
/// line is axis-aligned, consecutive cells differ by exactly one unit on
/// exactly one axis.
pub proof fn lemma_line_points(m: LineModel)
    requires
        line_wf(m),
    ensures
        line_points(m).len() >= 1,
        line_points(m).first() == (m.x0, m.y0),
        line_points(m).last() == (m.x1, m.y1),
        forall|i: int|
            0 <= i < line_points(m).len() ==> in_box(
                #[trigger] line_points(m)[i],
                (m.x0, m.y0),
                (m.x1, m.y1),
            ),
        (!m.diagonal_allow || m.dx == 0 || m.dy == 0) ==> forall|i: int|
            0 <= i < line_points(m).len() - 1 ==> unit_step(
                #[trigger] line_points(m)[i],
                line_points(m)[i + 1],
            ),
    decreases rem_x(m) + rem_y(m),
{
    if at_end(m) {
    } else {
        lemma_step(m);
        let s = spec_step(m);
        lemma_line_points(s);
        let pts = line_points(m);
        let rest = line_points(s);
        assert(pts == seq![(m.x0, m.y0)] + rest);
        assert(pts.last() == rest.last());
        // The tail's bounding box sits inside this one: the cursor only
        // moved toward the target.
        assert forall|i: int| 0 <= i < pts.len() implies in_box(
            #[trigger] pts[i],
            (m.x0, m.y0),
            (m.x1, m.y1),
        ) by {
            if i == 0 {
            } else {
                assert(pts[i] == rest[i - 1]);
                assert(in_box(rest[i - 1], (s.x0, s.y0), (s.x1, s.y1)));
            }
        }
        if !m.diagonal_allow || m.dx == 0 || m.dy == 0 {
            assert forall|i: int| 0 <= i < pts.len() - 1 implies unit_step(
                #[trigger] pts[i],
                pts[i + 1],
            ) by {
                if i == 0 {
                    assert(pts[0] == (m.x0, m.y0));
                    assert(pts[1] == rest[0]);
                    assert(rest[0] == (s.x0, s.y0));
                    assert(unit_step((m.x0, m.y0), (s.x0, s.y0)));
                } else {
                    assert(pts[i] == rest[i - 1]);
                    assert(pts[i + 1] == rest[i]);
                }
            }
        }
    }
}

/// The starting state of a walk from `(x0, y0)` to `(x1, y1)`: exactly what
/// `BresenhamLine::new` builds.
pub open spec fn line_model(x0: int, y0: int, x1: int, y1: int, diagonal_allow: bool) -> LineModel {
    let dx = if x1 >= x0 {
        x1 - x0
    } else {
        x0 - x1
    };
    let dy = if y1 >= y0 {
        y0 - y1
    } else {
        y1 - y0
    };
    LineModel {
        x0,
        y0,
        x1,
        y1,
        dx,
        sx: if x0 < x1 {
            1
        } else {
            -1
        },
        dy,
        sy: if y0 < y1 {
            1
        } else {
            -1
        },
        err: dx + dy,
        diagonal_allow,
        finished: false,
    }
}

/// On an axis-aligned line the walk emits every cell between its endpoints:
/// each step moves one unit along the one live axis, so nothing is skipped.
pub proof fn lemma_line_points_cover(m: LineModel)
    requires
        line_wf(m),
        m.dx == 0 || m.dy == 0,
    ensures
        forall|q: (int, int)|
            #[trigger] in_box(q, (m.x0, m.y0), (m.x1, m.y1)) ==> exists|i: int|
                0 <= i < line_points(m).len() && line_points(m)[i] == q,
    decreases rem_x(m) + rem_y(m),
{
    let pts = line_points(m);
    if at_end(m) {
        assert forall|q: (int, int)|
            #[trigger] in_box(q, (m.x0, m.y0), (m.x1, m.y1)) implies exists|i: int|
            0 <= i < pts.len() && pts[i] == q by {
            assert(q == (m.x0, m.y0));
            assert(pts[0] == q);
        }
    } else {
        lemma_step(m);
        let s = spec_step(m);
        lemma_line_points_cover(s);
        let rest = line_points(s);
        assert(pts == seq![(m.x0, m.y0)] + rest);
        assert forall|q: (int, int)|
            #[trigger] in_box(q, (m.x0, m.y0), (m.x1, m.y1)) implies exists|i: int|
            0 <= i < pts.len() && pts[i] == q by {
            if q == (m.x0, m.y0) {
                assert(pts[0] == q);
            } else {
                // the cursor moved one unit along the live axis toward the
                // target, so every other cell of the box stays in the box
                // of the advanced cursor
                assert(in_box(q, (s.x0, s.y0), (s.x1, s.y1)));
                let j = choose|i: int| 0 <= i < rest.len() && rest[i] == q;
                assert(pts[j + 1] == q);
            }
        }
    }
}

impl BresenhamLine {
    /// A fresh walk from `(x0, y0)` to `(x1, y1)`. With `diagonal_allow`
    /// false, each emitted step moves on exactly one axis.
    pub fn new(x0: i32, y0: i32, x1: i32, y1: i32, diagonal_allow: bool) -> (r: BresenhamLine)
        requires
            -COORD_LIMIT <= x0 <= COORD_LIMIT,
            -COORD_LIMIT <= y0 <= COORD_LIMIT,
            -COORD_LIMIT <= x1 <= COORD_LIMIT,
            -COORD_LIMIT <= y1 <= COORD_LIMIT,
        ensures
            line_wf(r@),
            !r@.finished,
            r@.x0 == x0,
            r@.y0 == y0,
            r@.x1 == x1,
            r@.y1 == y1,
            r@.diagonal_allow == diagonal_allow,
            r@.dx == (if x1 >= x0 {
                x1 - x0
            } else {
                x0 - x1
            }),
            r@.dy == (if y1 >= y0 {
                y0 - y1
            } else {
                y1 - y0
            }),
            r@ == line_model(x0 as int, y0 as int, x1 as int, y1 as int, diagonal_allow),
    {
        let dx = if x1 >= x0 {
            x1 - x0
        } else {
            x0 - x1
        };
        let sx: i32 = if x0 < x1 {
            1
        } else {
            -1
        };
        let dy = if y1 >= y0 {
            y0 - y1
        } else {
            y1 - y0
        };
        let sy: i32 = if y0 < y1 {
            1
        } else {
            -1
        };
        let err = dx + dy;
        let r = BresenhamLine { x0, y0, x1, y1, dx, sx, dy, sy, err, diagonal_allow, finished: false };
        proof {
            assert(rem_x(r@) == r@.dx);
            assert(rem_y(r@) == -r@.dy);
            assert(r@.err == r@.dx + r@.dy + (-r@.dy - rem_y(r@)) * r@.dx + (r@.dx - rem_x(r@))
                * r@.dy) by (nonlinear_arith)
                requires
                    r@.err == r@.dx + r@.dy,
                    rem_x(r@) == r@.dx,
                    rem_y(r@) == -r@.dy,
            ;
        }
        r
    }

    /// The next cell of the line, or `None` once the target has been
    /// emitted. Emits exactly `line_points` of the starting state, in order.
    pub fn next(&mut self) -> (r: Option<(i32, i32)>)
        requires
            line_wf(old(self)@),
        ensures
            line_wf(final(self)@),
            old(self)@.finished ==> r is None && final(self)@ == old(self)@,
            !old(self)@.finished ==> r == Some((old(self)@.x0 as i32, old(self)@.y0 as i32)),
            !old(self)@.finished && at_end(old(self)@) ==> final(self)@ == (LineModel {
                finished: true,
                ..old(self)@
            }),
            !old(self)@.finished && !at_end(old(self)@) ==> final(self)@ == spec_step(old(self)@)
                && !final(self)@.finished,
    {
        if self.finished {
            return None;
        }
        let current_point = (self.x0, self.y0);

        if self.x0 == self.x1 && self.y0 == self.y1 {
            self.finished = true;
            return Some(current_point);
        }
        proof {
            lemma_step(self@);
        }
        let e2 = 2 * self.err;
        let mut y_walk = false;

        if e2 > self.dy {
            self.err = self.err + self.dy;
            self.x0 = self.x0 + self.sx;
            y_walk = true;
        }

        if self.diagonal_allow || !y_walk {
            if e2 < self.dx {
                self.err = self.err + self.dx;
                self.y0 = self.y0 + self.sy;
            }
        }

        Some(current_point)
    }
}

} // verus!
