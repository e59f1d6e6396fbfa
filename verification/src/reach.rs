//! Reachability over floor cells: a cell reaches another when a path of
//! 4-directionally adjacent Floor cells joins them. The dungeon generators
//! promise that every Floor cell of a finished map reaches the player spawn.

use vstd::prelude::*;
use crate::tile::{Tile, TileType};
use crate::grid::{in_bounds, kind_at};
use crate::bresenham::unit_step;

verus! {

/// Whether `p` is a Floor cell of the grid model.
pub open spec fn is_floor(g: Seq<Seq<Tile>>, p: (int, int)) -> bool {
    in_bounds(g, p.0, p.1) && kind_at(g, p.0, p.1) == TileType::Floor
}

/// A walkable path: one or more Floor cells, each consecutive pair
/// 4-directionally adjacent.
pub open spec fn floor_path(g: Seq<Seq<Tile>>, p: Seq<(int, int)>) -> bool {
    &&& p.len() >= 1
    &&& forall|i: int| 0 <= i < p.len() ==> is_floor(g, #[trigger] p[i])
    &&& forall|i: int| 0 <= i < p.len() - 1 ==> unit_step(#[trigger] p[i], p[i + 1])
}

/// Whether a walkable path joins `a` to `b`.
pub open spec fn reach(g: Seq<Seq<Tile>>, a: (int, int), b: (int, int)) -> bool {
    exists|p: Seq<(int, int)>| floor_path(g, p) && p.first() == a && p.last() == b
}

/// A Floor cell reaches itself.
pub proof fn lemma_reach_refl(g: Seq<Seq<Tile>>, a: (int, int))
    requires
        is_floor(g, a),
    ensures
        reach(g, a, a),
{
    let p = seq![a];
    assert(floor_path(g, p) && p.first() == a && p.last() == a);
}

/// Two adjacent Floor cells reach each other.
pub proof fn lemma_reach_adjacent(g: Seq<Seq<Tile>>, a: (int, int), b: (int, int))
    requires
        is_floor(g, a),
        is_floor(g, b),
        unit_step(a, b),
    ensures
        reach(g, a, b),
{
    let p = seq![a, b];
    assert(floor_path(g, p) && p.first() == a && p.last() == b);
}

/// Reachability is transitive: paths concatenate at the shared cell.
pub proof fn lemma_reach_trans(g: Seq<Seq<Tile>>, a: (int, int), b: (int, int), c: (int, int))
    requires
        reach(g, a, b),
        reach(g, b, c),
    ensures
        reach(g, a, c),
{
    let p1 = choose|p: Seq<(int, int)>| floor_path(g, p) && p.first() == a && p.last() == b;
    let p2 = choose|p: Seq<(int, int)>| floor_path(g, p) && p.first() == b && p.last() == c;
    let p = p1 + p2.drop_first();
    assert(p.len() == p1.len() + p2.len() - 1);
    if p2.len() == 1 {
        assert(p =~= p1);
        assert(p.last() == b && b == c);
    } else {
        assert(p.last() == p2.last());
        assert forall|i: int| 0 <= i < p.len() implies is_floor(g, #[trigger] p[i]) by {
            if i < p1.len() {
                assert(p[i] == p1[i]);
            } else {
                assert(p[i] == p2[i - p1.len() + 1]);
            }
        }
        assert forall|i: int| 0 <= i < p.len() - 1 implies unit_step(#[trigger] p[i], p[i + 1]) by {
            if i + 1 < p1.len() {
                assert(p[i] == p1[i] && p[i + 1] == p1[i + 1]);
            } else if i + 1 == p1.len() {
                assert(p[i] == p1[i] && p1[i] == b && b == p2[0]);
                assert(p[i + 1] == p2[1]);
                assert(unit_step(p2[0], p2[1]));
            } else {
                assert(p[i] == p2[i - p1.len() + 1] && p[i + 1] == p2[i - p1.len() + 2]);
            }
        }
        assert(floor_path(g, p) && p.first() == a && p.last() == c);
    }
}

/// Reachability is symmetric: the reversed path serves.
pub proof fn lemma_reach_symm(g: Seq<Seq<Tile>>, a: (int, int), b: (int, int))
    requires
        reach(g, a, b),
    ensures
        reach(g, b, a),
{
    let p1 = choose|p: Seq<(int, int)>| floor_path(g, p) && p.first() == a && p.last() == b;
    let p = p1.reverse();
    assert forall|i: int| 0 <= i < p.len() - 1 implies unit_step(#[trigger] p[i], p[i + 1]) by {
        assert(p[i] == p1[p1.len() - i - 1]);
        assert(p[i + 1] == p1[p1.len() - i - 2]);
        assert(unit_step(p1[p1.len() - i - 2], p1[p1.len() - i - 1]));
    }
    assert(floor_path(g, p) && p.first() == b && p.last() == a);
}

/// A change that keeps every Floor cell a Floor cell keeps every path
/// walkable.
pub proof fn lemma_reach_monotone(
    g1: Seq<Seq<Tile>>,
    g2: Seq<Seq<Tile>>,
    a: (int, int),
    b: (int, int),
)
    requires
        reach(g1, a, b),
        forall|p: (int, int)| is_floor(g1, p) ==> is_floor(g2, p),
    ensures
        reach(g2, a, b),
{
    let p1 = choose|p: Seq<(int, int)>| floor_path(g1, p) && p.first() == a && p.last() == b;
    assert(floor_path(g2, p1));
}

} // verus!

verus! {

/// All cells of an axis-aligned segment being Floor joins its endpoints.
pub proof fn lemma_straight_reach(g: Seq<Seq<Tile>>, a: (int, int), b: (int, int))
    requires
        a.0 == b.0 || a.1 == b.1,
        forall|p: (int, int)| #[trigger] crate::bresenham::in_box(p, a, b) ==> is_floor(g, p),
    ensures
        reach(g, a, b),
    decreases (if b.0 >= a.0 {
        b.0 - a.0
    } else {
        a.0 - b.0
    }) + (if b.1 >= a.1 {
        b.1 - a.1
    } else {
        a.1 - b.1
    }),
{
    assert(crate::bresenham::in_box(a, a, b));
    if a == b {
        lemma_reach_refl(g, a);
    } else {
        let a2: (int, int) = if a.0 == b.0 {
            (a.0, if b.1 > a.1 {
                a.1 + 1
            } else {
                a.1 - 1
            })
        } else {
            (if b.0 > a.0 {
                a.0 + 1
            } else {
                a.0 - 1
            }, a.1)
        };
        assert(crate::bresenham::in_box(a2, a, b));
        assert(unit_step(a, a2));
        assert forall|p: (int, int)| #[trigger] crate::bresenham::in_box(p, a2, b) implies is_floor(
            g,
            p,
        ) by {
            assert(crate::bresenham::in_box(p, a, b));
        }
        lemma_straight_reach(g, a2, b);
        lemma_reach_adjacent(g, a, a2);
        lemma_reach_trans(g, a, a2, b);
    }
}

} // verus!

verus! {

/// Every Floor cell of `g1` is still a Floor cell of `g2`.
pub open spec fn floors_monotone(g1: Seq<Seq<Tile>>, g2: Seq<Seq<Tile>>) -> bool {
    forall|p: (int, int)| is_floor(g1, p) ==> is_floor(g2, p)
}

/// Every Floor cell of `g` was already Floor in `base` or walkably reaches
/// `anchor` in `g`.
pub open spec fn floors_connected_from(
    base: Seq<Seq<Tile>>,
    g: Seq<Seq<Tile>>,
    anchor: (int, int),
) -> bool {
    forall|p: (int, int)| is_floor(g, p) ==> is_floor(base, p) || reach(g, anchor, p)
}

} // verus!
