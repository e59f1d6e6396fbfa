//! Continuous line-of-sight: step a ray from observer to target in
//! half-unit increments, sampling the cell under each point, and fail the
//! sightline the moment a Wall cell is hit. This is deliberately a distinct
//! algorithm from the rasterized `is_wall_between`: the two serve different
//! callers and need not agree at cell boundaries.

use vstd::prelude::*;
use crate::grid::in_bounds;
use crate::tile::TileType;
use crate::map::{GameMap, WorldPos, world_to_grid_coord};

verus! {

/// Whether `r` is the integer square root of `n`.
pub open spec fn is_int_sqrt(n: int, r: int) -> bool {
    0 <= r && r * r <= n && n < (r + 1) * (r + 1)
}

/// The integer square root of a nonnegative number.
pub open spec fn int_sqrt(n: int) -> int {
    choose|r: int| is_int_sqrt(n, r)
}

/// The integer square root is unique.
pub proof fn lemma_int_sqrt_unique(n: int, r1: int, r2: int)
    requires
        is_int_sqrt(n, r1),
        is_int_sqrt(n, r2),
    ensures
        r1 == r2,
{
    assert(r1 == r2) by (nonlinear_arith)
        requires
            0 <= r1 && r1 * r1 <= n && n < (r1 + 1) * (r1 + 1),
            0 <= r2 && r2 * r2 <= n && n < (r2 + 1) * (r2 + 1),
    ;
}

/// The integer square root, by bisection.
pub fn isqrt(n: u64) -> (r: u64)
    requires
        n < 0x8000_0000_0000_0000,
    ensures
        is_int_sqrt(n as int, r as int),
        r == int_sqrt(n as int),
{
    let mut lo: u64 = 0;
    let mut hi: u64 = 3_037_000_500;
    proof {
        assert((3_037_000_500int) * (3_037_000_500int) > 0x8000_0000_0000_0000int)
            by (nonlinear_arith);
    }
    while lo + 1 < hi
        invariant
            lo < hi <= 3_037_000_500,
            (lo as int) * (lo as int) <= n as int,
            (n as int) < (hi as int) * (hi as int),
        decreases hi - lo,
    {
        let mid = lo + (hi - lo) / 2;
        proof {
            assert(lo < mid < hi);
            assert((mid as int) * (mid as int) < 0x8000_0000_0000_0000int + 0x8000_0000_0000_0000int)
                by (nonlinear_arith)
                requires
                    0 <= mid < 3_037_000_500int,
            ;
        }
        if mid * mid <= n {
            lo = mid;
        } else {
            hi = mid;
        }
    }
    proof {
        assert(hi == lo + 1);
        assert(is_int_sqrt(n as int, lo as int));
        lemma_int_sqrt_unique(n as int, lo as int, int_sqrt(n as int));
    }
    lo
}

/// The absolute value of a difference, at the specification level.
pub open spec fn abs_of(d: int) -> int {
    if d >= 0 {
        d
    } else {
        -d
    }
}

/// One axis of the `k`-th sample point of a ray: the start coordinate plus
/// the signed offset of `k` half-unit steps along the (unnormalized) delta.
pub open spec fn sample_coord(s: int, d: int, k: int, dist: int) -> int {
    let off = (abs_of(d) * (500 * k)) / dist;
    if d >= 0 {
        s + off
    } else {
        s - off
    }
}

/// The straight-line distance between two world positions, in fixed-point
/// steps, rounded down.
pub open spec fn spec_distance(start: WorldPos, end: WorldPos) -> int {
    int_sqrt(
        (end.x - start.x) * (end.x - start.x) + (end.z - start.z) * (end.z - start.z),
    )
}

/// Whether the cell under the `k`-th sample point of the ray is a Wall.
pub open spec fn los_blocked_at(m: GameMap, start: WorldPos, end: WorldPos, k: int) -> bool {
    let dist = spec_distance(start, end);
    m.wall_under(
        sample_coord(start.x as int, end.x - start.x, k, dist),
        sample_coord(start.z as int, end.z - start.z, k, dist),
    )
}

/// A clear sightline: no sample point strictly before the full distance
/// falls in a Wall cell.
pub open spec fn spec_line_of_sight(m: GameMap, start: WorldPos, end: WorldPos) -> bool {
    forall|k: int| 0 <= k && 500 * k < spec_distance(start, end) ==> !los_blocked_at(m, start, end, k)
}

/// The grid cell under the `k`-th sample point of the ray.
pub open spec fn sample_cell(m: GameMap, start: WorldPos, end: WorldPos, k: int) -> (int, int) {
    let dist = spec_distance(start, end);
    (
        world_to_grid_coord(
            sample_coord(start.x as int, end.x - start.x, k, dist),
            m.center.0 as int,
        ),
        world_to_grid_coord(
            sample_coord(start.z as int, end.z - start.z, k, dist),
            m.center.1 as int,
        ),
    )
}

/// A sufficient check for the sightline's precondition: when the cell under
/// the upper corner of the ray's bounding box lies on the grid, so does the
/// cell under every sample point, since sampling never leaves that box and
/// the inverse transform preserves order.
pub proof fn lemma_sightline_samples_on_grid(m: GameMap, start: WorldPos, end: WorldPos)
    requires
        m.wf(),
        -1_000_000_000 <= start.x <= 1_000_000_000,
        -1_000_000_000 <= start.z <= 1_000_000_000,
        -1_000_000_000 <= end.x <= 1_000_000_000,
        -1_000_000_000 <= end.z <= 1_000_000_000,
        in_bounds(
            m.grid@,
            world_to_grid_coord(
                (if end.x >= start.x {
                    end.x
                } else {
                    start.x
                }) as int,
                m.center.0 as int,
            ),
            world_to_grid_coord(
                (if end.z >= start.z {
                    end.z
                } else {
                    start.z
                }) as int,
                m.center.1 as int,
            ),
        ),
    ensures
        forall|k: int|
            0 <= k && 500 * k < spec_distance(start, end) ==> in_bounds(
                m.grid@,
                (#[trigger] sample_cell(m, start, end, k)).0,
                sample_cell(m, start, end, k).1,
            ),
{
    let dist = spec_distance(start, end);
    let hix: int = if end.x >= start.x {
        end.x as int
    } else {
        start.x as int
    };
    let hiz: int = if end.z >= start.z {
        end.z as int
    } else {
        start.z as int
    };
    assert forall|k: int| 0 <= k && 500 * k < dist implies in_bounds(
        m.grid@,
        (#[trigger] sample_cell(m, start, end, k)).0,
        sample_cell(m, start, end, k).1,
    ) by {
        let dx = end.x - start.x;
        let dz = end.z - start.z;
        assert(abs_of(dx) * (500 * k) / dist <= abs_of(dx) && 0 <= abs_of(dx) * (500 * k) / dist
            && abs_of(dz) * (500 * k) / dist <= abs_of(dz) && 0 <= abs_of(dz) * (500 * k) / dist)
            by (nonlinear_arith)
            requires
                0 <= abs_of(dx),
                0 <= abs_of(dz),
                0 <= 500 * k,
                500 * k < dist,
        ;
        let px = sample_coord(start.x as int, dx, k, dist);
        let pz = sample_coord(start.z as int, dz, k, dist);
        assert(px <= hix && pz <= hiz);
        lemma_w2g_monotone(px, hix, m.center.0 as int);
        lemma_w2g_monotone(pz, hiz, m.center.1 as int);
    }
}

/// The inverse transform never maps below zero and preserves order.
proof fn lemma_w2g_monotone(w1: int, w2: int, c: int)
    requires
        w1 <= w2,
    ensures
        0 <= world_to_grid_coord(w1, c),
        world_to_grid_coord(w1, c) <= world_to_grid_coord(w2, c),
{
    let n1 = w1 + 2000 + 4000 * c;
    let n2 = w2 + 2000 + 4000 * c;
    if n1 >= 0 {
        assert(0 <= n1 / 4000 && n1 / 4000 <= n2 / 4000) by (nonlinear_arith)
            requires
                0 <= n1 <= n2,
        ;
    } else if n2 >= 0 {
        assert(0 <= n2 / 4000) by (nonlinear_arith)
            requires
                0 <= n2,
        ;
    }
}

/// Step a ray from `start` toward `end` in half-unit increments, convert
/// each sample point to a grid cell, and report whether every sampled cell
/// short of the full distance is free of Wall. The caller owes exactly that
/// every sampled cell lies on the grid — a sample off the grid is a
/// coordinate bug; `lemma_sightline_samples_on_grid` discharges this from
/// the ray's bounding box.
#[verifier::rlimit(100)]
pub fn has_line_of_sight(game_map: &GameMap, start: WorldPos, end: WorldPos) -> (r: bool)
    requires
        game_map.wf(),
        -1_000_000_000 <= start.x <= 1_000_000_000,
        -1_000_000_000 <= start.z <= 1_000_000_000,
        -1_000_000_000 <= end.x <= 1_000_000_000,
        -1_000_000_000 <= end.z <= 1_000_000_000,
        forall|k: int|
            0 <= k && 500 * k < spec_distance(start, end) ==> in_bounds(
                game_map.grid@,
                (#[trigger] sample_cell(*game_map, start, end, k)).0,
                sample_cell(*game_map, start, end, k).1,
            ),
    ensures
        r == spec_line_of_sight(*game_map, start, end),
{
    let dx: i64 = end.x - start.x;
    let dz: i64 = end.z - start.z;
    let adx: u64 = if dx >= 0 {
        dx as u64
    } else {
        (-dx) as u64
    };
    let adz: u64 = if dz >= 0 {
        dz as u64
    } else {
        (-dz) as u64
    };
    proof {
        assert(adx * adx + adz * adz < 0x8000_0000_0000_0000u64) by (nonlinear_arith)
            requires
                0 <= adx <= 2_000_000_000u64,
                0 <= adz <= 2_000_000_000u64,
        ;
    }
    let dist = isqrt(adx * adx + adz * adz);
    proof {
        assert((adx as int) * (adx as int) == ((end.x - start.x) as int) * ((end.x
            - start.x) as int) && (adz as int) * (adz as int) == ((end.z - start.z) as int) * ((
        end.z - start.z) as int)) by (nonlinear_arith)
            requires
                adx as int == (end.x - start.x) as int || adx as int == -((end.x
                    - start.x) as int),
                adz as int == (end.z - start.z) as int || adz as int == -((end.z
                    - start.z) as int),
        ;
        assert(dist == spec_distance(start, end));
        assert((dist as int) * (dist as int) <= (adx * adx + adz * adz)) by {
            assert(is_int_sqrt((adx * adx + adz * adz) as int, dist as int));
        }
        assert(dist <= 2_900_000_000u64) by (nonlinear_arith)
            requires
                (dist as int) * (dist as int) <= (adx as int) * (adx as int) + (adz as int) * (
                adz as int),
                0 <= adx <= 2_000_000_000u64,
                0 <= adz <= 2_000_000_000u64,
                dist >= 0,
        ;
    }

    let mut k: u64 = 0;
    while 500 * k < dist
        invariant
            game_map.wf(),
            dist == spec_distance(start, end),
            dist <= 2_900_000_000u64,
            dx == end.x - start.x,
            dz == end.z - start.z,
            adx == abs_of(dx as int),
            adz == abs_of(dz as int),
            -1_000_000_000 <= start.x <= 1_000_000_000,
            -1_000_000_000 <= start.z <= 1_000_000_000,
            -1_000_000_000 <= end.x <= 1_000_000_000,
            -1_000_000_000 <= end.z <= 1_000_000_000,
            forall|j: int|
                0 <= j && 500 * j < spec_distance(start, end) ==> in_bounds(
                    game_map.grid@,
                    (#[trigger] sample_cell(*game_map, start, end, j)).0,
                    sample_cell(*game_map, start, end, j).1,
                ),
            k <= 2_900_000_000u64,
            forall|j: int| 0 <= j < k ==> !los_blocked_at(*game_map, start, end, j),
        decreases (dist as int) / 500 + 1 - k,
    {
        let step: u64 = 500 * k;
        proof {
            assert((adx as int) * (step as int) / (dist as int) <= adx as int && (adz as int)
                * (step as int) / (dist as int) <= adz as int) by (nonlinear_arith)
                requires
                    0 <= adx as int,
                    0 <= adz as int,
                    0 <= step as int,
                    (step as int) < (dist as int),
            ;
            assert((adx as int) * (step as int) <= 5_800_000_000_000_000_000 && (adz as int) * (
            step as int) <= 5_800_000_000_000_000_000) by (nonlinear_arith)
                requires
                    0 <= adx as int <= 2_000_000_000,
                    0 <= adz as int <= 2_000_000_000,
                    0 <= step as int <= 2_900_000_000,
            ;
        }
        let off_x: u64 = adx * step / dist;
        let off_z: u64 = adz * step / dist;
        let px: i64 = if dx >= 0 {
            start.x + (off_x as i64)
        } else {
            start.x - (off_x as i64)
        };
        let pz: i64 = if dz >= 0 {
            start.z + (off_z as i64)
        } else {
            start.z - (off_z as i64)
        };
        proof {
            assert(px == sample_coord(start.x as int, dx as int, k as int, dist as int));
            assert(pz == sample_coord(start.z as int, dz as int, k as int, dist as int));
        }
        let cell = game_map.world_to_grid(WorldPos { x: px, z: pz });
        proof {
            assert((cell.0 as int, cell.1 as int) == sample_cell(*game_map, start, end, k as int));
            assert(in_bounds(game_map.grid@, cell.0 as int, cell.1 as int));
        }
        let t = game_map.grid.at(cell.0, cell.1);
        if matches!(t.tile_type, TileType::Wall) {
            proof {
                assert(los_blocked_at(*game_map, start, end, k as int));
            }
            return false;
        }
        k += 1;
    }
    proof {
        assert forall|j: int|
            0 <= j && 500 * j < spec_distance(start, end) implies !los_blocked_at(
            *game_map,
            start,
            end,
            j,
        ) by {
            assert(j < k);
        }
    }
    true
}

} // verus!
