use dungeon::generators::{DungeonGeneratorStrategy, GenerationError, MapGeneratorFirst,
    MapGeneratorSecond, MapGeneratorThird, MapGeneratorStart1, MapGeneratorStart, place_rooms};
use dungeon::grid::Grid;
use dungeon::map::GameMap;
use dungeon::room::Room;
use dungeon::tile::TileType;

fn kind(map: &GameMap, x: usize, y: usize) -> TileType {
    map.grid.get(x, y).unwrap().tile_type
}

/// Flood-fill over Floor cells from the spawn and check that every Floor
/// cell was visited.
fn assert_all_floor_connected(map: &GameMap) {
    let w = map.width;
    let h = map.height;
    let mut seen = vec![vec![false; w]; h];
    let mut stack = Vec::new();
    let spawn = map.player_position;
    if kind(map, spawn.0, spawn.1) == TileType::Floor {
        seen[spawn.1][spawn.0] = true;
        stack.push(spawn);
    }
    while let Some((x, y)) = stack.pop() {
        let mut neighbors = Vec::new();
        if x > 0 {
            neighbors.push((x - 1, y));
        }
        if x + 1 < w {
            neighbors.push((x + 1, y));
        }
        if y > 0 {
            neighbors.push((x, y - 1));
        }
        if y + 1 < h {
            neighbors.push((x, y + 1));
        }
        for (nx, ny) in neighbors {
            if !seen[ny][nx] && kind(map, nx, ny) == TileType::Floor {
                seen[ny][nx] = true;
                stack.push((nx, ny));
            }
        }
    }
    for y in 0..h {
        for x in 0..w {
            if kind(map, x, y) == TileType::Floor {
                assert!(seen[y][x], "floor cell ({x},{y}) unreachable from spawn {spawn:?}");
            }
        }
    }
}

#[test]
fn first_generator_fills_floor_and_centers_spawn() {
    let map = MapGeneratorFirst::new(10, 8).generate().unwrap();
    assert_eq!(map.width, 10);
    assert_eq!(map.height, 8);
    assert_eq!(map.player_position, (5, 4));
    assert_eq!(map.center, (5, 4));
    for y in 0..8 {
        for x in 0..10 {
            assert_eq!(kind(&map, x, y), TileType::Floor);
        }
    }
    assert!(map.monsters.is_empty());
    assert!(map.items.is_empty());
    assert_all_floor_connected(&map);
}

#[test]
fn second_generator_stamps_two_disconnected_rooms() {
    let map = MapGeneratorSecond::new(80, 45).generate().unwrap();
    assert_eq!(map.player_position, (25, 22));
    assert_eq!(map.center, (40, 22));
    for y in 0..45 {
        for x in 0..80 {
            let inside = (21 <= x && x < 30 && 16 <= y && y < 30) || (36 <= x && x < 45 && 16 <= y
                && y < 30);
            let expected = if inside { TileType::Floor } else { TileType::Wall };
            assert_eq!(kind(&map, x, y), expected, "at ({x},{y})");
        }
    }
}

#[test]
fn fixtures_accept_the_smallest_grid_that_holds_the_rooms() {
    // the fixed rooms end at column 45 and row 30: a 45 x 30 grid is enough
    let small = MapGeneratorSecond::new(45, 30).generate().unwrap();
    assert_eq!(small.player_position, (25, 22));
    assert_eq!(small.center, (22, 15));
    let small3 = MapGeneratorThird::new(45, 30).generate().unwrap();
    assert_eq!(small3.player_position, (25, 22));
    for x in 25..=40 {
        assert_eq!(kind(&small3, x, 22), TileType::Floor);
    }
}

#[test]
fn two_room_generation_carves_a_walkable_tunnel() {
    let map = MapGeneratorThird::new(80, 45).generate().unwrap();
    // both room centers are floor and the spawn is the first center
    assert_eq!(map.player_position, (25, 22));
    assert_eq!(kind(&map, 25, 22), TileType::Floor);
    assert_eq!(kind(&map, 40, 22), TileType::Floor);
    // the two centers share a row, so whichever elbow the coin picked, the
    // tunnel is the straight run between them; everything else stays wall
    for y in 0..45 {
        for x in 0..80 {
            let inside = (21 <= x && x < 30 && 16 <= y && y < 30) || (36 <= x && x < 45 && 16 <= y
                && y < 30) || (y == 22 && 25 <= x && x <= 40);
            let expected = if inside { TileType::Floor } else { TileType::Wall };
            assert_eq!(kind(&map, x, y), expected, "at ({x},{y})");
        }
    }
    assert_all_floor_connected(&map);
}

#[test]
fn room_intersection_boundary_cases() {
    let a = Room::new(20, 15, 10, 15);
    // the bounding boxes are half-open: outer rectangles that share exactly
    // one edge (a.x2 == b.x1) do not count as overlapping
    let b = Room::new(30, 15, 10, 15);
    assert!(!a.intersects(&b));
    assert!(!b.intersects(&a));
    // one column less of clearance overlaps
    let c = Room::new(29, 15, 10, 15);
    assert!(c.intersects(&a));
    assert!(a.intersects(&c));
    // overlap on one axis alone is no collision
    let d = Room::new(20, 30, 10, 15);
    assert!(!a.intersects(&d));
    assert!(!d.intersects(&a));
}

#[test]
fn placed_rooms_never_overlap() {
    for _ in 0..5 {
        let mut grid = Grid::new(80, 45, TileType::Wall);
        let (rooms, spawn) = place_rooms(&mut grid, 30, 6, 10);
        assert!(!rooms.is_empty());
        assert_eq!(spawn, rooms[0].center);
        for i in 0..rooms.len() {
            for j in 0..rooms.len() {
                if i != j {
                    assert!(!rooms[i].intersects(&rooms[j]), "rooms {i} and {j} overlap");
                }
            }
        }
        for room in &rooms {
            assert!(room.x2 <= 78 && room.y2 <= 43, "one-cell margin holds");
            let width = room.width();
            let height = room.height();
            assert!((6..=10).contains(&width));
            assert!((6..=10).contains(&height));
        }
        // each accepted room is tunneled to the immediately previous one:
        // one of the two elbows carries an all-floor L between the centers
        let floor_at = |x: usize, y: usize| {
            grid.get(x, y).unwrap().tile_type == TileType::Floor
        };
        let seg_floor = |a: (usize, usize), b: (usize, usize)| {
            if a.0 == b.0 {
                (a.1.min(b.1)..=a.1.max(b.1)).all(|y| floor_at(a.0, y))
            } else {
                assert_eq!(a.1, b.1);
                (a.0.min(b.0)..=a.0.max(b.0)).all(|x| floor_at(x, a.1))
            }
        };
        for w in rooms.windows(2) {
            let prev = w[0].center;
            let next = w[1].center;
            let elbow_a = (next.0, prev.1);
            let elbow_b = (prev.0, next.1);
            let chained = (seg_floor(next, elbow_a) && seg_floor(elbow_a, prev)) || (seg_floor(
                next,
                elbow_b,
            ) && seg_floor(elbow_b, prev));
            assert!(chained, "rooms {prev:?} and {next:?} are not L-chained");
        }
        // no floor cell touches the grid boundary
        for x in 0..80usize {
            assert!(!floor_at(x, 0) && !floor_at(x, 44));
        }
        for y in 0..45usize {
            assert!(!floor_at(0, y) && !floor_at(79, y));
        }
    }
}

#[test]
fn randomized_floor_is_fully_connected() {
    for _ in 0..5 {
        let map = MapGeneratorStart1::new(80, 45, 30, 6, 10).generate().unwrap();
        assert_eq!(map.width, 80);
        assert_eq!(map.height, 45);
        assert_eq!(kind(&map, map.player_position.0, map.player_position.1), TileType::Floor);
        assert_all_floor_connected(&map);
    }
}

#[test]
fn pruning_leaves_no_isolated_walls() {
    let map = MapGeneratorStart1::new(80, 45, 30, 6, 10).generate().unwrap();
    for y in 0..45usize {
        for x in 0..80usize {
            if kind(&map, x, y) == TileType::Wall {
                let mut has_floor = false;
                if y > 0 && kind(&map, x, y - 1) == TileType::Floor {
                    has_floor = true;
                }
                if y < 44 && kind(&map, x, y + 1) == TileType::Floor {
                    has_floor = true;
                }
                if x > 0 && kind(&map, x - 1, y) == TileType::Floor {
                    has_floor = true;
                }
                if x < 79 && kind(&map, x + 1, y) == TileType::Floor {
                    has_floor = true;
                }
                assert!(has_floor, "wall at ({x},{y}) has no adjacent floor");
            }
        }
    }
}

#[test]
fn populated_floor_spawns_stand_on_floor() {
    let map = MapGeneratorStart::new(80, 45, 30, 6, 10, 3, 2).generate().unwrap();
    // with at least one attempt the first placement always succeeds, so the
    // spawn stands on floor
    assert_eq!(kind(&map, map.player_position.0, map.player_position.1), TileType::Floor);
    assert_all_floor_connected(&map);
    // the per-room budgets cap the totals: at most max_rooms accepted rooms
    assert!(map.monsters.len() <= 30 * 3);
    assert!(map.items.len() <= 30 * 2);
    for m in &map.monsters {
        assert_eq!(kind(&map, m.position.0, m.position.1), TileType::Floor);
    }
    for it in &map.items {
        assert_eq!(kind(&map, it.position.0, it.position.1), TileType::Floor);
    }
    // no floor on the boundary
    for x in 0..80usize {
        assert_ne!(kind(&map, x, 0), TileType::Floor);
        assert_ne!(kind(&map, x, 44), TileType::Floor);
    }
    for y in 0..45usize {
        assert_ne!(kind(&map, 0, y), TileType::Floor);
        assert_ne!(kind(&map, 79, y), TileType::Floor);
    }
}

#[test]
fn create_dungeon_runs_a_strategy() {
    let map = GameMap::create_dungeon(MapGeneratorFirst::new(6, 5)).unwrap();
    assert_eq!(map.width, 6);
    assert_eq!(map.height, 5);
    assert_eq!(map.player_position, (3, 2));
}

#[test]
fn empty_map_text_is_rejected() {
    assert_eq!(GameMap::from_string("").unwrap_err(), GenerationError::EmptyInput);
    assert_eq!(GameMap::from_string("  \n \t ").unwrap_err(), GenerationError::EmptyInput);
}
