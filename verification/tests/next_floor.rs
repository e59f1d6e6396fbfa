use dungeon::config::{FloorParameters, ItemAndMonsterParameters};
use dungeon::generators::{DungeonGeneratorStrategy, MapGeneratorNextFloor, pick_weighted_index};
use dungeon::map::GameMap;
use dungeon::tile::TileType;

fn kind(map: &GameMap, x: usize, y: usize) -> TileType {
    map.grid.get(x, y).unwrap().tile_type
}

#[test]
fn weighted_pick_walks_cumulative_thresholds() {
    let weights = vec![500u32, 300, 200];
    assert_eq!(pick_weighted_index(&weights, 0), 0);
    assert_eq!(pick_weighted_index(&weights, 499), 0);
    assert_eq!(pick_weighted_index(&weights, 500), 1);
    assert_eq!(pick_weighted_index(&weights, 799), 1);
    assert_eq!(pick_weighted_index(&weights, 800), 2);
    assert_eq!(pick_weighted_index(&weights, 999), 2);
    // the last entry takes any residual the weights leave
    let sparse = vec![100u32, 100];
    assert_eq!(pick_weighted_index(&sparse, 950), 1);
    let single = vec![10u32];
    assert_eq!(pick_weighted_index(&single, 999), 0);
}

#[test]
fn difficulty_tables_cover_eight_floors() {
    let budgets = FloorParameters::new();
    assert_eq!(budgets.items.len(), 8);
    assert_eq!(budgets.items[0].max_monsters_per_room, 2);
    assert_eq!(budgets.items[0].max_items_per_room, 10);
    assert_eq!(budgets.items[7].max_monsters_per_room, 5);
    assert_eq!(budgets.items[7].max_items_per_room, 2);

    let tables = ItemAndMonsterParameters::new();
    assert_eq!(tables.parameters.len(), 8);
    assert_eq!(tables.parameters[0].monsters.len(), 1);
    assert_eq!(tables.parameters[0].monsters[0].1, 1000);
    for floor in 1..3 {
        assert_eq!(tables.parameters[floor].monsters[0].1, 800);
        assert_eq!(tables.parameters[floor].monsters[1].1, 200);
        assert_eq!(tables.parameters[floor].items[0].1, 800);
        assert_eq!(tables.parameters[floor].items[1].1, 200);
    }
    for floor in 3..8 {
        assert_eq!(tables.parameters[floor].monsters[0].1, 500);
        assert_eq!(tables.parameters[floor].monsters[1].1, 500);
        assert_eq!(tables.parameters[floor].items[0].1, 500);
        assert_eq!(tables.parameters[floor].items[1].1, 500);
    }
}

#[test]
fn next_floor_places_at_most_one_staircase() {
    let tables = ItemAndMonsterParameters::new();
    for floor in 0..3usize {
        let generator = MapGeneratorNextFloor::new(
            80,
            45,
            30,
            6,
            10,
            2,
            2,
            tables.parameters[floor].clone(),
            None,
        );
        let map = generator.generate().unwrap();
        // without an entry override the spawn is the first room's center,
        // which the staircase never takes
        assert_eq!(kind(&map, map.player_position.0, map.player_position.1), TileType::Floor);
        let mut stairs = Vec::new();
        for y in 0..45usize {
            for x in 0..80usize {
                if kind(&map, x, y) == TileType::StaircaseDown {
                    stairs.push((x, y));
                }
            }
        }
        assert!(stairs.len() <= 1, "more than one staircase: {stairs:?}");
        // restoring the staircase cell to floor, every floor cell is
        // reachable from the spawn
        let mut floor_of = vec![vec![false; 80]; 45];
        for y in 0..45usize {
            for x in 0..80usize {
                floor_of[y][x] = kind(&map, x, y) == TileType::Floor;
            }
        }
        for &(x, y) in &stairs {
            floor_of[y][x] = true;
        }
        let spawn = map.player_position;
        let mut seen = vec![vec![false; 80]; 45];
        let mut stack = Vec::new();
        if floor_of[spawn.1][spawn.0] {
            seen[spawn.1][spawn.0] = true;
            stack.push(spawn);
        }
        while let Some((x, y)) = stack.pop() {
            let mut next = Vec::new();
            if x > 0 {
                next.push((x - 1, y));
            }
            if x < 79 {
                next.push((x + 1, y));
            }
            if y > 0 {
                next.push((x, y - 1));
            }
            if y < 44 {
                next.push((x, y + 1));
            }
            for (nx, ny) in next {
                if floor_of[ny][nx] && !seen[ny][nx] {
                    seen[ny][nx] = true;
                    stack.push((nx, ny));
                }
            }
        }
        for y in 0..45usize {
            for x in 0..80usize {
                if kind(&map, x, y) == TileType::Floor {
                    assert!(seen[y][x], "floor cell ({x},{y}) unreachable");
                }
            }
        }
        // occupants stand on walkable ground
        for m in &map.monsters {
            let k = kind(&map, m.position.0, m.position.1);
            assert!(k == TileType::Floor || k == TileType::StaircaseDown);
        }
        for it in &map.items {
            let k = kind(&map, it.position.0, it.position.1);
            assert!(k == TileType::Floor || k == TileType::StaircaseDown);
        }
    }
}

#[test]
fn next_floor_entry_overrides_spawn() {
    let tables = ItemAndMonsterParameters::new();
    let generator = MapGeneratorNextFloor::new(
        80,
        45,
        30,
        6,
        10,
        2,
        2,
        tables.parameters[0].clone(),
        Some((12, 34)),
    );
    let map = generator.generate().unwrap();
    assert_eq!(map.player_position, (12, 34));
}
