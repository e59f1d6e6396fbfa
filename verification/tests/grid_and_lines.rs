use dungeon::grid::Grid;
use dungeon::tile::{Tile, TileType, RenderHint, TileMapping, ItemType, MonsterType};
use dungeon::bresenham::BresenhamLine;

fn collect_line(x0: i32, y0: i32, x1: i32, y1: i32, diagonal_allow: bool) -> Vec<(i32, i32)> {
    let mut line = BresenhamLine::new(x0, y0, x1, y1, diagonal_allow);
    let mut pts = Vec::new();
    while let Some(p) = line.next() {
        pts.push(p);
    }
    pts
}

#[test]
fn grid_bounds_get_some_inside_none_outside() {
    let grid = Grid::new(4, 3, TileType::Wall);
    assert_eq!(grid.width(), 4);
    assert_eq!(grid.height(), 3);
    for x in 0..4usize {
        for y in 0..3usize {
            assert!(grid.get(x, y).is_some());
            assert!(grid.is_valid_position(x, y));
        }
    }
    assert!(grid.get(4, 0).is_none());
    assert!(grid.get(0, 3).is_none());
    assert!(grid.get(4, 3).is_none());
    assert!(grid.get(1000, 1000).is_none());
    assert!(!grid.is_valid_position(4, 2));
    assert!(!grid.is_valid_position(3, 3));
}

#[test]
fn grid_new_fills_every_cell() {
    let grid = Grid::new(5, 4, TileType::Floor);
    for x in 0..5usize {
        for y in 0..4usize {
            let t = grid.get(x, y).unwrap();
            assert_eq!(t.tile_type, TileType::Floor);
            assert_eq!(t.render_hint, RenderHint::Empty);
        }
    }
}

#[test]
fn grid_set_changes_one_cell() {
    let mut grid = Grid::new(3, 3, TileType::Wall);
    grid.set(1, 2, Tile::new(TileType::Floor));
    for x in 0..3usize {
        for y in 0..3usize {
            let expected = if (x, y) == (1, 2) { TileType::Floor } else { TileType::Wall };
            assert_eq!(grid.get(x, y).unwrap().tile_type, expected);
        }
    }
}

#[test]
fn bresenham_endpoints_diagonal_allowed() {
    for &(x0, y0, x1, y1) in &[(0, 0, 5, 3), (7, 2, -3, 9), (4, 4, 4, 4), (0, 0, 0, 6), (5, 1, -5, 1)] {
        let pts = collect_line(x0, y0, x1, y1, true);
        assert!(!pts.is_empty());
        assert_eq!(pts[0], (x0, y0));
        assert_eq!(*pts.last().unwrap(), (x1, y1));
    }
}

#[test]
fn bresenham_no_diagonal_unit_steps() {
    for &(x0, y0, x1, y1) in &[(0, 0, 5, 3), (7, 2, -3, 9), (0, 0, 1, 1), (2, 8, 2, 3)] {
        let pts = collect_line(x0, y0, x1, y1, false);
        assert_eq!(pts[0], (x0, y0));
        assert_eq!(*pts.last().unwrap(), (x1, y1));
        for w in pts.windows(2) {
            let dx = (w[1].0 - w[0].0).abs();
            let dy = (w[1].1 - w[0].1).abs();
            assert_eq!(dx + dy, 1, "each step moves exactly one unit on one axis");
        }
        // one axis-step at a time means |dx| + |dy| + 1 cells in all
        let expected_len = (x1 - x0).abs() + (y1 - y0).abs() + 1;
        assert_eq!(pts.len() as i32, expected_len);
    }
}

#[test]
fn bresenham_restartable() {
    let a = collect_line(1, 1, 6, 4, false);
    let b = collect_line(1, 1, 6, 4, false);
    assert_eq!(a, b);
    let mut line = BresenhamLine::new(0, 0, 1, 0, true);
    assert_eq!(line.next(), Some((0, 0)));
    assert_eq!(line.next(), Some((1, 0)));
    assert_eq!(line.next(), None);
    assert_eq!(line.next(), None);
}

#[test]
fn glyph_table_round_trips() {
    let mapping = TileMapping::new();
    let kinds = [
        TileType::Empty,
        TileType::Wall,
        TileType::Floor,
        TileType::StaircaseDown,
        TileType::Player,
        TileType::Potion,
        TileType::Lightning,
        TileType::Orc,
        TileType::Troll,
    ];
    for k in kinds {
        let c = mapping.get_char(&k);
        assert_eq!(mapping.get_tile_type(c), k);
    }
    assert_eq!(mapping.get_char(&TileType::Wall), '#');
    assert_eq!(mapping.get_char(&TileType::Floor), '.');
    assert_eq!(mapping.get_char(&TileType::StaircaseDown), '>');
    assert_eq!(mapping.get_char(&TileType::Player), '@');
    assert_eq!(mapping.get_char(&TileType::Potion), '!');
    assert_eq!(mapping.get_char(&TileType::Lightning), '?');
    assert_eq!(mapping.get_char(&TileType::Orc), 'o');
    assert_eq!(mapping.get_char(&TileType::Troll), 'T');
    assert_eq!(mapping.get_char(&TileType::Empty), ' ');
}

#[test]
fn glyph_rows_carry_overlay_payloads() {
    let mapping = TileMapping::new();
    let potion = mapping.get_tile_row('!');
    assert_eq!(potion.tile_type, TileType::Potion);
    assert_eq!(potion.item_type, Some(ItemType::HealPotion));
    assert_eq!(potion.monster_type, None);
    let orc = mapping.get_tile_row('o');
    assert_eq!(orc.tile_type, TileType::Orc);
    assert_eq!(orc.monster_type, Some(MonsterType::Orc));
    assert_eq!(orc.item_type, None);
    let wall = mapping.get_tile_row('#');
    assert_eq!(wall.item_type, None);
    assert_eq!(wall.monster_type, None);
}

#[test]
fn item_kinds_map_to_overlay_tiles() {
    assert_eq!(ItemType::HealPotion.to_tile_type(), TileType::Potion);
    assert_eq!(ItemType::Lightning.to_tile_type(), TileType::Lightning);
    assert_eq!(ItemType::HealPotion.to_string(), "HealPotion");
    assert_eq!(ItemType::Lightning.to_string(), "Lightning");
    assert_eq!(MonsterType::Orc.to_tile_type(), TileType::Orc);
    assert_eq!(MonsterType::Troll.to_tile_type(), TileType::Troll);
}

#[test]
fn is_wall_between_sees_walls_on_the_line() {
    // a corridor with a wall pillar in the middle of the sightline
    let map = dungeon::map::GameMap::from_string(".....\n..#..\n....@").unwrap();
    let grid = &map.grid;
    // the straight row through the pillar is blocked
    assert!(grid.is_wall_between((0, 1), (4, 1)));
    // the top row is clear
    assert!(!grid.is_wall_between((0, 0), (4, 0)));
    // endpoints count: standing on the pillar is blocked
    assert!(grid.is_wall_between((2, 1), (2, 1)));
    // a single floor cell is clear
    assert!(!grid.is_wall_between((0, 0), (0, 0)));
}
