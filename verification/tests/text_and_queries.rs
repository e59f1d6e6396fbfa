use dungeon::map::{GameMap, WorldPos};
use dungeon::tile::{TileType, ItemType, MonsterType};
use dungeon::writer::DungeonWriter;
use dungeon::los::has_line_of_sight;

fn kind(map: &GameMap, x: usize, y: usize) -> TileType {
    map.grid.get(x, y).unwrap().tile_type
}

#[test]
fn text_round_trip_two_by_two() {
    // parsing a 2x2 level places the spawn on the player glyph and stores
    // floor beneath it
    let map = GameMap::from_string("..\n.@").unwrap();
    assert_eq!(map.width, 2);
    assert_eq!(map.height, 2);
    assert_eq!(map.player_position, (1, 1));
    assert_eq!(kind(&map, 1, 1), TileType::Floor);
    assert_eq!(kind(&map, 0, 0), TileType::Floor);
    // re-serializing with the player back at (1,1) reproduces the text
    let writer = DungeonWriter::default();
    let player = map.grid_to_world(1, 1);
    let text = writer.write(&map, player, Vec::new(), Vec::new());
    assert_eq!(text, "..\n.@");
}

#[test]
fn parse_reads_terrain_glyphs() {
    let map = GameMap::from_string("#.>\n.@#").unwrap();
    assert_eq!(map.width, 3);
    assert_eq!(map.height, 2);
    assert_eq!(kind(&map, 0, 0), TileType::Wall);
    assert_eq!(kind(&map, 1, 0), TileType::Floor);
    assert_eq!(kind(&map, 2, 0), TileType::StaircaseDown);
    assert_eq!(kind(&map, 0, 1), TileType::Floor);
    assert_eq!(kind(&map, 1, 1), TileType::Floor, "player cell is rewritten to floor");
    assert_eq!(kind(&map, 2, 1), TileType::Wall);
    assert_eq!(map.player_position, (1, 1));
}

#[test]
fn writer_overlays_items_monsters_then_player() {
    let map = GameMap::from_string("...\n.@.").unwrap();
    let writer = DungeonWriter::default();
    let player = map.grid_to_world(1, 1);
    let items = vec![(map.grid_to_world(0, 0), ItemType::HealPotion)];
    let monsters = vec![(map.grid_to_world(2, 0), MonsterType::Troll)];
    let text = writer.write(&map, player, items, monsters);
    assert_eq!(text, "!.T\n.@.");
    // the player wins any overlap: a monster under the player disappears
    let monsters2 = vec![(map.grid_to_world(1, 1), MonsterType::Orc)];
    let text2 = writer.write(&map, player, Vec::new(), monsters2);
    assert_eq!(text2, "...\n.@.");
}

#[test]
fn coordinate_round_trip_all_cells() {
    let map = GameMap::from_string("....\n....\n..@.").unwrap();
    for x in 0..4usize {
        for y in 0..3usize {
            let w = map.grid_to_world(x, y);
            assert_eq!(map.world_to_grid(w), (x, y));
        }
    }
}

#[test]
fn world_points_snap_to_nearest_cell_center() {
    let map = GameMap::from_string("....\n....\n..@.").unwrap();
    let w = map.grid_to_world(2, 1);
    // under half a tile of drift still lands in the same cell
    assert_eq!(map.world_to_grid(WorldPos { x: w.x + 1999, z: w.z - 1999 }), (2, 1));
    // a full half-tile crosses into the next cell
    assert_eq!(map.world_to_grid(WorldPos { x: w.x + 2000, z: w.z }), (3, 1));
}

#[test]
fn collision_probe_feels_adjacent_walls() {
    let map = GameMap::from_string("###\n#.#\n###").unwrap();
    // the map has no player glyph; the spawn defaults to the origin cell
    assert_eq!(map.player_position, (0, 0));
    let center = map.grid_to_world(1, 1);
    // standing in the middle of the open cell, short probes stay inside
    assert!(!map.collide_with_wall(center, 1000));
    // longer probes cross into the surrounding walls
    assert!(map.collide_with_wall(center, 2000));
    // standing close to the east wall, even a short probe touches it
    let near_wall = WorldPos { x: center.x + 1500, z: center.z };
    assert!(map.collide_with_wall(near_wall, 1000));
}

#[test]
fn sightline_blocked_by_wall_pillar() {
    let map = GameMap::from_string(".....\n..#..\n..@..").unwrap();
    let left = map.grid_to_world(0, 1);
    let right = map.grid_to_world(4, 1);
    let top_left = map.grid_to_world(0, 0);
    let top_right = map.grid_to_world(4, 0);
    // along the middle row the pillar interrupts the ray
    assert!(!has_line_of_sight(&map, left, right));
    // along the clear top row it passes
    assert!(has_line_of_sight(&map, top_left, top_right));
    // the zero-length sightline is trivially clear
    assert!(has_line_of_sight(&map, left, left));
}

#[test]
fn viewport_renders_player_and_out_of_map_space() {
    let map = GameMap::from_string("#.>\n.@#").unwrap();
    // the full map, player drawn at its cell
    let text = map.to_string((0, 0), (1, 1), 3, 2);
    assert_eq!(text, "#.>\n.@#");
    // a shifted viewport pads cells beyond the map with spaces
    let shifted = map.to_string((-1, 0), (1, 1), 3, 3);
    assert_eq!(shifted, " #.\n .@\n   ");
    // the player overlay follows the given position, not the stored spawn
    let moved = map.to_string((0, 0), (0, 0), 3, 2);
    assert_eq!(moved, "@.>\n..#");
}

#[test]
fn room_accessors_report_extent_and_interior() {
    let room = dungeon::room::Room::new(4, 6, 10, 8);
    assert_eq!(room.x1, 4);
    assert_eq!(room.y1, 6);
    assert_eq!(room.x2, 14);
    assert_eq!(room.y2, 14);
    assert_eq!(room.center, (9, 10));
    assert_eq!(room.width(), 10);
    assert_eq!(room.height(), 8);
    assert_eq!(room.inner(), ((5, 14), (7, 14)));
}
