use snowfall::world_map::{TileType, WorldMap};

fn rows(v: &[&str]) -> Vec<String> {
    v.iter().map(|s| s.to_string()).collect()
}

#[test]
fn grid_round_trip() {
    let grid = rows(&["#X.", ".x#", "..."]);
    let map = WorldMap::from_grid_rows(&grid);
    assert_eq!(map.width(), 3);
    assert_eq!(map.height(), 3);
    assert_eq!(map.to_grid_rows(), rows(&["XX.", ".xX", "..."]));
}

#[test]
fn unknown_characters_load_as_floor() {
    let map = WorldMap::from_grid_rows(&rows(&["a?"]));
    assert_eq!(map.to_grid_rows(), rows(&[".."]));
    assert!(!map.is_solid(0, 0));
}

#[test]
fn empty_grid() {
    let map = WorldMap::from_grid_rows(&Vec::new());
    assert_eq!(map.width(), 0);
    assert_eq!(map.height(), 0);
    assert!(map.to_grid_rows().is_empty());
}

#[test]
fn cells_without_tiles_write_as_blank() {
    let map = WorldMap::new(2, 1);
    assert_eq!(map.to_grid_rows(), rows(&["  "]));
}

#[test]
fn walls_make_cells_solid() {
    let mut map = WorldMap::from_grid_rows(&rows(&["...", "...", "..."]));
    assert!(!map.is_solid(1, 1));
    map.add_wall(1, 1, 16, 42);
    assert!(map.is_solid(1, 1));
    assert_eq!(map.to_grid_rows()[1], ".X.");
    assert_eq!(map.remove_wall(1, 1), Some(42));
    assert!(!map.is_solid(1, 1));
    assert_eq!(map.remove_wall(1, 1), None);
    map.add_wall(0, 2, 8, 7);
    assert_eq!(map.to_grid_rows()[2], "x..");
}

#[test]
fn negative_cells_are_distinct() {
    let mut map = WorldMap::new(1, 1);
    map.add_wall(-1, 0, 16, 1);
    assert!(map.is_solid(-1, 0));
    assert!(!map.is_solid(0, -1));
    assert!(!map.is_solid(0, 0));
}

#[test]
fn area_checks_bounds_and_walls() {
    let map = WorldMap::from_grid_rows(&rows(&["...", ".#.", "..."]));
    assert!(map.area_is_open(0, 0, 0, 2));
    assert!(!map.area_is_open(0, 1, 0, 1));
    assert!(!map.area_is_open(2, 3, 0, 0));
    assert!(!map.area_is_open(-1, 0, 0, 0));
    assert!(map.area_is_open(2, 1, 0, 0));
}

#[test]
fn items_register_and_unregister() {
    let mut map = WorldMap::new(4, 4);
    assert_eq!(map.get_item_at(2, 3), None);
    map.register_item(2, 3, 99);
    assert_eq!(map.get_item_at(2, 3), Some(99));
    assert_eq!(map.get_item_at(3, 2), None);
    map.unregister_item(2, 3);
    assert_eq!(map.get_item_at(2, 3), None);
}

#[test]
fn tile_type_values() {
    assert_eq!(TileType::Wall { height: 8 }, TileType::Wall { height: 8 });
    assert_ne!(TileType::Wall { height: 8 }, TileType::Empty);
}
