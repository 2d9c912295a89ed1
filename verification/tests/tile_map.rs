use deeper::components::{TileType, WallDirection};
use deeper::tile_map::TileMap;

#[test]
fn read_gives_back_the_last_write() {
    let mut m = TileMap::new();
    assert_eq!(m.len(), 0);
    assert_eq!(m.get((3, -4)), None);
    m.insert((3, -4), TileType::Floor);
    m.insert((-7, 2), TileType::Wall(None));
    assert_eq!(m.get((3, -4)), Some(TileType::Floor));
    m.insert((3, -4), TileType::Wall(Some(WallDirection::East)));
    assert_eq!(m.get((3, -4)), Some(TileType::Wall(Some(WallDirection::East))));
    assert_eq!(m.get((-7, 2)), Some(TileType::Wall(None)));
    assert!(m.contains_key((-7, 2)));
    assert!(!m.contains_key((2, -7)));
    assert_eq!(m.len(), 2);
}

#[test]
fn keys_come_in_first_insertion_order() {
    let mut m = TileMap::new();
    m.insert((5, 5), TileType::Path);
    m.insert((i32::MIN, i32::MAX), TileType::Nothing);
    m.insert((5, 5), TileType::Floor);
    m.insert((0, 0), TileType::LadderDown);
    assert_eq!(m.len(), 3);
    assert_eq!(m.key_at(0), (5, 5));
    assert_eq!(m.key_at(1), (i32::MIN, i32::MAX));
    assert_eq!(m.key_at(2), (0, 0));
    assert_eq!(m.get((i32::MIN, i32::MAX)), Some(TileType::Nothing));
}
