use deeper::components::{TileType, WallDirection};
use deeper::dung_gen::{tile_glyph, DungGen, Room};
use deeper::tile_map::TileMap;

fn small() -> DungGen {
    DungGen::new().width(20).height(20).n_rooms(3).room_min(2).room_range(2)
}

fn all_tiles(m: &TileMap) -> Vec<((i32, i32), TileType)> {
    (0..m.len()).map(|i| {
        let k = m.key_at(i);
        (k, m.get(k).unwrap())
    }).collect()
}

#[test]
fn builder_sets_each_parameter() {
    let d = DungGen::new();
    assert_eq!((d.width, d.height, d.room_min, d.room_range, d.n_rooms), (100, 50, 4, 11, 10));
    assert!(d.room_centers.is_empty());
    assert_eq!(d.world.len(), 0);
    let mut w = TileMap::new();
    w.insert((1, 1), TileType::Floor);
    let d = d.width(60).height(61).room_min(5).room_range(6).n_rooms(7).world(w);
    assert_eq!((d.width, d.height, d.room_min, d.room_range, d.n_rooms), (60, 61, 5, 6, 7));
    assert_eq!(d.world.get((1, 1)), Some(TileType::Floor));
}

#[test]
fn placing_a_room_paints_floor_and_walls() {
    let mut d = small();
    let room = Room { x_min: 2, y_min: 2, x_max: 4, y_max: 3 };
    assert!(d.try_place_room(room));
    assert_eq!(d.room_centers, vec![(3, 2)]);
    for x in 2..=4 {
        for y in 2..=3 {
            assert_eq!(d.world.get((x, y)), Some(TileType::Floor));
        }
    }
    for x in 1..=5 {
        assert_eq!(d.world.get((x, 1)), Some(TileType::Wall(None)));
        assert_eq!(d.world.get((x, 4)), Some(TileType::Wall(None)));
    }
    for y in 1..=4 {
        assert_eq!(d.world.get((1, y)), Some(TileType::Wall(None)));
        assert_eq!(d.world.get((5, y)), Some(TileType::Wall(None)));
    }
    assert_eq!(d.world.len(), 6 + 14);
}

#[test]
fn an_overlapping_room_is_refused() {
    let mut d = small();
    assert!(d.try_place_room(Room { x_min: 2, y_min: 2, x_max: 4, y_max: 3 }));
    let before = d.world.len();
    // its floor would cover the wall at (5, 3)
    assert!(!d.try_place_room(Room { x_min: 5, y_min: 3, x_max: 7, y_max: 5 }));
    assert_eq!(d.world.len(), before);
    assert_eq!(d.room_centers.len(), 1);
    // touching walls is fine: only the floor must be free
    assert!(d.try_place_room(Room { x_min: 6, y_min: 2, x_max: 7, y_max: 3 }));
    assert_eq!(d.room_centers, vec![(3, 2), (6, 2)]);
    assert_eq!(d.world.get((5, 2)), Some(TileType::Wall(None)));
}

#[test]
fn a_corridor_runs_along_the_row_then_the_column() {
    let mut d = small();
    d.carve_path((6, 5), (2, 2));
    for x in 2..=6 {
        assert_eq!(d.world.get((x, 2)), Some(TileType::Path));
    }
    for y in 2..=5 {
        assert_eq!(d.world.get((6, y)), Some(TileType::Path));
    }
    for x in 2..=7 {
        assert_eq!(d.world.get((x, 1)), Some(TileType::Wall(None)));
    }
    assert_eq!(d.world.get((1, 1)), None);
    assert_eq!(d.world.get((5, 6)), Some(TileType::Wall(None)));
    assert_eq!(d.world.get((7, 6)), Some(TileType::Wall(None)));
    assert_eq!(d.world.get((6, 6)), None);
    assert_eq!(d.world.get((5, 3)), Some(TileType::Wall(None)));
}

#[test]
fn corridors_keep_existing_tiles_beside_them() {
    let mut d = small();
    d.world.insert((3, 3), TileType::Floor);
    d.carve_path((2, 2), (5, 2));
    assert_eq!(d.world.get((3, 3)), Some(TileType::Floor));
    assert_eq!(d.world.get((4, 3)), Some(TileType::Wall(None)));
}

#[test]
fn connecting_joins_closest_rooms_first() {
    let mut d = small();
    d.room_centers = vec![(2, 2), (10, 2), (3, 8)];
    d.connect_rooms();
    // (2,2)-(3,8) is closest (distance 7), then (2,2)-(10,2) (distance 8)
    for y in 2..=8 {
        assert_eq!(d.world.get((3, y)), Some(TileType::Path));
    }
    for x in 2..=10 {
        assert_eq!(d.world.get((x, 2)), Some(TileType::Path));
    }
    // no corridor between (10,2) and (3,8) was needed
    assert_eq!(d.world.get((10, 8)), None);
}

#[test]
fn walls_turn_to_face_the_floor() {
    let mut d = small();
    d.world.insert((0, 0), TileType::Floor);
    d.world.insert((0, 1), TileType::Wall(None));
    d.world.insert((4, 4), TileType::Wall(None));
    d.world.insert((3, 4), TileType::Path);
    d.orient_world_walls();
    assert_eq!(d.world.get((0, 1)), Some(TileType::Wall(Some(WallDirection::North))));
    assert_eq!(d.world.get((4, 4)), Some(TileType::Wall(Some(WallDirection::East))));
    assert_eq!(d.world.get((0, 0)), Some(TileType::Floor));
    assert_eq!(d.world.get((3, 4)), Some(TileType::Path));
    assert_eq!(d.world.len(), 4);
}

#[test]
fn a_wall_with_open_ground_on_two_sides_stays_undirected() {
    let mut d = small();
    d.world.insert((0, 0), TileType::Wall(None));
    d.world.insert((0, -1), TileType::Floor);
    d.world.insert((0, 1), TileType::Floor);
    d.orient_world_walls();
    assert_eq!(d.world.get((0, 0)), Some(TileType::Wall(None)));
}

#[test]
fn filling_covers_the_map() {
    let mut d = DungGen::new().width(3).height(2);
    d.world.insert((1, 1), TileType::Floor);
    d.world.insert((7, 7), TileType::Path);
    d.fill_with_nothing();
    assert_eq!(d.world.len(), 7);
    assert_eq!(d.world.get((1, 1)), Some(TileType::Floor));
    assert_eq!(d.world.get((2, 1)), Some(TileType::Nothing));
    assert_eq!(d.world.get((0, 0)), Some(TileType::Nothing));
    assert_eq!(d.world.get((0, 2)), None);
    assert_eq!(d.world.get((3, 0)), None);
}

#[test]
fn filling_a_map_taller_than_wide() {
    let mut d = DungGen::new().width(6).height(7);
    d.fill_with_nothing();
    assert_eq!(d.world.len(), 42);
    assert_eq!(d.world.get((5, 6)), Some(TileType::Nothing));
    assert_eq!(d.world.get((6, 5)), None);
}

#[test]
fn the_ladder_goes_on_a_room_center() {
    let mut d = small();
    d.room_centers = vec![(4, 4)];
    d.place_ladder();
    assert_eq!(d.world.get((4, 4)), Some(TileType::LadderDown));
}

#[test]
fn random_rooms_fit_the_parameters() {
    let d = DungGen::new().width(60).height(60).n_rooms(10).room_min(5).room_range(5);
    for _ in 0..200 {
        let r = d.random_room();
        assert!(1 <= r.x_min && r.x_min < 60 - 10 - 1);
        assert!(1 <= r.y_min && r.y_min < 60 - 10 - 1);
        assert!(r.x_min + 5 <= r.x_max && r.x_max < r.x_min + 10);
        assert!(r.y_min + 5 <= r.y_max && r.y_max < r.y_min + 10);
    }
}

#[test]
fn generation_produces_a_full_connected_floor() {
    let d = DungGen::new().width(60).height(60).n_rooms(10).room_min(5).room_range(5).generate();
    assert_eq!(d.room_centers.len(), 10);
    let mut centers = d.room_centers.clone();
    centers.sort();
    centers.dedup();
    assert_eq!(centers.len(), 10);
    for x in 0..60 {
        for y in 0..60 {
            assert!(d.world.contains_key((x, y)));
        }
    }
    let tiles = all_tiles(&d.world);
    let ladders: Vec<_> = tiles.iter().filter(|(_, t)| *t == TileType::LadderDown).collect();
    assert_eq!(ladders.len(), 1);
    assert!(d.room_centers.contains(&ladders[0].0));
    for c in &d.room_centers {
        let t = d.world.get(*c).unwrap();
        assert!(t == TileType::Path || t == TileType::LadderDown);
    }
}

#[test]
fn glyphs_for_printing() {
    assert_eq!(tile_glyph(None), ' ');
    assert_eq!(tile_glyph(Some(TileType::Wall(None))), '#');
    assert_eq!(tile_glyph(Some(TileType::Floor)), '.');
    assert_eq!(tile_glyph(Some(TileType::Path)), '?');
    assert_eq!(tile_glyph(Some(TileType::Wall(Some(WallDirection::West)))), '?');
}

#[test]
fn one_room_on_a_tiny_map() {
    let d = DungGen::new().width(6).height(6).room_min(2).room_range(1).n_rooms(1).generate();
    assert_eq!(d.room_centers, vec![(2, 2)]);
    assert_eq!(d.world.len(), 36);
    assert_eq!(d.world.get((2, 2)), Some(TileType::LadderDown));
    for x in 1..=3 {
        for y in 1..=3 {
            if (x, y) != (2, 2) {
                assert_eq!(d.world.get((x, y)), Some(TileType::Floor));
            }
        }
    }
    for i in 1..=3 {
        assert_eq!(d.world.get((i, 4)), Some(TileType::Wall(Some(WallDirection::North))));
        assert_eq!(d.world.get((i, 0)), Some(TileType::Wall(Some(WallDirection::South))));
        assert_eq!(d.world.get((0, i)), Some(TileType::Wall(Some(WallDirection::West))));
        assert_eq!(d.world.get((4, i)), Some(TileType::Wall(Some(WallDirection::East))));
    }
    for c in [(0, 0), (4, 0), (0, 4), (4, 4)] {
        assert_eq!(d.world.get(c), Some(TileType::Wall(None)));
    }
    for i in 0..=5 {
        assert_eq!(d.world.get((5, i)), Some(TileType::Nothing));
        assert_eq!(d.world.get((i, 5)), Some(TileType::Nothing));
    }
}

#[test]
fn generation_fills_a_map_taller_than_wide() {
    let d = DungGen::new().width(6).height(7).room_min(2).room_range(1).n_rooms(1).generate();
    assert_eq!(d.world.len(), 42);
    assert_eq!(d.world.get((5, 6)), Some(TileType::Nothing));
}

#[test]
fn generation_stops_when_no_room_fits() {
    let mut w = TileMap::new();
    w.insert((2, 2), TileType::Floor);
    let d = DungGen::new().width(6).height(6).room_min(2).room_range(1).n_rooms(1).world(w).generate();
    assert!(d.room_centers.is_empty());
    assert_eq!(d.world.get((2, 2)), Some(TileType::Floor));
    let tiles = all_tiles(&d.world);
    assert!(tiles.iter().all(|(_, t)| *t != TileType::LadderDown));
}
