use deeper::tile_map::TileMap;
use deeper::world_gen::{floor_plan, tile_plan, TileMaterial, TileModels};
use deeper::components::{MapTransition, TileType, WallDirection};
use deeper::world_gen::{
    after_transition, tile_has_position, tile_height, tile_is_solid, tile_may_hold_enemy,
    tile_model_name, tile_rotation_degrees, tile_switches_floor,
};

#[test]
fn tiles_map_to_models_and_rotations() {
    assert_eq!(tile_model_name(TileType::Nothing), "plane.obj");
    assert_eq!(tile_model_name(TileType::Wall(None)), "cube.obj");
    assert_eq!(tile_model_name(TileType::Wall(Some(WallDirection::South))), "Wall.obj");
    assert_eq!(tile_model_name(TileType::Floor), "floortile.obj");
    assert_eq!(tile_model_name(TileType::Path), "floortile.obj");
    assert_eq!(tile_model_name(TileType::LadderDown), "StairsDown.obj");
    assert_eq!(tile_rotation_degrees(TileType::Wall(Some(WallDirection::North))), 0);
    assert_eq!(tile_rotation_degrees(TileType::Wall(Some(WallDirection::West))), 90);
    assert_eq!(tile_rotation_degrees(TileType::Wall(Some(WallDirection::South))), 180);
    assert_eq!(tile_rotation_degrees(TileType::Wall(Some(WallDirection::East))), 270);
    assert_eq!(tile_rotation_degrees(TileType::Wall(None)), 0);
    assert_eq!(tile_height(TileType::Nothing), 1);
    assert_eq!(tile_height(TileType::Floor), 0);
}

#[test]
fn tile_behaviours() {
    assert!(!tile_has_position(TileType::Nothing));
    assert!(tile_has_position(TileType::Path));
    assert!(tile_is_solid(TileType::Wall(None)));
    assert!(tile_is_solid(TileType::Wall(Some(WallDirection::East))));
    assert!(!tile_is_solid(TileType::Floor));
    assert!(tile_switches_floor(TileType::LadderDown));
    assert!(!tile_switches_floor(TileType::Path));
    assert!(tile_may_hold_enemy(TileType::Floor));
    assert!(!tile_may_hold_enemy(TileType::Path));
}

#[test]
fn going_deeper_counts_floors() {
    assert_eq!(after_transition(MapTransition::Deeper, 1), (2, true, MapTransition::Stay));
    assert_eq!(after_transition(MapTransition::Stay, 4), (4, false, MapTransition::Stay));
}

#[test]
fn every_tile_of_a_floor_gets_its_plan() {
    let models = TileModels { cube: 10, plane: 11, wall: 12, stairs_down: 13, floor: 14 };
    let mut w = TileMap::new();
    w.insert((0, 0), TileType::Nothing);
    w.insert((1, 0), TileType::Wall(Some(WallDirection::East)));
    w.insert((2, 0), TileType::Path);
    w.insert((3, 0), TileType::LadderDown);
    w.insert((4, 0), TileType::Wall(None));
    w.insert((5, 0), TileType::Floor);
    let plan = floor_plan(&w, models);
    assert_eq!(plan.len(), 6);
    let models_used: Vec<usize> = plan.iter().map(|p| p.model).collect();
    assert_eq!(models_used, vec![11, 12, 14, 13, 10, 14]);
    assert_eq!(plan[0].cell, (0, 0));
    assert_eq!((plan[0].height, plan[0].has_position, plan[0].material), (1, false, TileMaterial::DarkStone));
    assert_eq!((plan[1].rotation, plan[1].solid), (270, true));
    assert_eq!(plan[2].material, TileMaterial::Glossy);
    assert!(plan[3].switches_floor);
    assert!(plan[5].may_hold_enemy && !plan[5].solid);
    assert_eq!(plan[5].material, TileMaterial::DarkestStone);
    let p = tile_plan((7, 8), TileType::Wall(Some(WallDirection::West)), models);
    assert_eq!((p.cell, p.model, p.rotation, p.height), ((7, 8), 12, 90, 0));
}
