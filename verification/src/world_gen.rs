use vstd::prelude::*;

use crate::components::{MapTransition, TileType, WallDirection};
use crate::tile_map::TileMap;

verus! {

/// The model file that stands for a tile.
pub open spec fn model_name_of(t: TileType) -> Seq<char> {
    match t {
        TileType::Nothing => "plane.obj"@,
        TileType::Wall(None) => "cube.obj"@,
        TileType::Wall(Some(_)) => "Wall.obj"@,
        TileType::Floor => "floortile.obj"@,
        TileType::Path => "floortile.obj"@,
        TileType::LadderDown => "StairsDown.obj"@,
    }
}

/// The model file that stands for a tile on a floor.
pub fn tile_model_name(t: TileType) -> (name: &'static str)
    ensures
        name@ == model_name_of(t),
{
    match t {
        TileType::Nothing => "plane.obj",
        TileType::Wall(None) => "cube.obj",
        TileType::Wall(Some(_)) => "Wall.obj",
        TileType::Floor => "floortile.obj",
        TileType::Path => "floortile.obj",
        TileType::LadderDown => "StairsDown.obj",
    }
}

/// How far a tile's model is turned, in degrees: directed walls turn with
/// their direction, everything else keeps its model's orientation.
pub open spec fn rotation_of(t: TileType) -> u32 {
    match t {
        TileType::Wall(Some(WallDirection::North)) => 0,
        TileType::Wall(Some(WallDirection::West)) => 90,
        TileType::Wall(Some(WallDirection::South)) => 180,
        TileType::Wall(Some(WallDirection::East)) => 270,
        _ => 0,
    }
}

/// How far a tile's model is turned, in degrees.
pub fn tile_rotation_degrees(t: TileType) -> (deg: u32)
    ensures
        deg == rotation_of(t),
{
    match t {
        TileType::Wall(Some(WallDirection::North)) => 0,
        TileType::Wall(Some(WallDirection::West)) => 90,
        TileType::Wall(Some(WallDirection::South)) => 180,
        TileType::Wall(Some(WallDirection::East)) => 270,
        _ => 0,
    }
}

/// The empty space between rooms is drawn one unit up; everything else at
/// ground level.
pub fn tile_height(t: TileType) -> (h: u32)
    ensures
        h == (if t == TileType::Nothing {
            1u32
        } else {
            0u32
        }),
{
    match t {
        TileType::Nothing => 1,
        _ => 0,
    }
}

/// Whether a tile gets a position in the world (all but the empty space).
pub fn tile_has_position(t: TileType) -> (b: bool)
    ensures
        b == (t != TileType::Nothing),
{
    match t {
        TileType::Nothing => false,
        _ => true,
    }
}

/// Whether a tile blocks movement: walls get a static body and a collider.
pub fn tile_is_solid(t: TileType) -> (b: bool)
    ensures
        b == (t is Wall),
{
    match t {
        TileType::Wall(_) => true,
        _ => false,
    }
}

/// Whether stepping on a tile takes the player deeper.
pub fn tile_switches_floor(t: TileType) -> (b: bool)
    ensures
        b == (t == TileType::LadderDown),
{
    match t {
        TileType::LadderDown => true,
        _ => false,
    }
}

/// Whether enemies may be placed on a tile.
pub fn tile_may_hold_enemy(t: TileType) -> (b: bool)
    ensures
        b == (t == TileType::Floor),
{
    TileType::Floor == t
}

/// The floor number after a pending transition, and whether a new floor must
/// be generated; the transition is then cleared.
pub fn after_transition(trans: MapTransition, floor: i32) -> (r: (i32, bool, MapTransition))
    requires
        trans == MapTransition::Deeper ==> floor < i32::MAX,
    ensures
        trans == MapTransition::Deeper ==> r.0 == floor + 1 && r.1 && r.2 == MapTransition::Stay,
        trans == MapTransition::Stay ==> r == (floor, false, MapTransition::Stay),
{
    match trans {
        MapTransition::Deeper => (floor + 1, true, MapTransition::Stay),
        _ => (floor, false, MapTransition::Stay),
    }
}

/// The model slots of the tile models, looked up once for a floor.
#[derive(Copy, Clone, Debug, PartialEq, Eq, Structural)]
pub struct TileModels {
    pub cube: usize,
    pub plane: usize,
    pub wall: usize,
    pub stairs_down: usize,
    pub floor: usize,
}

/// The surface a tile is drawn with.
#[derive(Copy, Clone, Debug, PartialEq, Eq, Structural)]
pub enum TileMaterial {
    /// The empty space between rooms.
    DarkStone,
    /// Corridors: a glossy dark grey.
    Glossy,
    /// Everything else.
    DarkestStone,
}

/// How one tile of a floor enters the world.
#[derive(Copy, Clone, Debug)]
pub struct TilePlan {
    pub cell: (i32, i32),
    pub tile: TileType,
    /// The model slot the tile is drawn with.
    pub model: usize,
    pub height: u32,
    pub rotation: u32,
    pub material: TileMaterial,
    pub has_position: bool,
    pub solid: bool,
    pub switches_floor: bool,
    pub may_hold_enemy: bool,
}

/// The model slot that stands for a tile, among the looked-up models.
pub open spec fn model_of(t: TileType, m: TileModels) -> usize {
    match t {
        TileType::Nothing => m.plane,
        TileType::Wall(None) => m.cube,
        TileType::Wall(Some(_)) => m.wall,
        TileType::Floor => m.floor,
        TileType::Path => m.floor,
        TileType::LadderDown => m.stairs_down,
    }
}

/// The surface a tile is drawn with.
pub open spec fn material_of(t: TileType) -> TileMaterial {
    match t {
        TileType::Nothing => TileMaterial::DarkStone,
        TileType::Path => TileMaterial::Glossy,
        _ => TileMaterial::DarkestStone,
    }
}

/// The plan for the tile `t` at `cell`.
pub open spec fn plan_of(cell: (i32, i32), t: TileType, m: TileModels) -> TilePlan {
    TilePlan {
        cell,
        tile: t,
        model: model_of(t, m),
        height: if t == TileType::Nothing {
            1
        } else {
            0
        },
        rotation: rotation_of(t),
        material: material_of(t),
        has_position: t != TileType::Nothing,
        solid: t is Wall,
        switches_floor: t == TileType::LadderDown,
        may_hold_enemy: t == TileType::Floor,
    }
}

/// The plan for the tile `t` at `cell`: its model among `models`, height,
/// rotation, surface, and what it does in the game.
pub fn tile_plan(cell: (i32, i32), t: TileType, models: TileModels) -> (p: TilePlan)
    ensures
        p == plan_of(cell, t, models),
{
    let model = match t {
        TileType::Nothing => models.plane,
        TileType::Wall(None) => models.cube,
        TileType::Wall(Some(_)) => models.wall,
        TileType::Floor => models.floor,
        TileType::Path => models.floor,
        TileType::LadderDown => models.stairs_down,
    };
    let material = match t {
        TileType::Nothing => TileMaterial::DarkStone,
        TileType::Path => TileMaterial::Glossy,
        _ => TileMaterial::DarkestStone,
    };
    TilePlan {
        cell,
        tile: t,
        model,
        height: tile_height(t),
        rotation: tile_rotation_degrees(t),
        material,
        has_position: tile_has_position(t),
        solid: tile_is_solid(t),
        switches_floor: tile_switches_floor(t),
        may_hold_enemy: tile_may_hold_enemy(t),
    }
}

/// The plan for every tile of a generated floor, in the order in which the
/// tiles were laid.
pub fn floor_plan(world: &TileMap, models: TileModels) -> (v: Vec<TilePlan>)
    ensures
        v@.len() == world.key_order().len(),
        forall|i: int|
            0 <= i < v@.len() ==> #[trigger] v@[i] == plan_of(
                world.key_order()[i],
                world@[world.key_order()[i]],
                models,
            ),
{
    let n = world.len();
    let mut v: Vec<TilePlan> = Vec::new();
    let mut i: usize = 0;
    while i < n
        invariant
            n == world.key_order().len(),
            i <= n,
            v@.len() == i,
            forall|j: int|
                0 <= j < i ==> #[trigger] v@[j] == plan_of(
                    world.key_order()[j],
                    world@[world.key_order()[j]],
                    models,
                ),
        decreases n - i,
    {
        let k = world.key_at(i);
        let t = match world.get(k) {
            Some(t) => t,
            None => TileType::Nothing,
        };
        v.push(tile_plan(k, t, models));
        i = i + 1;
    }
    v
}

} // verus!
