use vstd::prelude::*;

verus! {

/// Which side of a wall faces the open floor next to it.
#[derive(Copy, Clone, Debug, PartialEq, Eq, Structural, Hash)]
pub enum WallDirection {
    North,
    West,
    South,
    East,
}

/// What occupies one cell of a generated dungeon floor.
#[derive(Copy, Clone, Debug, PartialEq, Eq, Structural, Hash)]
pub enum TileType {
    Nothing,
    Wall(Option<WallDirection>),
    Floor,
    Path,
    LadderDown,
}

/// Which side an agent fights for.
#[derive(Copy, Clone, Debug, PartialEq, Eq, Structural)]
pub enum Faction {
    Enemies,
    Friends,
    Frenemies,
}

/// A pending switch between dungeon floors.
#[derive(Copy, Clone, Debug, PartialEq, Eq, Structural)]
pub enum MapTransition {
    /// Stay on the current floor
    Stay,
    /// Down to the next floor
    Deeper,
}

/// A tile that triggers a floor transition when stepped on.
pub struct MapSwitcher(pub MapTransition);

/// The number of the floor the player is on.
pub struct FloorNumber(pub i32);

} // verus!
