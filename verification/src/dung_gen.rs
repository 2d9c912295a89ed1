use vstd::prelude::*;

use crate::components::{TileType, WallDirection};
use crate::random::{random_i32_in, random_usize_in};
use crate::reach::{
    connected, keeps_walkable, lemma_connected_refl, lemma_connected_transfer,
    lemma_joined_connected, walkable_at,
};
use crate::tile_map::TileMap;
use crate::union_find::{
    union_roots, unions_new, unions_new_key, unions_union, unions_unioned, UnitKey,
};

verus! {

/// How many random rooms are drawn for one placement before the free places
/// are searched in order instead.
pub const DRAWS_PER_ROOM: u32 = 100_000;

/// A candidate room: the floor covers every cell from `(x_min, y_min)` to
/// `(x_max, y_max)`, both corners included.
#[derive(Copy, Clone, Debug, PartialEq, Eq, Structural)]
pub struct Room {
    pub x_min: i32,
    pub y_min: i32,
    pub x_max: i32,
    pub y_max: i32,
}

/// Whether `k` lies in the closed rectangle from `(x0, y0)` to `(x1, y1)`.
pub open spec fn in_rect(k: (i32, i32), x0: int, y0: int, x1: int, y1: int) -> bool {
    x0 <= k.0 <= x1 && y0 <= k.1 <= y1
}

/// Whether `k` is a floor cell of `r`.
pub open spec fn in_room(k: (i32, i32), r: Room) -> bool {
    in_rect(k, r.x_min as int, r.y_min as int, r.x_max as int, r.y_max as int)
}

/// Whether `k` is on the ring of walls that surrounds `r`.
pub open spec fn on_room_ring(k: (i32, i32), r: Room) -> bool {
    in_rect(k, r.x_min - 1, r.y_min - 1, r.x_max + 1, r.y_max + 1) && !in_room(k, r)
}

/// A room is well formed and lies well inside the range of `i32`, so that its
/// ring and its extent can be computed.
pub open spec fn room_ok(r: Room) -> bool {
    &&& r.x_min <= r.x_max
    &&& r.y_min <= r.y_max
    &&& -0x4000_0000 < r.x_min
    &&& -0x4000_0000 < r.y_min
    &&& r.x_max < 0x4000_0000
    &&& r.y_max < 0x4000_0000
}

/// No floor cell of `r` is taken in `w`.
pub open spec fn room_is_free(w: Map<(i32, i32), TileType>, r: Room) -> bool {
    forall|k: (i32, i32)| in_room(k, r) ==> !#[trigger] w.contains_key(k)
}

/// `w` with the floor of `r` laid down and walled in.
pub open spec fn paint_room(w: Map<(i32, i32), TileType>, r: Room) -> Map<(i32, i32), TileType> {
    Map::new(
        |k: (i32, i32)| w.contains_key(k) || in_room(k, r) || on_room_ring(k, r),
        |k: (i32, i32)|
            if in_room(k, r) {
                TileType::Floor
            } else if on_room_ring(k, r) {
                TileType::Wall(None)
            } else {
                w[k]
            },
    )
}

/// The center cell of a room, rounding towards its low corner.
pub open spec fn room_center(r: Room) -> (i32, i32) {
    ((r.x_min + (r.x_max - r.x_min) / 2) as i32, (r.y_min + (r.y_max - r.y_min) / 2) as i32)
}

/// The absolute value of `v`.
pub open spec fn abs_int(v: int) -> int {
    if v < 0 {
        -v
    } else {
        v
    }
}

/// The Manhattan distance between two cells.
pub open spec fn manhattan(a: (i32, i32), b: (i32, i32)) -> int {
    abs_int(a.0 - b.0) + abs_int(a.1 - b.1)
}

/// A cell of a map of at most 2³⁰ by 2³⁰ cells: corridors next to it, and
/// distances between such cells, fit in `i32`.
pub open spec fn cell_in_bounds(c: (i32, i32)) -> bool {
    0 <= c.0 < 0x4000_0000 && 0 <= c.1 < 0x4000_0000
}

/// Rooms `i` and `j` exist and are not yet joined, under the component labels
/// `comp`.
pub open spec fn unjoined(comp: Seq<u32>, i: int, j: int) -> bool {
    0 <= i < comp.len() && 0 <= j < comp.len() && comp[i] != comp[j]
}

/// `p` comes no later than `q` in the order in which pairs are examined.
pub open spec fn pair_before(p: (int, int), q: (int, int)) -> bool {
    p.0 < q.0 || (p.0 == q.0 && p.1 <= q.1)
}

/// `p` is the pair of rooms that is joined next: of the unjoined pairs, one
/// whose centers are closest, and the first such in examination order.
pub open spec fn is_next_pair(centers: Seq<(i32, i32)>, comp: Seq<u32>, p: (int, int)) -> bool {
    &&& unjoined(comp, p.0, p.1)
    &&& forall|q: (int, int)|
        #[trigger] unjoined(comp, q.0, q.1) ==> manhattan(centers[p.0], centers[p.1]) < manhattan(
            centers[q.0],
            centers[q.1],
        ) || (manhattan(centers[p.0], centers[p.1]) == manhattan(centers[q.0], centers[q.1])
            && pair_before(p, q))
}

/// The labels after joining the components of rooms `a` and `b`.
pub open spec fn merge_labels(comp: Seq<u32>, a: int, b: int) -> Seq<u32> {
    Seq::new(
        comp.len(),
        |i: int|
            if comp[i] == comp[a] || comp[i] == comp[b] {
                comp[a]
            } else {
                comp[i]
            },
    )
}

/// Every room in a component of its own.
pub open spec fn separate_labels(n: nat) -> Seq<u32> {
    Seq::new(n, |i: int| i as u32)
}

/// Joining two components removes exactly one label.
pub proof fn lemma_merge_shrinks(comp: Seq<u32>, a: int, b: int)
    requires
        unjoined(comp, a, b),
    ensures
        merge_labels(comp, a, b).to_set() == comp.to_set().remove(comp[b]),
        merge_labels(comp, a, b).to_set().len() < comp.to_set().len(),
{
    broadcast use vstd::seq_lib::seq_to_set_is_finite;

    let m = merge_labels(comp, a, b);
    assert forall|x: u32| m.to_set().contains(x) implies comp.to_set().remove(comp[b]).contains(
        x,
    ) by {
        let i = choose|i: int| 0 <= i < m.len() && m[i] == x;
        if comp[i] == comp[a] || comp[i] == comp[b] {
            assert(comp[a] == x);
            assert(comp.contains(x));
        } else {
            assert(comp[i] == x);
            assert(comp.contains(x));
        }
    }
    assert forall|x: u32| comp.to_set().remove(comp[b]).contains(x) implies m.to_set().contains(
        x,
    ) by {
        let i = choose|i: int| 0 <= i < comp.len() && comp[i] == x;
        if x == comp[a] {
            assert(m[a] == x);
        } else {
            assert(m[i] == x);
        }
        assert(m.contains(x));
    }
    assert(m.to_set() =~= comp.to_set().remove(comp[b]));
    assert(comp.to_set().contains(comp[b])) by {
        assert(comp.contains(comp[b]));
    }
}

/// `w` with a corridor along row `y` from column `x0` to column `x1`, walled
/// on both sides (one column further) wherever nothing was there yet.
pub open spec fn carve_row(w: Map<(i32, i32), TileType>, x0: int, x1: int, y: int) -> Map<
    (i32, i32),
    TileType,
> {
    Map::new(
        |k: (i32, i32)|
            w.contains_key(k) || (k.1 == y && x0 <= k.0 <= x1) || ((k.1 == y + 1 || k.1 == y - 1)
                && x0 <= k.0 <= x1 + 1),
        |k: (i32, i32)|
            if k.1 == y && x0 <= k.0 <= x1 {
                TileType::Path
            } else if w.contains_key(k) {
                w[k]
            } else {
                TileType::Wall(None)
            },
    )
}

/// `w` with a corridor along column `x` from row `y0` to row `y1`, walled on
/// both sides (one row further) wherever nothing was there yet.
pub open spec fn carve_column(w: Map<(i32, i32), TileType>, x: int, y0: int, y1: int) -> Map<
    (i32, i32),
    TileType,
> {
    Map::new(
        |k: (i32, i32)|
            w.contains_key(k) || (k.0 == x && y0 <= k.1 <= y1) || ((k.0 == x + 1 || k.0 == x - 1)
                && y0 <= k.1 <= y1 + 1),
        |k: (i32, i32)|
            if k.0 == x && y0 <= k.1 <= y1 {
                TileType::Path
            } else if w.contains_key(k) {
                w[k]
            } else {
                TileType::Wall(None)
            },
    )
}

/// `w` with an L-shaped corridor between the cells `a` and `b`: first along
/// the row of the leftmost of the two, then along the column of the other.
pub open spec fn carve(w: Map<(i32, i32), TileType>, a: (i32, i32), b: (i32, i32)) -> Map<
    (i32, i32),
    TileType,
> {
    let (s, e) = if a.0 > b.0 {
        (b, a)
    } else {
        (a, b)
    };
    let (ylo, yhi) = if s.1 > e.1 {
        (e.1, s.1)
    } else {
        (s.1, e.1)
    };
    carve_column(carve_row(w, s.0 as int, e.0 as int, s.1 as int), e.0 as int, ylo as int, yhi as int)
}

/// The world after rooms are joined pairwise, closest unjoined pair first,
/// until every room is joined to every other; `comp` labels the components
/// joined so far.
pub open spec fn joined_world(
    w: Map<(i32, i32), TileType>,
    centers: Seq<(i32, i32)>,
    comp: Seq<u32>,
) -> Map<(i32, i32), TileType>
    decreases comp.to_set().len(),
{
    if exists|p: (int, int)| is_next_pair(centers, comp, p) {
        let p = choose|p: (int, int)| is_next_pair(centers, comp, p);
        proof {
            lemma_merge_shrinks(comp, p.0, p.1);
        }
        joined_world(
            carve(w, centers[p.0], centers[p.1]),
            centers,
            merge_labels(comp, p.0, p.1),
        )
    } else {
        w
    }
}

/// The component labels once rooms are joined pairwise, closest unjoined pair
/// first, until no next pair is left (see `joined_world`).
pub open spec fn joined_labels(centers: Seq<(i32, i32)>, comp: Seq<u32>) -> Seq<u32>
    decreases comp.to_set().len(),
{
    if exists|p: (int, int)| is_next_pair(centers, comp, p) {
        let p = choose|p: (int, int)| is_next_pair(centers, comp, p);
        proof {
            lemma_merge_shrinks(comp, p.0, p.1);
        }
        joined_labels(centers, merge_labels(comp, p.0, p.1))
    } else {
        comp
    }
}

/// Joining keeps one label per room.
proof fn lemma_joined_labels_len(centers: Seq<(i32, i32)>, comp: Seq<u32>)
    ensures
        joined_labels(centers, comp).len() == comp.len(),
    decreases comp.to_set().len(),
{
    if exists|p: (int, int)| is_next_pair(centers, comp, p) {
        let p = choose|p: (int, int)| is_next_pair(centers, comp, p);
        lemma_merge_shrinks(comp, p.0, p.1);
        lemma_joined_labels_len(centers, merge_labels(comp, p.0, p.1));
    }
}

/// All rooms carry one label: every room is joined to every other.
pub open spec fn all_joined(comp: Seq<u32>) -> bool {
    forall|i: int, j: int| 0 <= i < comp.len() && 0 <= j < comp.len() ==> comp[i] == comp[j]
}

/// A wall faces at most one direction: where one direction fits, no other
/// does, so the order in which directions are tried does not matter.
pub proof fn lemma_wall_faces_one_way(
    w: Map<(i32, i32), TileType>,
    x: int,
    y: int,
    d1: WallDirection,
    d2: WallDirection,
)
    requires
        faces(w, x, y, d1),
        faces(w, x, y, d2),
    ensures
        d1 == d2,
{
}

/// Orienting walls keeps the cells of the world, and changes nothing but walls,
/// each into a wall.
pub proof fn lemma_orient_changes_only_walls(w: Map<(i32, i32), TileType>, k: (i32, i32))
    requires
        w.contains_key(k),
    ensures
        orient_walls(w).contains_key(k),
        !(w[k] is Wall) ==> orient_walls(w)[k] == w[k],
        w[k] is Wall ==> orient_walls(w)[k] is Wall,
{
}

/// Filling with nothing keeps every tile that was there.
pub proof fn lemma_fill_keeps_tiles(
    w: Map<(i32, i32), TileType>,
    width: int,
    height: int,
    k: (i32, i32),
)
    requires
        w.contains_key(k),
    ensures
        fill_nothing(w, width, height)[k] == w[k],
{
}

/// The center of a room lies on its floor.
pub proof fn lemma_center_in_room(r: Room)
    requires
        room_ok(r),
    ensures
        in_room(room_center(r), r),
{
}

/// The next pair is unique.
proof fn lemma_next_pair_unique(centers: Seq<(i32, i32)>, comp: Seq<u32>, p: (int, int), q: (int, int))
    requires
        is_next_pair(centers, comp, p),
        is_next_pair(centers, comp, q),
    ensures
        p == q,
{
    assert(unjoined(comp, q.0, q.1));
    assert(unjoined(comp, p.0, p.1));
}

fn manhattan_exec(a: (i32, i32), b: (i32, i32)) -> (d: i32)
    requires
        cell_in_bounds(a),
        cell_in_bounds(b),
    ensures
        d == manhattan(a, b),
        d < i32::MAX,
{
    let dx = if a.0 > b.0 {
        a.0 - b.0
    } else {
        b.0 - a.0
    };
    let dy = if a.1 > b.1 {
        a.1 - b.1
    } else {
        b.1 - a.1
    };
    dx + dy
}

/// Every cell of `w` has neighbours that are representable in `i32`.
pub open spec fn keys_bounded(w: Map<(i32, i32), TileType>) -> bool {
    forall|k: (i32, i32)|
        #[trigger] w.contains_key(k) ==> i32::MIN < k.0 < i32::MAX && i32::MIN < k.1 < i32::MAX
}

/// The tile at `k`, where a missing tile counts as an undirected wall.
pub open spec fn tile_or_wall(w: Map<(i32, i32), TileType>, k: (int, int)) -> TileType {
    if w.contains_key((k.0 as i32, k.1 as i32)) {
        w[(k.0 as i32, k.1 as i32)]
    } else {
        TileType::Wall(None)
    }
}

/// A tile that can be walked on.
pub open spec fn is_open(t: TileType) -> bool {
    t == TileType::Floor || t == TileType::Path
}

/// The wall at `(x, y)` faces open ground in direction `d`: the cell on the
/// opposite side of `d` is open, and the other three orthogonal neighbours and
/// the two diagonal neighbours on the side of `d` are undirected walls.
pub open spec fn faces(w: Map<(i32, i32), TileType>, x: int, y: int, d: WallDirection) -> bool {
    let n = tile_or_wall(w, (x, y + 1));
    let wst = tile_or_wall(w, (x - 1, y));
    let s = tile_or_wall(w, (x, y - 1));
    let e = tile_or_wall(w, (x + 1, y));
    let ne = tile_or_wall(w, (x + 1, y + 1));
    let nw = tile_or_wall(w, (x - 1, y + 1));
    let se = tile_or_wall(w, (x + 1, y - 1));
    let sw = tile_or_wall(w, (x - 1, y - 1));
    let wall = TileType::Wall(None);
    match d {
        WallDirection::North => is_open(s) && e == wall && n == wall && wst == wall && ne == wall
            && nw == wall,
        WallDirection::West => is_open(e) && n == wall && wst == wall && s == wall && sw == wall
            && nw == wall,
        WallDirection::South => is_open(n) && wst == wall && s == wall && e == wall && se == wall
            && sw == wall,
        WallDirection::East => is_open(wst) && s == wall && e == wall && n == wall && se == wall
            && ne == wall,
    }
}

/// The tile at `k` once walls are turned to face the open ground next to them;
/// where several directions fit, the last of North, West, South, East wins.
pub open spec fn oriented_tile(w: Map<(i32, i32), TileType>, k: (i32, i32)) -> TileType {
    if w[k] is Wall {
        if faces(w, k.0 as int, k.1 as int, WallDirection::East) {
            TileType::Wall(Some(WallDirection::East))
        } else if faces(w, k.0 as int, k.1 as int, WallDirection::South) {
            TileType::Wall(Some(WallDirection::South))
        } else if faces(w, k.0 as int, k.1 as int, WallDirection::West) {
            TileType::Wall(Some(WallDirection::West))
        } else if faces(w, k.0 as int, k.1 as int, WallDirection::North) {
            TileType::Wall(Some(WallDirection::North))
        } else {
            w[k]
        }
    } else {
        w[k]
    }
}

/// `w` with every wall turned to face the open ground next to it.
pub open spec fn orient_walls(w: Map<(i32, i32), TileType>) -> Map<(i32, i32), TileType> {
    Map::new(|k: (i32, i32)| w.contains_key(k), |k: (i32, i32)| oriented_tile(w, k))
}

/// `w` with every empty cell of the map `[0, width) × [0, height)` marked as
/// nothing.
pub open spec fn fill_nothing(w: Map<(i32, i32), TileType>, width: int, height: int) -> Map<
    (i32, i32),
    TileType,
> {
    Map::new(
        |k: (i32, i32)| w.contains_key(k) || (0 <= k.0 < width && 0 <= k.1 < height),
        |k: (i32, i32)|
            if w.contains_key(k) {
                w[k]
            } else {
                TileType::Nothing
            },
    )
}

/// `w` with the rooms painted in one after the other.
pub open spec fn place_rooms(w: Map<(i32, i32), TileType>, rooms: Seq<Room>) -> Map<
    (i32, i32),
    TileType,
>
    decreases rooms.len(),
{
    if rooms.len() == 0 {
        w
    } else {
        paint_room(place_rooms(w, rooms.drop_last()), rooms.last())
    }
}

/// Each room was placed on cells that nothing (including earlier rooms) took.
pub open spec fn rooms_fit(w: Map<(i32, i32), TileType>, rooms: Seq<Room>) -> bool {
    forall|t: int| 0 <= t < rooms.len() ==> room_is_free(place_rooms(w, rooms.take(t)), #[trigger] rooms[t])
}

/// The centers of the rooms, in order.
pub open spec fn room_centers_of(rooms: Seq<Room>) -> Seq<(i32, i32)> {
    rooms.map_values(|r: Room| room_center(r))
}

/// Joining rooms with corridors keeps every cell's neighbours representable.
pub proof fn lemma_joined_keys_bounded(
    w: Map<(i32, i32), TileType>,
    centers: Seq<(i32, i32)>,
    comp: Seq<u32>,
)
    requires
        keys_bounded(w),
        comp.len() == centers.len(),
        forall|i: int| 0 <= i < centers.len() ==> cell_in_bounds(#[trigger] centers[i]),
    ensures
        keys_bounded(joined_world(w, centers, comp)),
    decreases comp.to_set().len(),
{
    if exists|p: (int, int)| is_next_pair(centers, comp, p) {
        let p = choose|p: (int, int)| is_next_pair(centers, comp, p);
        lemma_merge_shrinks(comp, p.0, p.1);
        let a = centers[p.0];
        let b = centers[p.1];
        let w2 = carve(w, a, b);
        assert(cell_in_bounds(a));
        assert(cell_in_bounds(b));
        assert(keys_bounded(w2));
        lemma_joined_keys_bounded(w2, centers, merge_labels(comp, p.0, p.1));
    }
}

/// No cell of `w` holds the ladder down.
pub open spec fn has_no_ladder(w: Map<(i32, i32), TileType>) -> bool {
    forall|k: (i32, i32)| #[trigger] w.contains_key(k) ==> w[k] != TileType::LadderDown
}

/// `k` is `c` or one of its eight neighbours.
pub open spec fn near(k: (i32, i32), c: (i32, i32)) -> bool {
    abs_int(k.0 - c.0) <= 1 && abs_int(k.1 - c.1) <= 1
}

/// Painting a room that fits leaves alone a cell whose neighbours are all
/// taken: the room cannot reach it, not even with its ring of walls.
proof fn lemma_paint_spares_enclosed(w: Map<(i32, i32), TileType>, room: Room, c: (i32, i32))
    requires
        room_ok(room),
        room_is_free(w, room),
        forall|k: (i32, i32)| #[trigger] near(k, c) ==> w.contains_key(k),
    ensures
        paint_room(w, room).contains_key(c),
        paint_room(w, room)[c] == w[c],
{
    assert(near(c, c));
    if in_room(c, room) {
        assert(!w.contains_key(c));
    } else if on_room_ring(c, room) {
        let fx: int = if c.0 < room.x_min {
            room.x_min as int
        } else if c.0 > room.x_max {
            room.x_max as int
        } else {
            c.0 as int
        };
        let fy: int = if c.1 < room.y_min {
            room.y_min as int
        } else if c.1 > room.y_max {
            room.y_max as int
        } else {
            c.1 as int
        };
        let f: (i32, i32) = (fx as i32, fy as i32);
        assert(in_room(f, room));
        assert(near(f, c));
        assert(w.contains_key(f));
    }
}

/// Painting rooms puts down floor and walls only, never a ladder.
proof fn lemma_rooms_put_no_ladder(w: Map<(i32, i32), TileType>, rooms: Seq<Room>)
    requires
        has_no_ladder(w),
    ensures
        has_no_ladder(place_rooms(w, rooms)),
    decreases rooms.len(),
{
    if rooms.len() > 0 {
        lemma_rooms_put_no_ladder(w, rooms.drop_last());
    }
}

/// Digging corridors puts down paths and walls only, never a ladder.
proof fn lemma_corridors_put_no_ladder(
    w: Map<(i32, i32), TileType>,
    centers: Seq<(i32, i32)>,
    comp: Seq<u32>,
)
    requires
        has_no_ladder(w),
    ensures
        has_no_ladder(joined_world(w, centers, comp)),
    decreases comp.to_set().len(),
{
    if exists|p: (int, int)| is_next_pair(centers, comp, p) {
        let p = choose|p: (int, int)| is_next_pair(centers, comp, p);
        lemma_merge_shrinks(comp, p.0, p.1);
        let w2 = carve(w, centers[p.0], centers[p.1]);
        assert(has_no_ladder(w2));
        lemma_corridors_put_no_ladder(w2, centers, merge_labels(comp, p.0, p.1));
    }
}

/// The character that stands for a cell when a floor is printed: blank for
/// no tile, `#` for an undirected wall, `.` for floor, `?` for anything else.
pub open spec fn glyph_of(t: Option<TileType>) -> char {
    match t {
        None => ' ',
        Some(TileType::Wall(None)) => '#',
        Some(TileType::Floor) => '.',
        Some(_) => '?',
    }
}

/// The character that stands for a cell when a floor is printed.
pub fn tile_glyph(t: Option<TileType>) -> (c: char)
    ensures
        c == glyph_of(t),
{
    match t {
        None => ' ',
        Some(TileType::Wall(None)) => '#',
        Some(TileType::Floor) => '.',
        Some(_) => '?',
    }
}

/// A dungeon generator: parameters, and the rooms and tiles it has produced.
pub struct DungGen {
    pub width: i32,
    pub height: i32,
    /// Sets the smallest room: a room's floor spans at least `room_min + 1`
    /// cells across and down (see `room_in_params`)
    pub room_min: i32,
    /// With `room_min`, sets the largest room: a room's floor spans at most
    /// `room_min + room_range` cells across and down
    pub room_range: i32,
    pub n_rooms: usize,
    /// The centers of the rooms placed so far
    pub room_centers: Vec<(i32, i32)>,
    /// The result of the algorithm is stored here
    pub world: TileMap,
}

impl DungGen {
    /// The parameters for which generation is defined: rooms of positive range
    /// that fit inside the map with a border, and a map small enough that
    /// distances between cells fit in an `i32`.
    pub open spec fn params_ok(&self) -> bool {
        &&& 0 <= self.room_min
        &&& 0 < self.room_range
        &&& self.width <= 0x4000_0000
        &&& self.height <= 0x4000_0000
        &&& self.room_min + self.room_range + 2 < self.width
        &&& self.room_min + self.room_range + 2 < self.height
    }

    /// The two generators agree on every parameter.
    pub open spec fn same_params(&self, other: &DungGen) -> bool {
        &&& self.width == other.width
        &&& self.height == other.height
        &&& self.room_min == other.room_min
        &&& self.room_range == other.room_range
        &&& self.n_rooms == other.n_rooms
    }

    /// `r` is a room that `random_room` can draw under these parameters.
    pub open spec fn room_in_params(&self, r: Room) -> bool {
        &&& 1 <= r.x_min < self.width - (self.room_min + self.room_range) - 1
        &&& 1 <= r.y_min < self.height - (self.room_min + self.room_range) - 1
        &&& r.x_min + self.room_min <= r.x_max < r.x_min + self.room_min + self.room_range
        &&& r.y_min + self.room_min <= r.y_max < r.y_min + self.room_min + self.room_range
    }

    /// The smallest room that `random_room` can draw with its low corner at
    /// `(x, y)`.
    pub open spec fn smallest_room_at(&self, x: int, y: int) -> Room {
        Room {
            x_min: x as i32,
            y_min: y as i32,
            x_max: (x + self.room_min) as i32,
            y_max: (y + self.room_min) as i32,
        }
    }

    /// No room that `random_room` can draw fits in `w`: drawing again could
    /// never place another room.
    pub open spec fn no_room_fits(&self, w: Map<(i32, i32), TileType>) -> bool {
        forall|r: Room| #[trigger] self.room_in_params(r) ==> !room_is_free(w, r)
    }

    /// What generation produces from this generator, given the rooms that were
    /// drawn and fitted: the rooms painted in, joined by corridors, walls
    /// oriented, the rest of the map `[0, width) × [0, height)` filled with
    /// nothing.
    pub open spec fn generated_world(&self, rooms: Seq<Room>) -> Map<(i32, i32), TileType> {
        fill_nothing(
            orient_walls(
                joined_world(
                    place_rooms(self.world@, rooms),
                    room_centers_of(rooms),
                    separate_labels(rooms.len()),
                ),
            ),
            self.width as int,
            self.height as int,
        )
    }

    /// A generator with the default parameters and an empty world.
    pub fn new() -> (d: DungGen)
        ensures
            d.width == 100,
            d.height == 50,
            d.room_min == 4,
            d.room_range == 11,
            d.n_rooms == 10,
            d.room_centers@ == Seq::<(i32, i32)>::empty(),
            d.world@ == Map::<(i32, i32), TileType>::empty(),
    {
        DungGen {
            width: 100,
            height: 50,
            room_min: 4,
            room_range: 11,
            n_rooms: 10,
            room_centers: Vec::new(),
            world: TileMap::new(),
        }
    }

    pub fn width(self, width: i32) -> (d: DungGen)
        ensures
            d == (DungGen { width, ..self }),
    {
        DungGen { width, ..self }
    }

    pub fn height(self, height: i32) -> (d: DungGen)
        ensures
            d == (DungGen { height, ..self }),
    {
        DungGen { height, ..self }
    }

    pub fn room_min(self, room_min: i32) -> (d: DungGen)
        ensures
            d == (DungGen { room_min, ..self }),
    {
        DungGen { room_min, ..self }
    }

    pub fn room_range(self, room_range: i32) -> (d: DungGen)
        ensures
            d == (DungGen { room_range, ..self }),
    {
        DungGen { room_range, ..self }
    }

    pub fn n_rooms(self, n_rooms: usize) -> (d: DungGen)
        ensures
            d == (DungGen { n_rooms, ..self }),
    {
        DungGen { n_rooms, ..self }
    }

    pub fn world(self, world: TileMap) -> (d: DungGen)
        ensures
            d == (DungGen { world, ..self }),
    {
        DungGen { world, ..self }
    }

    /// Draws a random room whose walls stay one cell inside the map.
    pub fn random_room(&self) -> (r: Room)
        requires
            self.params_ok(),
        ensures
            1 <= r.x_min < self.width - (self.room_min + self.room_range) - 1,
            1 <= r.y_min < self.height - (self.room_min + self.room_range) - 1,
            r.x_min + self.room_min <= r.x_max < r.x_min + self.room_min + self.room_range,
            r.y_min + self.room_min <= r.y_max < r.y_min + self.room_min + self.room_range,
            exists|dx: int, dy: int|
                0 <= dx < self.room_range && 0 <= dy < self.room_range && r == #[trigger] self.room_of_draws(
                    r.x_min as int,
                    r.y_min as int,
                    dx,
                    dy,
                ),
            room_ok(r),
    {
        let world_edge_size: i32 = 1;
        let x_min = random_i32_in(
            world_edge_size,
            self.width - (self.room_min + self.room_range) - world_edge_size,
        );
        let y_min = random_i32_in(
            world_edge_size,
            self.height - (self.room_min + self.room_range) - world_edge_size,
        );
        let extra_width = random_i32_in(0, self.room_range);
        let extra_height = random_i32_in(0, self.room_range);
        self.room_from_draws(x_min, y_min, extra_width, extra_height)
    }

    /// The room with its low corner at `(x_min, y_min)` whose floor spans
    /// `room_min + extra_width + 1` cells across and `room_min + extra_height
    /// + 1` down.
    pub open spec fn room_of_draws(&self, x_min: int, y_min: int, extra_width: int, extra_height: int) -> Room {
        Room {
            x_min: x_min as i32,
            y_min: y_min as i32,
            x_max: (x_min + self.room_min + extra_width) as i32,
            y_max: (y_min + self.room_min + extra_height) as i32,
        }
    }

    /// The room that a draw of a corner and of the two extra sizes gives.
    pub fn room_from_draws(&self, x_min: i32, y_min: i32, extra_width: i32, extra_height: i32) -> (r:
        Room)
        requires
            self.params_ok(),
            1 <= x_min < self.width - (self.room_min + self.room_range) - 1,
            1 <= y_min < self.height - (self.room_min + self.room_range) - 1,
            0 <= extra_width < self.room_range,
            0 <= extra_height < self.room_range,
        ensures
            r.x_min == x_min,
            r.y_min == y_min,
            r.x_max - r.x_min == self.room_min + extra_width,
            r.y_max - r.y_min == self.room_min + extra_height,
            r == self.room_of_draws(x_min as int, y_min as int, extra_width as int, extra_height as int),
            self.room_in_params(r),
            room_ok(r),
    {
        Room {
            x_min,
            y_min,
            x_max: x_min + self.room_min + extra_width,
            y_max: y_min + self.room_min + extra_height,
        }
    }

    /// Every room size that the parameters allow comes out of some draw: for
    /// each extent `w` from `room_min` below `room_min + room_range` across
    /// (and likewise `h` down), drawing `w - room_min` as the extra width gives
    /// a room of exactly that extent, and distinct draws give distinct sizes.
    pub proof fn lemma_every_room_size_drawable(&self, x_min: int, y_min: int, w: int, h: int)
        requires
            self.params_ok(),
            1 <= x_min < self.width - (self.room_min + self.room_range) - 1,
            1 <= y_min < self.height - (self.room_min + self.room_range) - 1,
            self.room_min <= w < self.room_min + self.room_range,
            self.room_min <= h < self.room_min + self.room_range,
        ensures
            0 <= w - self.room_min < self.room_range,
            0 <= h - self.room_min < self.room_range,
            self.room_of_draws(x_min, y_min, w - self.room_min, h - self.room_min).x_max - x_min == w,
            self.room_of_draws(x_min, y_min, w - self.room_min, h - self.room_min).y_max - y_min == h,
            self.room_in_params(self.room_of_draws(x_min, y_min, w - self.room_min, h - self.room_min)),
    {
    }

    /// Whether no floor cell of `room` is taken yet.
    pub fn room_fits(&self, room: Room) -> (b: bool)
        requires
            room_ok(room),
        ensures
            b == room_is_free(self.world@, room),
    {
        let mut x = room.x_min;
        while x <= room.x_max
            invariant
                room_ok(room),
                room.x_min <= x <= room.x_max + 1,
                forall|k: (i32, i32)|
                    in_rect(k, room.x_min as int, room.y_min as int, x - 1, room.y_max as int)
                        ==> !#[trigger] self.world@.contains_key(k),
            decreases room.x_max + 1 - x,
        {
            let mut y = room.y_min;
            while y <= room.y_max
                invariant
                    room_ok(room),
                    room.x_min <= x <= room.x_max,
                    room.y_min <= y <= room.y_max + 1,
                    forall|k: (i32, i32)|
                        in_rect(k, room.x_min as int, room.y_min as int, x - 1, room.y_max as int)
                            ==> !#[trigger] self.world@.contains_key(k),
                    forall|k: (i32, i32)|
                        in_rect(k, x as int, room.y_min as int, x as int, y - 1)
                            ==> !#[trigger] self.world@.contains_key(k),
                decreases room.y_max + 1 - y,
            {
                if self.world.contains_key((x, y)) {
                    assert(in_room((x, y), room));
                    return false;
                }
                y = y + 1;
            }
            x = x + 1;
        }
        true
    }

    /// Digs an L-shaped corridor from `a` to `b` (see `carve`).
    pub fn carve_path(&mut self, a: (i32, i32), b: (i32, i32))
        requires
            cell_in_bounds(a),
            cell_in_bounds(b),
        ensures
            final(self).world@ == carve(old(self).world@, a, b),
            final(self).room_centers@ == old(self).room_centers@,
            final(self).same_params(old(self)),
    {
        let (mut x_start, mut y_start, mut x_end, mut y_end) = (a.0, a.1, b.0, b.1);
        // For the algorithm to work correctly we have to make sure that x_start is at most x_end
        if a.0 > b.0 {
            x_start = b.0;
            y_start = b.1;
            x_end = a.0;
            y_end = a.1;
        }
        let ghost w0 = self.world@;
        let mut x = x_start;
        while x <= x_end + 1
            invariant
                self.same_params(old(self)),
                self.room_centers@ == old(self).room_centers@,
                cell_in_bounds((x_start, y_start)),
                cell_in_bounds((x_end, y_end)),
                x_start <= x_end,
                x_start <= x <= x_end + 2,
                forall|k: (i32, i32)| #[trigger]
                    self.world@.contains_key(k) == (w0.contains_key(k) || (k.1 == y_start
                        && x_start <= k.0 < x && k.0 <= x_end) || ((k.1 == y_start + 1 || k.1
                        == y_start - 1) && x_start <= k.0 < x)),
                forall|k: (i32, i32)| #[trigger]
                    self.world@.contains_key(k) ==> self.world@[k] == (if k.1 == y_start
                        && x_start <= k.0 < x && k.0 <= x_end {
                        TileType::Path
                    } else if w0.contains_key(k) {
                        w0[k]
                    } else {
                        TileType::Wall(None)
                    }),
            decreases x_end + 2 - x,
        {
            if x <= x_end {
                self.world.insert((x, y_start), TileType::Path);
            }
            if let None = self.world.get((x, y_start + 1)) {
                self.world.insert((x, y_start + 1), TileType::Wall(None));
            }
            if let None = self.world.get((x, y_start - 1)) {
                self.world.insert((x, y_start - 1), TileType::Wall(None));
            }
            x = x + 1;
        }
        assert(self.world@ =~= carve_row(w0, x_start as int, x_end as int, y_start as int));
        let ghost w1 = self.world@;
        // And now make sure we iterate in the correct y direction as well.
        if y_start > y_end {
            let temp = y_start;
            y_start = y_end;
            y_end = temp;
        }
        let mut y = y_start;
        while y <= y_end + 1
            invariant
                self.same_params(old(self)),
                self.room_centers@ == old(self).room_centers@,
                cell_in_bounds((x_end, y_start)),
                cell_in_bounds((x_end, y_end)),
                y_start <= y_end,
                y_start <= y <= y_end + 2,
                forall|k: (i32, i32)| #[trigger]
                    self.world@.contains_key(k) == (w1.contains_key(k) || (k.0 == x_end
                        && y_start <= k.1 < y && k.1 <= y_end) || ((k.0 == x_end + 1 || k.0
                        == x_end - 1) && y_start <= k.1 < y)),
                forall|k: (i32, i32)| #[trigger]
                    self.world@.contains_key(k) ==> self.world@[k] == (if k.0 == x_end
                        && y_start <= k.1 < y && k.1 <= y_end {
                        TileType::Path
                    } else if w1.contains_key(k) {
                        w1[k]
                    } else {
                        TileType::Wall(None)
                    }),
            decreases y_end + 2 - y,
        {
            if y <= y_end {
                self.world.insert((x_end, y), TileType::Path);
            }
            if let None = self.world.get((x_end + 1, y)) {
                self.world.insert((x_end + 1, y), TileType::Wall(None));
            }
            if let None = self.world.get((x_end - 1, y)) {
                self.world.insert((x_end - 1, y), TileType::Wall(None));
            }
            y = y + 1;
        }
        assert(self.world@ =~= carve_column(w1, x_end as int, y_start as int, y_end as int));
    }

    /// Joins the rooms: repeatedly digs a corridor between the two closest
    /// rooms that are not yet connected through earlier corridors, until all
    /// are connected (see `joined_world`).
    pub fn connect_rooms(&mut self)
        requires
            old(self).room_centers@.len() < u32::MAX,
            old(self).room_centers@.no_duplicates(),
            forall|i: int|
                0 <= i < old(self).room_centers@.len() ==> cell_in_bounds(
                    #[trigger] old(self).room_centers@[i],
                ),
        ensures
            final(self).world@ == joined_world(
                old(self).world@,
                old(self).room_centers@,
                separate_labels(old(self).room_centers@.len()),
            ),
            all_joined(
                joined_labels(
                    old(self).room_centers@,
                    separate_labels(old(self).room_centers@.len()),
                ),
            ),
            final(self).room_centers@ == old(self).room_centers@,
            final(self).same_params(old(self)),
    {
        let n = self.room_centers.len();
        let ghost centers = self.room_centers@;
        // Add the rooms as keys of a unification table
        let mut comps = unions_new();
        let mut i: usize = 0;
        while i < n
            invariant
                n == centers.len(),
                n < u32::MAX,
                i <= n,
                union_roots(comps) =~= separate_labels(i as nat),
            decreases n - i,
        {
            unions_new_key(&mut comps);
            i = i + 1;
        }
        let ghost g0 = union_roots(comps);
        let ghost mut g = g0;
        let ghost target = joined_world(self.world@, centers, g0);
        let ghost target_labels = joined_labels(centers, g0);
        loop
            invariant
                self.same_params(old(self)),
                self.room_centers@ == centers,
                n == centers.len(),
                n < u32::MAX,
                forall|i: int| 0 <= i < n ==> cell_in_bounds(#[trigger] centers[i]),
                g.len() == n,
                union_roots(comps).len() == n,
                forall|i: int, j: int|
                    0 <= i < n && 0 <= j < n ==> (union_roots(comps)[i] == union_roots(comps)[j]
                        <==> g[i] == g[j]),
                joined_world(self.world@, centers, g) == target,
                joined_labels(centers, g) == target_labels,
                g0 == separate_labels(n as nat),
                target == joined_world(old(self).world@, centers, g0),
                target_labels == joined_labels(centers, g0),
            ensures
                self.world@ == target,
                all_joined(target_labels),
                self.room_centers@ == centers,
                self.same_params(old(self)),
            decreases g.to_set().len(),
        {
            // Select the pair of rooms in different components with the least distance between them.
            let mut found = false;
            let mut best_a: usize = 0;
            let mut best_b: usize = 0;
            let mut least_dist: i32 = i32::MAX;
            let mut a: usize = 0;
            while a < n
                invariant
                    n == centers.len(),
                    n < u32::MAX,
                    self.room_centers@ == centers,
                    forall|i: int| 0 <= i < n ==> cell_in_bounds(#[trigger] centers[i]),
                    g.len() == n,
                    union_roots(comps).len() == n,
                    forall|i: int, j: int|
                        0 <= i < n && 0 <= j < n ==> (union_roots(comps)[i] == union_roots(
                            comps,
                        )[j] <==> g[i] == g[j]),
                    a <= n,
                    found ==> best_a < n && best_b < n && unjoined(g, best_a as int, best_b as int)
                        && least_dist == manhattan(centers[best_a as int], centers[best_b as int])
                        && best_a < a,
                    !found ==> least_dist == i32::MAX,
                    forall|x: int, y: int|
                        x < a && #[trigger] unjoined(g, x, y) ==> found && (least_dist
                            < manhattan(centers[x], centers[y]) || (least_dist == manhattan(
                            centers[x],
                            centers[y],
                        ) && pair_before((best_a as int, best_b as int), (x, y)))),
                decreases n - a,
            {
                let mut b: usize = 0;
                while b < n
                    invariant
                        n == centers.len(),
                        n < u32::MAX,
                        self.room_centers@ == centers,
                        forall|i: int| 0 <= i < n ==> cell_in_bounds(#[trigger] centers[i]),
                        g.len() == n,
                        union_roots(comps).len() == n,
                        forall|i: int, j: int|
                            0 <= i < n && 0 <= j < n ==> (union_roots(comps)[i] == union_roots(
                                comps,
                            )[j] <==> g[i] == g[j]),
                        a < n,
                        b <= n,
                        found ==> best_a < n && best_b < n && unjoined(
                            g,
                            best_a as int,
                            best_b as int,
                        ) && least_dist == manhattan(centers[best_a as int], centers[best_b as int])
                            && pair_before((best_a as int, best_b as int), (a as int, b as int)),
                        !found ==> least_dist == i32::MAX,
                        forall|x: int, y: int|
                            (x < a || (x == a && y < b)) && #[trigger] unjoined(g, x, y)
                                ==> found && (least_dist < manhattan(centers[x], centers[y]) || (
                            least_dist == manhattan(centers[x], centers[y]) && pair_before(
                                (best_a as int, best_b as int),
                                (x, y),
                            ))),
                    decreases n - b,
                {
                    if !unions_unioned(&mut comps, UnitKey(a as u32), UnitKey(b as u32)) {
                        let dist = manhattan_exec(self.room_centers[a], self.room_centers[b]);
                        if dist < least_dist {
                            least_dist = dist;
                            best_a = a;
                            best_b = b;
                            found = true;
                        }
                    }
                    b = b + 1;
                }
                a = a + 1;
            }
            // If there are none remaining, we are done.
            if !found {
                proof {
                    assert forall|p: (int, int)| !is_next_pair(centers, g, p) by {
                        if is_next_pair(centers, g, p) {
                            assert(unjoined(g, p.0, p.1));
                        }
                    }
                    assert(joined_world(self.world@, centers, g) == self.world@);
                    assert(joined_labels(centers, g) == g);
                    assert forall|i: int, j: int| 0 <= i < n && 0 <= j < n implies g[i] == g[j] by {
                        if g[i] != g[j] {
                            assert(unjoined(g, i, j));
                        }
                    }
                }
                break;
            }
            proof {
                let p = (best_a as int, best_b as int);
                assert(is_next_pair(centers, g, p));
                let c = choose|p: (int, int)| is_next_pair(centers, g, p);
                lemma_next_pair_unique(centers, g, p, c);
            }
            let from = self.room_centers[best_a];
            let to = self.room_centers[best_b];
            self.carve_path(from, to);
            // Finally mark these rooms as being connected
            let ghost roots_before = union_roots(comps);
            unions_union(&mut comps, UnitKey(best_a as u32), UnitKey(best_b as u32));
            proof {
                lemma_merge_shrinks(g, best_a as int, best_b as int);
                let g2 = merge_labels(g, best_a as int, best_b as int);
                assert forall|i: int, j: int|
                    0 <= i < n && 0 <= j < n implies (union_roots(comps)[i] == union_roots(
                    comps,
                )[j] <==> g2[i] == g2[j]) by {
                    assert(roots_before[i] == roots_before[best_a as int] <==> g[i]
                        == g[best_a as int]);
                    assert(roots_before[i] == roots_before[best_b as int] <==> g[i]
                        == g[best_b as int]);
                    assert(roots_before[j] == roots_before[best_a as int] <==> g[j]
                        == g[best_a as int]);
                    assert(roots_before[j] == roots_before[best_b as int] <==> g[j]
                        == g[best_b as int]);
                    assert(roots_before[i] == roots_before[j] <==> g[i] == g[j]);
                    assert(roots_before[best_a as int] != roots_before[best_b as int]);
                }
                g = g2;
            }
        }
    }

    /// The tile at `k`, where a missing tile counts as an undirected wall.
    fn tile_or_wall_at(&self, k: (i32, i32)) -> (t: TileType)
        ensures
            t == tile_or_wall(self.world@, (k.0 as int, k.1 as int)),
    {
        match self.world.get(k) {
            Some(t) => t,
            None => TileType::Wall(None),
        }
    }

    /// The tile at `(x, y)` once walls are turned to face open ground.
    fn oriented_tile_at(&self, x: i32, y: i32) -> (t: TileType)
        requires
            self.world@.contains_key((x, y)),
            i32::MIN < x < i32::MAX,
            i32::MIN < y < i32::MAX,
        ensures
            t == oriented_tile(self.world@, (x, y)),
    {
        let here = self.tile_or_wall_at((x, y));
        if let TileType::Wall(_) = here {
            let n = self.tile_or_wall_at((x, y + 1));
            let w = self.tile_or_wall_at((x - 1, y));
            let s = self.tile_or_wall_at((x, y - 1));
            let e = self.tile_or_wall_at((x + 1, y));
            let ne = self.tile_or_wall_at((x + 1, y + 1));
            let nw = self.tile_or_wall_at((x - 1, y + 1));
            let se = self.tile_or_wall_at((x + 1, y - 1));
            let sw = self.tile_or_wall_at((x - 1, y - 1));
            let wall = TileType::Wall(None);
            let mut result = here;
            let patterns = [
                (s, e, n, w, ne, nw, TileType::Wall(Some(WallDirection::North))),
                (e, n, w, s, sw, nw, TileType::Wall(Some(WallDirection::West))),
                (n, w, s, e, se, sw, TileType::Wall(Some(WallDirection::South))),
                (w, s, e, n, se, ne, TileType::Wall(Some(WallDirection::East))),
            ];
            let mut i: usize = 0;
            while i < 4
                invariant
                    i <= 4,
                    patterns@ == seq![
                        (s, e, n, w, ne, nw, TileType::Wall(Some(WallDirection::North))),
                        (e, n, w, s, sw, nw, TileType::Wall(Some(WallDirection::West))),
                        (n, w, s, e, se, sw, TileType::Wall(Some(WallDirection::South))),
                        (w, s, e, n, se, ne, TileType::Wall(Some(WallDirection::East))),
                    ],
                    wall == TileType::Wall(None),
                    result == (if i >= 4 && (is_open(w) && s == wall && e == wall && n == wall
                        && se == wall && ne == wall) {
                        TileType::Wall(Some(WallDirection::East))
                    } else if i >= 3 && (is_open(n) && w == wall && s == wall && e == wall
                        && se == wall && sw == wall) {
                        TileType::Wall(Some(WallDirection::South))
                    } else if i >= 2 && (is_open(e) && n == wall && w == wall && s == wall
                        && sw == wall && nw == wall) {
                        TileType::Wall(Some(WallDirection::West))
                    } else if i >= 1 && (is_open(s) && e == wall && n == wall && w == wall
                        && ne == wall && nw == wall) {
                        TileType::Wall(Some(WallDirection::North))
                    } else {
                        here
                    }),
                decreases 4 - i,
            {
                let (a, b, c, d, e2, f, typ) = patterns[i];
                if (a == TileType::Floor || a == TileType::Path) && b == wall && c == wall && d
                    == wall && e2 == wall && f == wall {
                    result = typ;
                }
                i = i + 1;
            }
            result
        } else {
            here
        }
    }

    /// Determines the orientation of walls, to assign the correct model and
    /// rotation (see `orient_walls`).
    pub fn orient_world_walls(&mut self)
        requires
            keys_bounded(old(self).world@),
        ensures
            final(self).world@ == orient_walls(old(self).world@),
            final(self).world.key_order() == old(self).world.key_order(),
            final(self).room_centers@ == old(self).room_centers@,
            final(self).same_params(old(self)),
    {
        let count = self.world.len();
        let ghost w0 = self.world@;
        let ghost order = self.world.key_order();
        let mut oriented = TileMap::new();
        let mut i: usize = 0;
        while i < count
            invariant
                count == order.len(),
                order.no_duplicates(),
                forall|k: (i32, i32)| #[trigger] w0.contains_key(k) <==> order.contains(k),
                self.world@ == w0,
                self.world.key_order() == order,
                keys_bounded(w0),
                i <= count,
                oriented.key_order() == order.take(i as int),
                forall|k: (i32, i32)| #[trigger]
                    oriented@.contains_key(k) == order.take(i as int).contains(k),
                forall|k: (i32, i32)| #[trigger]
                    oriented@.contains_key(k) ==> oriented@[k] == oriented_tile(w0, k),
            decreases count - i,
        {
            let k = self.world.key_at(i);
            assert(order.contains(k));
            assert(w0.contains_key(k));
            let t = self.oriented_tile_at(k.0, k.1);
            proof {
                if order.take(i as int).contains(k) {
                    let j = choose|j: int| 0 <= j < i && order.take(i as int)[j] == k;
                    assert(order[j] == order[i as int]);
                }
            }
            oriented.insert(k, t);
            proof {
                let prev = order.take(i as int);
                assert(order.take(i + 1) =~= prev.push(k));
                assert forall|q: (i32, i32)| #[trigger]
                    oriented@.contains_key(q) == prev.push(k).contains(q) by {
                    if prev.contains(q) {
                        let j = choose|j: int| 0 <= j < prev.len() && prev[j] == q;
                        assert(prev.push(k)[j] == q);
                    }
                    if prev.push(k).contains(q) && q != k {
                        let j = choose|j: int| 0 <= j < prev.len() + 1 && prev.push(k)[j] == q;
                        assert(prev[j] == q);
                    }
                    assert(prev.push(k)[prev.len() as int] == k);
                }
            }
            i = i + 1;
        }
        proof {
            assert(order.take(count as int) =~= order);
            assert(oriented@ =~= orient_walls(w0));
        }
        self.world = oriented;
    }

    /// Marks every empty cell of the map `[0, width) × [0, height)` as nothing.
    pub fn fill_with_nothing(&mut self)
        ensures
            final(self).world@ == fill_nothing(
                old(self).world@,
                old(self).width as int,
                old(self).height as int,
            ),
            final(self).room_centers@ == old(self).room_centers@,
            final(self).same_params(old(self)),
    {
        let ghost w0 = self.world@;
        let mut x: i32 = 0;
        while x < self.width
            invariant
                self.same_params(old(self)),
                self.room_centers@ == old(self).room_centers@,
                0 <= x,
                self.width < 0 || x <= self.width,
                self.width < 0 ==> x == 0,
                forall|k: (i32, i32)| #[trigger]
                    self.world@.contains_key(k) == (w0.contains_key(k) || (0 <= k.0 < x && 0
                        <= k.1 < self.height)),
                forall|k: (i32, i32)| #[trigger]
                    self.world@.contains_key(k) ==> self.world@[k] == (if w0.contains_key(k) {
                        w0[k]
                    } else {
                        TileType::Nothing
                    }),
            decreases self.width - x,
        {
            let mut y: i32 = 0;
            while y < self.height
                invariant
                    self.same_params(old(self)),
                    self.room_centers@ == old(self).room_centers@,
                    0 <= x < self.width,
                    0 <= y,
                    self.height < 0 || y <= self.height,
                    self.height < 0 ==> y == 0,
                    forall|k: (i32, i32)| #[trigger]
                        self.world@.contains_key(k) == (w0.contains_key(k) || (0 <= k.0 < x && 0
                            <= k.1 < self.height) || (k.0 == x && 0 <= k.1 < y)),
                    forall|k: (i32, i32)| #[trigger]
                        self.world@.contains_key(k) ==> self.world@[k] == (if w0.contains_key(k) {
                            w0[k]
                        } else {
                            TileType::Nothing
                        }),
                decreases self.height - y,
            {
                if let None = self.world.get((x, y)) {
                    self.world.insert((x, y), TileType::Nothing);
                }
                y = y + 1;
            }
            x = x + 1;
        }
        assert(self.world@ =~= fill_nothing(w0, self.width as int, self.height as int));
    }

    /// Puts the ladder down to the next floor at the center of a room drawn at
    /// random.
    pub fn place_ladder(&mut self)
        requires
            old(self).room_centers@.len() > 0,
        ensures
            exists|i: int|
                0 <= i < old(self).room_centers@.len() && final(self).world@ == old(
                    self,
                ).world@.insert(#[trigger] old(self).room_centers@[i], TileType::LadderDown),
            final(self).room_centers@ == old(self).room_centers@,
            final(self).same_params(old(self)),
    {
        let ladder_loc = random_usize_in(0, self.room_centers.len());
        let c = self.room_centers[ladder_loc];
        self.world.insert(c, TileType::LadderDown);
    }

    /// Chooses the next room to place: draws random rooms until one fits.
    /// After `DRAWS_PER_ROOM` misses it looks instead, corner by corner in
    /// order, for the first place where the smallest room fits, and returns
    /// nothing only when no room can be drawn that fits.
    fn pick_room(&self) -> (r: Option<Room>)
        requires
            self.params_ok(),
        ensures
            r matches Some(room) ==> self.room_in_params(room) && room_is_free(self.world@, room),
            r is None ==> self.no_room_fits(self.world@),
    {
        let mut draws: u32 = 0;
        while draws < DRAWS_PER_ROOM
            invariant
                self.params_ok(),
            decreases DRAWS_PER_ROOM - draws,
        {
            draws = draws + 1;
            let room = self.random_room();
            if self.room_fits(room) {
                return Some(room);
            }
        }
        let x_end: i32 = self.width - (self.room_min + self.room_range) - 1;
        let y_end: i32 = self.height - (self.room_min + self.room_range) - 1;
        let mut x: i32 = 1;
        while x < x_end
            invariant
                self.params_ok(),
                x_end == self.width - (self.room_min + self.room_range) - 1,
                y_end == self.height - (self.room_min + self.room_range) - 1,
                1 <= x <= x_end,
                forall|a: int, b: int|
                    1 <= a < x && 1 <= b < y_end ==> !room_is_free(
                        self.world@,
                        #[trigger] self.smallest_room_at(a, b),
                    ),
            decreases x_end - x,
        {
            let mut y: i32 = 1;
            while y < y_end
                invariant
                    self.params_ok(),
                    x_end == self.width - (self.room_min + self.room_range) - 1,
                    y_end == self.height - (self.room_min + self.room_range) - 1,
                    1 <= x < x_end,
                    1 <= y <= y_end,
                    forall|a: int, b: int|
                        1 <= a < x && 1 <= b < y_end ==> !room_is_free(
                            self.world@,
                            #[trigger] self.smallest_room_at(a, b),
                        ),
                    forall|b: int|
                        1 <= b < y ==> !room_is_free(
                            self.world@,
                            #[trigger] self.smallest_room_at(x as int, b),
                        ),
                decreases y_end - y,
            {
                let room = Room {
                    x_min: x,
                    y_min: y,
                    x_max: x + self.room_min,
                    y_max: y + self.room_min,
                };
                assert(room == self.smallest_room_at(x as int, y as int));
                if self.room_fits(room) {
                    return Some(room);
                }
                y = y + 1;
            }
            x = x + 1;
        }
        proof {
            assert forall|r: Room| #[trigger] self.room_in_params(r) implies !room_is_free(
                self.world@,
                r,
            ) by {
                let m = self.smallest_room_at(r.x_min as int, r.y_min as int);
                assert(!room_is_free(self.world@, m));
                let k = choose|k: (i32, i32)| in_room(k, m) && #[trigger] self.world@.contains_key(k);
                assert(in_room(k, r));
            }
        }
        None
    }

    /// Generates a dungeon: places `n_rooms` random rooms that do not overlap
    /// anything (drawing again when one does), joins them with corridors,
    /// orients the walls, fills the rest of the map `[0, width) × [0, height)`
    /// with nothing and puts a ladder down at the center of a random room.
    /// It places fewer rooms only when no room that can be drawn fits any
    /// more, where drawing again would go on forever.
    #[verifier::rlimit(60)]
    pub fn generate(self) -> (d: DungGen)
        requires
            self.params_ok(),
            1 <= self.n_rooms < u32::MAX,
            keys_bounded(self.world@),
        ensures
            d.same_params(&self),
            forall|i: int, j: int|
                0 <= i < d.room_centers@.len() && 0 <= j < d.room_centers@.len()
                    ==> #[trigger] connected(d.world@, d.room_centers@[i], d.room_centers@[j]),
            exists|rooms: Seq<Room>|
                {
                    &&& rooms.len() <= self.n_rooms
                    &&& rooms.len() < self.n_rooms ==> self.no_room_fits(
                        place_rooms(self.world@, rooms),
                    )
                    &&& self.world@ == Map::<(i32, i32), TileType>::empty() ==> rooms.len() >= 1
                    &&& forall|t: int| 0 <= t < rooms.len() ==> self.room_in_params(#[trigger] rooms[t])
                    &&& rooms_fit(self.world@, rooms)
                    &&& d.room_centers@ == room_centers_of(rooms)
                    &&& d.room_centers@.no_duplicates()
                    &&& all_joined(joined_labels(room_centers_of(rooms), separate_labels(rooms.len())))
                    &&& rooms.len() == 0 ==> d.world@ == self.generated_world(rooms)
                    &&& rooms.len() > 0 ==> exists|i: int|
                        0 <= i < rooms.len() && d.world@ == self.generated_world(rooms).insert(
                            #[trigger] room_centers_of(rooms)[i],
                            TileType::LadderDown,
                        ) && (has_no_ladder(self.world@) ==> forall|k: (i32, i32)|
                            d.world@.contains_key(k) && #[trigger] d.world@[k]
                                == TileType::LadderDown ==> k == room_centers_of(rooms)[i])
                },
    {
        let ghost start = self;
        let mut d = self;
        d.room_centers = Vec::new();
        let ghost w0 = d.world@;
        let ghost mut rooms: Seq<Room> = Seq::empty();
        let mut stuck = false;
        while !stuck && d.room_centers.len() < d.n_rooms
            invariant
                d.same_params(&start),
                d.params_ok(),
                d.n_rooms < u32::MAX,
                w0 == start.world@,
                d.world@ == place_rooms(w0, rooms),
                d.room_centers@ == room_centers_of(rooms),
                rooms.len() <= d.n_rooms,
                stuck ==> start.no_room_fits(d.world@),
                forall|t: int| 0 <= t < rooms.len() ==> d.room_in_params(#[trigger] rooms[t]),
                rooms_fit(w0, rooms),
                d.room_centers@.no_duplicates(),
                forall|i: int|
                    0 <= i < d.room_centers@.len() ==> d.world@.contains_key(
                        #[trigger] d.room_centers@[i],
                    ),
                forall|i: int|
                    0 <= i < d.room_centers@.len() ==> cell_in_bounds(#[trigger] d.room_centers@[i]),
                forall|i: int|
                    0 <= i < d.room_centers@.len() ==> d.world@[#[trigger] d.room_centers@[i]]
                        == TileType::Floor,
                forall|i: int, k: (i32, i32)|
                    0 <= i < d.room_centers@.len() && #[trigger] near(k, d.room_centers@[i])
                        ==> d.world@.contains_key(k),
                keys_bounded(d.world@),
            decreases d.n_rooms - d.room_centers.len(), if stuck {
                0int
            } else {
                1int
            },
        {
            // Steps 1 to 3: draw a room that intersects no earlier room, and
            // paint it into the world
            match d.pick_room() {
                Some(room) => {
                    let ghost before = d.world@;
                    let ghost centers_before = d.room_centers@;
                    let placed = d.try_place_room(room);
                    assert(placed);
                    proof {
                        let c = room_center(room);
                        assert(in_room(c, room));
                        assert(!before.contains_key(c));
                        let rooms2 = rooms.push(room);
                        assert(rooms2.drop_last() =~= rooms);
                        assert(rooms2.take(rooms.len() as int) =~= rooms);
                        assert forall|t: int| 0 <= t < rooms.len() implies #[trigger] rooms2.take(t)
                            =~= rooms.take(t) by {}
                        assert(room_centers_of(rooms2) =~= room_centers_of(rooms).push(c));
                        assert forall|i: int, j: int|
                            0 <= i < d.room_centers@.len() && 0 <= j < d.room_centers@.len() && i
                                != j implies d.room_centers@[i] != d.room_centers@[j] by {
                            if i < centers_before.len() && j < centers_before.len() {
                            } else if i < centers_before.len() {
                                assert(before.contains_key(centers_before[i]));
                            } else {
                                assert(before.contains_key(centers_before[j]));
                            }
                        }
                        assert forall|i: int|
                            0 <= i < d.room_centers@.len() implies d.world@.contains_key(
                            #[trigger] d.room_centers@[i],
                        ) by {
                            if i < centers_before.len() {
                                assert(before.contains_key(centers_before[i]));
                            }
                        }
                        assert forall|i: int|
                            0 <= i < d.room_centers@.len() implies d.world@[#[trigger] d.room_centers@[i]]
                                == TileType::Floor by {
                            if i < centers_before.len() {
                                let ci = centers_before[i];
                                assert forall|k: (i32, i32)| #[trigger] near(k, ci) implies before.contains_key(k) by {
                                    assert(near(k, centers_before[i]));
                                }
                                lemma_paint_spares_enclosed(before, room, ci);
                            }
                        }
                        assert forall|i: int, k: (i32, i32)|
                            0 <= i < d.room_centers@.len() && #[trigger] near(k, d.room_centers@[i])
                                implies d.world@.contains_key(k) by {
                            if i < centers_before.len() {
                                assert(near(k, centers_before[i]));
                            }
                        }
                        rooms = rooms2;
                    }
                },
                None => {
                    proof {
                        assert forall|r: Room| #[trigger] start.room_in_params(r) implies !room_is_free(
                            d.world@,
                            r,
                        ) by {
                            assert(d.room_in_params(r));
                        }
                    }
                    stuck = true;
                },
            }
        }
        proof {
            if w0 == Map::<(i32, i32), TileType>::empty() && rooms.len() == 0 {
                let r = start.smallest_room_at(1, 1);
                assert(start.room_in_params(r));
                assert(room_is_free(w0, r));
                assert(d.world@ == w0);
            }
        }
        // Steps 4 and 5: connect the rooms
        let ghost w1 = d.world@;
        let ghost cs = d.room_centers@;
        proof {
            let sep = separate_labels(cs.len());
            assert forall|i: int, j: int|
                0 <= i < sep.len() && 0 <= j < sep.len() && sep[i] == sep[j] implies #[trigger] connected(
                w1,
                cs[i],
                cs[j],
            ) by {
                assert(i == j);
                assert(w1.contains_key(cs[i]) && w1[cs[i]] == TileType::Floor);
                lemma_connected_refl(w1, cs[i]);
            }
            lemma_joined_connected(w1, cs, sep);
            lemma_joined_keys_bounded(
                d.world@,
                d.room_centers@,
                separate_labels(d.room_centers@.len()),
            );
        }
        d.connect_rooms();
        d.orient_world_walls();
        // Mark the rest of the world as consisting of nothing
        d.fill_with_nothing();
        proof {
            assert(d.world@ == start.generated_world(rooms));
            if has_no_ladder(w0) {
                lemma_rooms_put_no_ladder(w0, rooms);
                let w1 = place_rooms(w0, rooms);
                let cs = room_centers_of(rooms);
                lemma_corridors_put_no_ladder(w1, cs, separate_labels(rooms.len()));
                let w2 = joined_world(w1, cs, separate_labels(rooms.len()));
                assert forall|k: (i32, i32)| #[trigger] orient_walls(w2).contains_key(k) implies orient_walls(
                    w2,
                )[k] != TileType::LadderDown by {
                    assert(w2.contains_key(k));
                }
                assert(has_no_ladder(d.world@));
            }
        }
        let ghost w4 = d.world@;
        proof {
            let sep = separate_labels(cs.len());
            let w2 = joined_world(w1, cs, sep);
            let w3 = orient_walls(w2);
            assert(keeps_walkable(w2, w3)) by {
                assert forall|k: (i32, i32)| #[trigger] walkable_at(w2, k) implies walkable_at(w3, k) by {
                    assert(oriented_tile(w2, k) == w2[k]);
                }
            }
            assert(keeps_walkable(w3, w4));
            lemma_joined_labels_len(cs, sep);
            assert forall|i: int, j: int|
                0 <= i < cs.len() && 0 <= j < cs.len() implies #[trigger] connected(w4, cs[i], cs[j]) by {
                assert(joined_labels(cs, sep)[i] == joined_labels(cs, sep)[j]);
                assert(connected(w2, cs[i], cs[j]));
                lemma_connected_transfer(w2, w3, cs[i], cs[j]);
                lemma_connected_transfer(w3, w4, cs[i], cs[j]);
            }
        }
        if d.room_centers.len() > 0 {
            d.place_ladder();
        }
        proof {
            assert(keeps_walkable(w4, d.world@));
            assert forall|i: int, j: int|
                0 <= i < d.room_centers@.len() && 0 <= j < d.room_centers@.len() implies #[trigger] connected(
                d.world@,
                d.room_centers@[i],
                d.room_centers@[j],
            ) by {
                assert(connected(w4, cs[i], cs[j]));
                lemma_connected_transfer(w4, d.world@, cs[i], cs[j]);
            }
        }
        d
    }

    /// Places `room` if none of its floor cells is taken: lays its floor, walls
    /// it in and records its center. Returns whether it was placed.
    pub fn try_place_room(&mut self, room: Room) -> (placed: bool)
        requires
            room_ok(room),
        ensures
            placed == room_is_free(old(self).world@, room),
            placed ==> final(self).world@ == paint_room(old(self).world@, room),
            placed ==> final(self).room_centers@ == old(self).room_centers@.push(room_center(room)),
            !placed ==> final(self).world@ == old(self).world@,
            !placed ==> final(self).room_centers@ == old(self).room_centers@,
            final(self).same_params(old(self)),
    {
        if !self.room_fits(room) {
            return false;
        }
        let ghost w0 = self.world@;
        // Lay down floor
        let mut x = room.x_min;
        while x <= room.x_max
            invariant
                room_ok(room),
                self.same_params(old(self)),
                self.room_centers@ == old(self).room_centers@,
                room.x_min <= x <= room.x_max + 1,
                forall|k: (i32, i32)| #[trigger]
                    self.world@.contains_key(k) == (w0.contains_key(k) || in_rect(
                        k,
                        room.x_min as int,
                        room.y_min as int,
                        x - 1,
                        room.y_max as int,
                    )),
                forall|k: (i32, i32)| #[trigger]
                    self.world@.contains_key(k) ==> self.world@[k] == (if in_rect(
                        k,
                        room.x_min as int,
                        room.y_min as int,
                        x - 1,
                        room.y_max as int,
                    ) {
                        TileType::Floor
                    } else {
                        w0[k]
                    }),
            decreases room.x_max + 1 - x,
        {
            let mut y = room.y_min;
            while y <= room.y_max
                invariant
                    room_ok(room),
                    self.same_params(old(self)),
                    self.room_centers@ == old(self).room_centers@,
                    room.x_min <= x <= room.x_max,
                    room.y_min <= y <= room.y_max + 1,
                    forall|k: (i32, i32)| #[trigger]
                        self.world@.contains_key(k) == (w0.contains_key(k) || in_rect(
                            k,
                            room.x_min as int,
                            room.y_min as int,
                            x - 1,
                            room.y_max as int,
                        ) || in_rect(k, x as int, room.y_min as int, x as int, y - 1)),
                    forall|k: (i32, i32)| #[trigger]
                        self.world@.contains_key(k) ==> self.world@[k] == (if in_rect(
                            k,
                            room.x_min as int,
                            room.y_min as int,
                            x - 1,
                            room.y_max as int,
                        ) || in_rect(k, x as int, room.y_min as int, x as int, y - 1) {
                            TileType::Floor
                        } else {
                            w0[k]
                        }),
                decreases room.y_max + 1 - y,
            {
                self.world.insert((x, y), TileType::Floor);
                y = y + 1;
            }
            x = x + 1;
        }
        let ghost w1 = self.world@;
        // Set walls on the outside of the room
        let mut x = room.x_min - 1;
        while x <= room.x_max + 1
            invariant
                room_ok(room),
                self.same_params(old(self)),
                self.room_centers@ == old(self).room_centers@,
                room.x_min - 1 <= x <= room.x_max + 2,
                forall|k: (i32, i32)| #[trigger]
                    self.world@.contains_key(k) == (w1.contains_key(k) || (room.x_min - 1 <= k.0
                        < x && (k.1 == room.y_min - 1 || k.1 == room.y_max + 1))),
                forall|k: (i32, i32)| #[trigger]
                    self.world@.contains_key(k) ==> self.world@[k] == (if room.x_min - 1 <= k.0
                        < x && (k.1 == room.y_min - 1 || k.1 == room.y_max + 1) {
                        TileType::Wall(None)
                    } else {
                        w1[k]
                    }),
            decreases room.x_max + 2 - x,
        {
            self.world.insert((x, room.y_min - 1), TileType::Wall(None));
            self.world.insert((x, room.y_max + 1), TileType::Wall(None));
            x = x + 1;
        }
        let ghost w2 = self.world@;
        let mut y = room.y_min - 1;
        while y <= room.y_max + 1
            invariant
                room_ok(room),
                self.same_params(old(self)),
                self.room_centers@ == old(self).room_centers@,
                room.y_min - 1 <= y <= room.y_max + 2,
                forall|k: (i32, i32)| #[trigger]
                    self.world@.contains_key(k) == (w2.contains_key(k) || (room.y_min - 1 <= k.1
                        < y && (k.0 == room.x_min - 1 || k.0 == room.x_max + 1))),
                forall|k: (i32, i32)| #[trigger]
                    self.world@.contains_key(k) ==> self.world@[k] == (if room.y_min - 1 <= k.1
                        < y && (k.0 == room.x_min - 1 || k.0 == room.x_max + 1) {
                        TileType::Wall(None)
                    } else {
                        w2[k]
                    }),
            decreases room.y_max + 2 - y,
        {
            self.world.insert((room.x_min - 1, y), TileType::Wall(None));
            self.world.insert((room.x_max + 1, y), TileType::Wall(None));
            y = y + 1;
        }
        assert(self.world@ =~= paint_room(w0, room));
        // Add the center of the generated room to the list
        self.room_centers.push(
            (
                room.x_min + (room.x_max - room.x_min) / 2,
                room.y_min + (room.y_max - room.y_min) / 2,
            ),
        );
        true
    }
}

} // verus!
