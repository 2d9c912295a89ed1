use std::collections::HashMap;
use vstd::prelude::*;

use crate::components::TileType;

verus! {

broadcast use vstd::std_specs::hash::group_hash_axioms;

/// The hash key under which the tile at `k` is stored.
pub open spec fn tile_code(k: (i32, i32)) -> int {
    (k.0 as int + 0x8000_0000) * 0x1_0000_0000 + (k.1 as int + 0x8000_0000)
}

proof fn lemma_tile_code_range(k: (i32, i32))
    ensures
        0 <= tile_code(k) <= u64::MAX,
{
}

proof fn lemma_tile_code_injective(a: (i32, i32), b: (i32, i32))
    ensures
        tile_code(a) == tile_code(b) ==> a == b,
{
}

fn code_of(k: (i32, i32)) -> (r: u64)
    ensures
        r as int == tile_code(k),
{
    let hi: u64 = (k.0 as i64 + 0x8000_0000i64) as u64;
    let lo: u64 = (k.1 as i64 + 0x8000_0000i64) as u64;
    hi * 0x1_0000_0000u64 + lo
}

/// A read gives back what the last write to that coordinate wrote, and a write
/// leaves every other coordinate as it was.
pub proof fn lemma_read_after_write(
    before: Map<(i32, i32), TileType>,
    k: (i32, i32),
    v: TileType,
    q: (i32, i32),
)
    ensures
        before.insert(k, v).contains_key(k),
        before.insert(k, v)[k] == v,
        q != k ==> before.insert(k, v).contains_key(q) == before.contains_key(q),
        q != k && before.contains_key(q) ==> before.insert(k, v)[q] == before[q],
{
}

/// A finite map from grid coordinates to tiles.
///
/// Lookups and updates go through a hash table; the coordinates are also kept
/// in the order in which they were first inserted, so that the map can be
/// walked without depending on the table's iteration order.
pub struct TileMap {
    cells: HashMap<u64, TileType>,
    order: Vec<(i32, i32)>,
}

impl TileMap {
    #[verifier::type_invariant]
    spec fn inv(self) -> bool {
        &&& self.order@.no_duplicates()
        &&& forall|i: int|
            0 <= i < self.order@.len() ==> #[trigger] self.cells@.contains_key(
                tile_code(self.order@[i]) as u64,
            )
        &&& forall|c: u64|
            #[trigger] self.cells@.contains_key(c) ==> exists|i: int|
                0 <= i < self.order@.len() && tile_code(#[trigger] self.order@[i]) == c
    }

    /// The tiles, keyed by coordinate.
    pub closed spec fn view(&self) -> Map<(i32, i32), TileType> {
        Map::new(
            |k: (i32, i32)| self.order@.contains(k),
            |k: (i32, i32)| self.cells@[tile_code(k) as u64],
        )
    }

    /// The coordinates of the map in the order in which they were first inserted.
    pub closed spec fn key_order(&self) -> Seq<(i32, i32)> {
        self.order@
    }

    proof fn lemma_key_order(&self)
        requires
            self.inv(),
        ensures
            self.key_order().no_duplicates(),
            forall|k: (i32, i32)| #[trigger] self@.contains_key(k) <==> self.key_order().contains(k),
            self@.dom().finite(),
            self@.dom().len() == self.key_order().len(),
    {
        assert(self@.dom() =~= self.order@.to_set());
        self.order@.unique_seq_to_set();
    }

    proof fn lemma_contains(&self, k: (i32, i32))
        requires
            self.inv(),
        ensures
            self.cells@.contains_key(tile_code(k) as u64) <==> self@.contains_key(k),
    {
        if self.cells@.contains_key(tile_code(k) as u64) {
            let i = choose|i: int|
                0 <= i < self.order@.len() && tile_code(#[trigger] self.order@[i]) == tile_code(
                    k,
                ) as u64;
            lemma_tile_code_injective(self.order@[i], k);
            assert(self.order@[i] == k);
        }
        if self@.contains_key(k) {
            let i = choose|i: int| 0 <= i < self.order@.len() && self.order@[i] == k;
            assert(self.cells@.contains_key(tile_code(self.order@[i]) as u64));
        }
    }

    /// An empty map.
    pub fn new() -> (m: Self)
        ensures
            m@ == Map::<(i32, i32), TileType>::empty(),
            m.key_order() == Seq::<(i32, i32)>::empty(),
    {
        let m = TileMap { cells: HashMap::new(), order: Vec::new() };
        assert(m@ =~= Map::<(i32, i32), TileType>::empty());
        m
    }

    /// The number of tiles in the map; the insertion order lists every
    /// coordinate of the map exactly once.
    pub fn len(&self) -> (n: usize)
        ensures
            n == self@.dom().len(),
            n == self.key_order().len(),
            self.key_order().no_duplicates(),
            forall|k: (i32, i32)| #[trigger] self@.contains_key(k) <==> self.key_order().contains(k),
            self@.dom().finite(),
    {
        proof {
            use_type_invariant(self);
            self.lemma_key_order();
        }
        self.order.len()
    }

    /// Whether a tile is stored at `k`.
    pub fn contains_key(&self, k: (i32, i32)) -> (b: bool)
        ensures
            b == self@.contains_key(k),
    {
        proof {
            use_type_invariant(self);
            self.lemma_contains(k);
        }
        let c = code_of(k);
        self.cells.contains_key(&c)
    }

    /// The tile stored at `k`, if any.
    pub fn get(&self, k: (i32, i32)) -> (r: Option<TileType>)
        ensures
            r == (if self@.contains_key(k) {
                Some(self@[k])
            } else {
                None
            }),
    {
        proof {
            use_type_invariant(self);
            self.lemma_contains(k);
        }
        let c = code_of(k);
        match self.cells.get(&c) {
            Some(t) => Some(*t),
            None => None,
        }
    }

    /// Stores `v` at `k`, replacing what was there.
    pub fn insert(&mut self, k: (i32, i32), v: TileType)
        ensures
            final(self)@ == old(self)@.insert(k, v),
            final(self).key_order() == (if old(self)@.contains_key(k) {
                old(self).key_order()
            } else {
                old(self).key_order().push(k)
            }),
    {
        proof {
            use_type_invariant(&*self);
            self.lemma_contains(k);
        }
        let c = code_of(k);
        proof {
            lemma_tile_code_range(k);
            assert(c == tile_code(k) as u64);
        }
        let mut whole = TileMap::new();
        std::mem::swap(&mut whole, self);
        let TileMap { mut cells, mut order } = whole;
        let ghost old_cells = cells@;
        let ghost old_order = order@;
        let had = cells.contains_key(&c);
        cells.insert(c, v);
        if !had {
            order.push(k);
        }
        proof {
            assert forall|i: int| 0 <= i < order@.len() implies #[trigger] cells@.contains_key(
                tile_code(order@[i]) as u64,
            ) by {
                if i < old_order.len() {
                    assert(old_cells.contains_key(tile_code(old_order[i]) as u64));
                }
            }
            assert forall|d: u64| #[trigger] cells@.contains_key(d) implies exists|i: int|
                0 <= i < order@.len() && tile_code(#[trigger] order@[i]) == d by {
                if d != c {
                    assert(old_cells.contains_key(d));
                    let i = choose|i: int|
                        0 <= i < old_order.len() && tile_code(#[trigger] old_order[i]) == d;
                    assert(order@[i] == old_order[i]);
                } else if had {
                    let i = choose|i: int|
                        0 <= i < old_order.len() && tile_code(#[trigger] old_order[i]) == d;
                    assert(order@[i] == old_order[i]);
                } else {
                    assert(order@[old_order.len() as int] == k);
                }
            }
            if !had {
                assert(!old_order.contains(k));
            }
        }
        *self = TileMap { cells, order };
        proof {
            assert(self.order@ == order@);
            assert(old(self).order@ == old_order);
            assert forall|q: (i32, i32)| #[trigger] self@.contains_key(q) == old(self)@.insert(
                k,
                v,
            ).contains_key(q) by {
                if had {
                    assert(old_order.contains(k));
                    assert(order@ == old_order);
                }
                if !had {
                    assert(order@ == old_order.push(k));
                    if q != k && order@.contains(q) {
                        let i = choose|i: int| 0 <= i < order@.len() && order@[i] == q;
                        assert(old_order[i] == q);
                    }
                    if old_order.contains(q) {
                        let i = choose|i: int| 0 <= i < old_order.len() && old_order[i] == q;
                        assert(order@[i] == q);
                    }
                    assert(order@[old_order.len() as int] == k);
                }
            }
            assert forall|q: (i32, i32)| self@.contains_key(q) implies #[trigger] self@[q] == old(
                self,
            )@.insert(k, v)[q] by {
                if q != k {
                    lemma_tile_code_injective(q, k);
                }
            }
            assert(self@ =~= old(self)@.insert(k, v));
        }
    }

    /// The coordinate at position `i` of the insertion order.
    pub fn key_at(&self, i: usize) -> (k: (i32, i32))
        requires
            i < self.key_order().len(),
        ensures
            k == self.key_order()[i as int],
            self@.contains_key(k),
    {
        proof {
            assert(self.key_order().contains(self.key_order()[i as int]));
        }
        self.order[i]
    }
}

} // verus!
