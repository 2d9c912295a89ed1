use vstd::prelude::*;

use crate::components::TileType;
use crate::dung_gen::{
    carve, carve_column, carve_row, cell_in_bounds, is_next_pair, joined_labels, joined_world,
    lemma_merge_shrinks, manhattan, merge_labels,
};

verus! {

/// A tile that can be walked on: floor, corridor, or the ladder down.
pub open spec fn walkable(t: TileType) -> bool {
    t == TileType::Floor || t == TileType::Path || t == TileType::LadderDown
}

/// Cell `k` of `w` exists and can be walked on.
pub open spec fn walkable_at(w: Map<(i32, i32), TileType>, k: (i32, i32)) -> bool {
    w.contains_key(k) && walkable(w[k])
}

/// Steps `i` and `i + 1` of `p` are side by side.
pub open spec fn step_ok(p: Seq<(i32, i32)>, i: int) -> bool {
    manhattan(p[i], p[i + 1]) == 1
}

/// `p` is a walk through `w`: a non-empty sequence of walkable cells, each
/// beside the one before.
pub open spec fn is_walk(w: Map<(i32, i32), TileType>, p: Seq<(i32, i32)>) -> bool {
    &&& p.len() > 0
    &&& forall|i: int| 0 <= i < p.len() ==> walkable_at(w, #[trigger] p[i])
    &&& forall|i: int| 0 <= i < p.len() - 1 ==> #[trigger] step_ok(p, i)
}

/// One can walk through `w` from `a` to `b`.
pub open spec fn connected(w: Map<(i32, i32), TileType>, a: (i32, i32), b: (i32, i32)) -> bool {
    exists|p: Seq<(i32, i32)>| #[trigger] is_walk(w, p) && p[0] == a && p.last() == b
}

/// Every cell that can be walked on in `w` can still be walked on in `w2`.
pub open spec fn keeps_walkable(w: Map<(i32, i32), TileType>, w2: Map<(i32, i32), TileType>) -> bool {
    forall|k: (i32, i32)| #[trigger] walkable_at(w, k) ==> walkable_at(w2, k)
}

/// Rooms that carry the same label in `comp` are connected in `w`.
pub open spec fn labels_connected(
    w: Map<(i32, i32), TileType>,
    centers: Seq<(i32, i32)>,
    comp: Seq<u32>,
) -> bool {
    forall|i: int, j: int|
        0 <= i < comp.len() && 0 <= j < comp.len() && comp[i] == comp[j] ==> #[trigger] connected(
            w,
            centers[i],
            centers[j],
        )
}

/// A walkable cell is connected to itself.
pub proof fn lemma_connected_refl(w: Map<(i32, i32), TileType>, a: (i32, i32))
    requires
        walkable_at(w, a),
    ensures
        connected(w, a, a),
{
    let p = seq![a];
    assert(is_walk(w, p));
}

/// Walks survive any change that keeps walkable cells walkable.
pub proof fn lemma_connected_transfer(
    w: Map<(i32, i32), TileType>,
    w2: Map<(i32, i32), TileType>,
    a: (i32, i32),
    b: (i32, i32),
)
    requires
        connected(w, a, b),
        keeps_walkable(w, w2),
    ensures
        connected(w2, a, b),
{
    let p = choose|p: Seq<(i32, i32)>| #[trigger] is_walk(w, p) && p[0] == a && p.last() == b;
    assert forall|i: int| 0 <= i < p.len() implies walkable_at(w2, #[trigger] p[i]) by {
        assert(walkable_at(w, p[i]));
    }
    assert(is_walk(w2, p));
}

/// A walk can be taken backwards.
pub proof fn lemma_connected_symm(w: Map<(i32, i32), TileType>, a: (i32, i32), b: (i32, i32))
    requires
        connected(w, a, b),
    ensures
        connected(w, b, a),
{
    let p = choose|p: Seq<(i32, i32)>| #[trigger] is_walk(w, p) && p[0] == a && p.last() == b;
    let n = p.len() as int;
    let q = Seq::new(p.len(), |i: int| p[n - 1 - i]);
    assert forall|i: int| 0 <= i < q.len() implies walkable_at(w, #[trigger] q[i]) by {
        assert(walkable_at(w, p[n - 1 - i]));
    }
    assert forall|i: int| 0 <= i < q.len() - 1 implies #[trigger] step_ok(q, i) by {
        assert(step_ok(p, n - 2 - i));
    }
    assert(is_walk(w, q));
}

/// Two walks that meet can be joined into one.
pub proof fn lemma_connected_trans(
    w: Map<(i32, i32), TileType>,
    a: (i32, i32),
    b: (i32, i32),
    c: (i32, i32),
)
    requires
        connected(w, a, b),
        connected(w, b, c),
    ensures
        connected(w, a, c),
{
    let p = choose|p: Seq<(i32, i32)>| #[trigger] is_walk(w, p) && p[0] == a && p.last() == b;
    let r = choose|r: Seq<(i32, i32)>| #[trigger] is_walk(w, r) && r[0] == b && r.last() == c;
    let n = p.len() as int;
    let m = r.len() as int;
    let q = Seq::new((n + m - 1) as nat, |i: int| if i < n { p[i] } else { r[i - n + 1] });
    assert forall|i: int| 0 <= i < q.len() implies walkable_at(w, #[trigger] q[i]) by {
        if i < n {
            assert(walkable_at(w, p[i]));
        } else {
            assert(walkable_at(w, r[i - n + 1]));
        }
    }
    assert forall|i: int| 0 <= i < q.len() - 1 implies #[trigger] step_ok(q, i) by {
        if i < n - 1 {
            assert(step_ok(p, i));
        } else if i == n - 1 {
            assert(step_ok(r, 0));
        } else {
            assert(step_ok(r, i - n + 1));
        }
    }
    assert(q[0] == a);
    if m == 1 {
        assert(q.last() == p[n - 1]);
    } else {
        assert(q.last() == r[m - 1]);
    }
    assert(is_walk(w, q));
}

/// Digging a corridor keeps every walkable cell walkable: corridor cells
/// become paths, walls go only where nothing was.
pub proof fn lemma_carve_keeps_walkable(w: Map<(i32, i32), TileType>, a: (i32, i32), b: (i32, i32))
    ensures
        keeps_walkable(w, carve(w, a, b)),
{
    let (s, e) = if a.0 > b.0 {
        (b, a)
    } else {
        (a, b)
    };
    let (ylo, yhi) = if s.1 > e.1 {
        (e.1, s.1)
    } else {
        (s.1, e.1)
    };
    let w1 = carve_row(w, s.0 as int, e.0 as int, s.1 as int);
    let w2 = carve_column(w1, e.0 as int, ylo as int, yhi as int);
    assert(w2 == carve(w, a, b));
    assert forall|k: (i32, i32)| #[trigger] walkable_at(w, k) implies walkable_at(w2, k) by {
        assert(walkable_at(w1, k));
    }
}

/// The corridor dug between two cells is a walk from one to the other.
pub proof fn lemma_carve_connects(w: Map<(i32, i32), TileType>, a: (i32, i32), b: (i32, i32))
    requires
        cell_in_bounds(a),
        cell_in_bounds(b),
    ensures
        connected(carve(w, a, b), a, b),
{
    let (s, e) = if a.0 > b.0 {
        (b, a)
    } else {
        (a, b)
    };
    let (ylo, yhi) = if s.1 > e.1 {
        (e.1, s.1)
    } else {
        (s.1, e.1)
    };
    let w1 = carve_row(w, s.0 as int, e.0 as int, s.1 as int);
    let w2 = carve_column(w1, e.0 as int, ylo as int, yhi as int);
    assert(w2 == carve(w, a, b));
    let n1: int = e.0 - s.0 + 1;
    let up: bool = e.1 >= s.1;
    let n2: int = if up {
        e.1 - s.1
    } else {
        s.1 - e.1
    };
    let p = Seq::new(
        (n1 + n2) as nat,
        |i: int|
            if i < n1 {
                ((s.0 + i) as i32, s.1)
            } else if up {
                (e.0, (s.1 + (i - n1 + 1)) as i32)
            } else {
                (e.0, (s.1 - (i - n1 + 1)) as i32)
            },
    );
    assert forall|i: int| 0 <= i < p.len() implies walkable_at(w2, #[trigger] p[i]) by {
        if i < n1 {
            assert(w1.contains_key(p[i]) && w1[p[i]] == TileType::Path);
        }
    }
    assert forall|i: int| 0 <= i < p.len() - 1 implies #[trigger] step_ok(p, i) by {
        if i < n1 - 1 {
        } else if i == n1 - 1 {
        } else {
        }
    }
    assert(p[0] == s);
    if n2 == 0 {
        assert(p.last() == p[n1 - 1]);
    } else {
        assert(p.last() == p[n1 + n2 - 1]);
    }
    assert(p.last() == e);
    assert(is_walk(w2, p));
    if a.0 > b.0 {
        lemma_connected_symm(w2, b, a);
    }
}

/// Joining rooms pairwise keeps rooms of one label connected: each corridor
/// links the two rooms it joins, and corridors dug later keep earlier walks.
pub proof fn lemma_joined_connected(
    w: Map<(i32, i32), TileType>,
    centers: Seq<(i32, i32)>,
    comp: Seq<u32>,
)
    requires
        comp.len() == centers.len(),
        forall|i: int| 0 <= i < centers.len() ==> cell_in_bounds(#[trigger] centers[i]),
        labels_connected(w, centers, comp),
    ensures
        labels_connected(joined_world(w, centers, comp), centers, joined_labels(centers, comp)),
    decreases comp.to_set().len(),
{
    if exists|p: (int, int)| is_next_pair(centers, comp, p) {
        let p = choose|p: (int, int)| is_next_pair(centers, comp, p);
        lemma_merge_shrinks(comp, p.0, p.1);
        let a = centers[p.0];
        let b = centers[p.1];
        let w2 = carve(w, a, b);
        let m = merge_labels(comp, p.0, p.1);
        lemma_carve_keeps_walkable(w, a, b);
        lemma_carve_connects(w, a, b);
        assert forall|i: int, j: int|
            0 <= i < m.len() && 0 <= j < m.len() && m[i] == m[j] implies #[trigger] connected(
            w2,
            centers[i],
            centers[j],
        ) by {
            if comp[i] == comp[j] {
                assert(connected(w, centers[i], centers[j]));
                lemma_connected_transfer(w, w2, centers[i], centers[j]);
            } else {
                let x = if comp[i] == comp[p.0] {
                    p.0
                } else {
                    p.1
                };
                let y = if comp[j] == comp[p.0] {
                    p.0
                } else {
                    p.1
                };
                assert(comp[i] == comp[x]);
                assert(comp[j] == comp[y]);
                assert(x != y);
                assert(connected(w, centers[i], centers[x]));
                assert(connected(w, centers[y], centers[j]));
                lemma_connected_transfer(w, w2, centers[i], centers[x]);
                lemma_connected_transfer(w, w2, centers[y], centers[j]);
                if x == p.0 {
                    lemma_connected_trans(w2, centers[i], a, b);
                } else {
                    lemma_connected_symm(w2, a, b);
                    lemma_connected_trans(w2, centers[i], b, a);
                }
                lemma_connected_trans(w2, centers[i], centers[y], centers[j]);
            }
        }
        lemma_joined_connected(w2, centers, m);
    }
}

} // verus!
