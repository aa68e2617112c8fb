use crate::tile::TileMap;
use vstd::prelude::*;

verus! {

/// `a` and `b` are 4-neighbours.
pub open spec fn adjacent(a: (int, int), b: (int, int)) -> bool {
    (a.0 == b.0 && (a.1 == b.1 + 1 || b.1 == a.1 + 1)) || (a.1 == b.1 && (a.0 == b.0 + 1 || b.0
        == a.0 + 1))
}

/// `p` is on the map and its tile does not block movement.
pub open spec fn walkable(m: TileMap, p: (int, int)) -> bool {
    m.in_bounds(p.0, p.1) && !m.at(p.0, p.1).blocked
}

/// `p` is a non-empty walk over floor tiles, each step to a 4-neighbour.
pub open spec fn is_floor_path(m: TileMap, p: Seq<(int, int)>) -> bool {
    &&& p.len() > 0
    &&& forall|i: int| 0 <= i < p.len() ==> walkable(m, #[trigger] p[i])
    &&& forall|i: int| 0 <= i < p.len() - 1 ==> adjacent(#[trigger] p[i], p[i + 1])
}

/// `b` can be reached from `a` over floor tiles of `m`.
pub open spec fn reachable(m: TileMap, a: (int, int), b: (int, int)) -> bool {
    exists|p: Seq<(int, int)>| is_floor_path(m, p) && p[0] == a && p.last() == b
}

/// Every floor tile of `before` is still floor in `after`, a map of the same size.
pub open spec fn floors_kept(before: TileMap, after: TileMap) -> bool {
    &&& after.same_shape(&before)
    &&& forall|x: int, y: int|
        #![trigger after.at(x, y)]
        before.in_bounds(x, y) && !before.at(x, y).blocked ==> !after.at(x, y).blocked
}

/// A walk from `a` to `b` followed by one from `b` to `c` is a walk from `a` to `c`.
pub proof fn lemma_reachable_trans(m: TileMap, a: (int, int), b: (int, int), c: (int, int))
    requires
        reachable(m, a, b),
        reachable(m, b, c),
    ensures
        reachable(m, a, c),
{
    let p = choose|p: Seq<(int, int)>| is_floor_path(m, p) && p[0] == a && p.last() == b;
    let q = choose|q: Seq<(int, int)>| is_floor_path(m, q) && q[0] == b && q.last() == c;
    let r = p + q.drop_first();
    assert forall|i: int| 0 <= i < r.len() implies walkable(m, #[trigger] r[i]) by {
        if i < p.len() {
            assert(r[i] == p[i]);
        } else {
            assert(r[i] == q[i - p.len() + 1]);
        }
    }
    assert forall|i: int| 0 <= i < r.len() - 1 implies adjacent(#[trigger] r[i], r[i + 1]) by {
        if i < p.len() - 1 {
            assert(r[i] == p[i] && r[i + 1] == p[i + 1]);
        } else if i == p.len() - 1 {
            assert(r[i] == q[0] && r[i + 1] == q[1]);
        } else {
            assert(r[i] == q[i - p.len() + 1] && r[i + 1] == q[i - p.len() + 2]);
        }
    }
    if q.len() == 1 {
        assert(r.last() == p.last());
    } else {
        assert(r.last() == q.last());
    }
    assert(is_floor_path(m, r) && r[0] == a && r.last() == c);
}

/// A walk stays a walk when no floor tile is walled up.
pub proof fn lemma_reachable_kept(before: TileMap, after: TileMap, a: (int, int), b: (int, int))
    requires
        reachable(before, a, b),
        floors_kept(before, after),
    ensures
        reachable(after, a, b),
{
    let p = choose|p: Seq<(int, int)>| is_floor_path(before, p) && p[0] == a && p.last() == b;
    assert forall|i: int| 0 <= i < p.len() implies walkable(after, #[trigger] p[i]) by {
        assert(walkable(before, p[i]));
        assert(!after.at(p[i].0, p[i].1).blocked);
    }
    assert(is_floor_path(after, p));
}

/// A straight row of floor tiles joins its two ends.
pub proof fn lemma_row_reachable(m: TileMap, xa: int, xb: int, y: int)
    requires
        forall|x: int|
            (xa <= x <= xb || xb <= x <= xa) ==> #[trigger] walkable(m, (x, y)),
    ensures
        reachable(m, (xa, y), (xb, y)),
{
    let p = if xa <= xb {
        Seq::new((xb - xa + 1) as nat, |i: int| (xa + i, y))
    } else {
        Seq::new((xa - xb + 1) as nat, |i: int| (xa - i, y))
    };
    assert forall|i: int| 0 <= i < p.len() implies walkable(m, #[trigger] p[i]) by {
        let x = p[i].0;
        assert(p[i] == (x, y));
    }
    assert forall|i: int| 0 <= i < p.len() - 1 implies adjacent(#[trigger] p[i], p[i + 1]) by {
    }
    assert(is_floor_path(m, p) && p[0] == (xa, y) && p.last() == (xb, y));
}

/// A straight column of floor tiles joins its two ends.
pub proof fn lemma_column_reachable(m: TileMap, x: int, ya: int, yb: int)
    requires
        forall|y: int|
            (ya <= y <= yb || yb <= y <= ya) ==> #[trigger] walkable(m, (x, y)),
    ensures
        reachable(m, (x, ya), (x, yb)),
{
    let p = if ya <= yb {
        Seq::new((yb - ya + 1) as nat, |i: int| (x, ya + i))
    } else {
        Seq::new((ya - yb + 1) as nat, |i: int| (x, ya - i))
    };
    assert forall|i: int| 0 <= i < p.len() implies walkable(m, #[trigger] p[i]) by {
        let y = p[i].1;
        assert(p[i] == (x, y));
    }
    assert forall|i: int| 0 <= i < p.len() - 1 implies adjacent(#[trigger] p[i], p[i + 1]) by {
    }
    assert(is_floor_path(m, p) && p[0] == (x, ya) && p.last() == (x, yb));
}

} // verus!
