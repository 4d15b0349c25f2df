//! Reachability over a tile grid: what it means for two tiles to be
//! connected by a walk over non-wall tiles, and the lemmas the dungeon
//! generator uses to establish that every generated level is connected.
use vstd::prelude::*;
use crate::map::{TileType, lemma_xy_idx_bounds};

verus! {

/// A point lies on the `w` by `h` grid.
pub open spec fn pt_in_bounds(w: int, h: int, p: (int, int)) -> bool {
    0 <= p.0 < w && 0 <= p.1 < h
}

/// The tile under `p` can be walked on: anything but a wall.
pub open spec fn tile_walkable(tiles: Seq<TileType>, w: int, p: (int, int)) -> bool {
    tiles[p.1 * w + p.0] != TileType::Wall
}

/// Orthogonal neighbors, one step apart.
pub open spec fn adjacent4(p: (int, int), q: (int, int)) -> bool {
    ||| p.0 == q.0 && (p.1 == q.1 + 1 || p.1 == q.1 - 1)
    ||| p.1 == q.1 && (p.0 == q.0 + 1 || p.0 == q.0 - 1)
}

/// A walk: a non-empty chain of in-bounds, walkable, orthogonally
/// adjacent tiles.
pub open spec fn is_walk(tiles: Seq<TileType>, w: int, h: int, path: Seq<(int, int)>) -> bool {
    &&& path.len() > 0
    &&& forall|i: int| #![trigger path[i]]
        0 <= i < path.len() ==> pt_in_bounds(w, h, path[i]) && tile_walkable(tiles, w, path[i])
    &&& forall|i: int| #![trigger adjacent4(path[i], path[i + 1])]
        0 <= i < path.len() - 1 ==> adjacent4(path[i], path[i + 1])
}

/// Some walk leads from `a` to `b`.
pub open spec fn reachable(tiles: Seq<TileType>, w: int, h: int, a: (int, int), b: (int, int)) -> bool {
    exists|path: Seq<(int, int)>|
        is_walk(tiles, w, h, path) && path.first() == a && path.last() == b
}

pub proof fn lemma_reachable_refl(tiles: Seq<TileType>, w: int, h: int, p: (int, int))
    requires
        pt_in_bounds(w, h, p),
        tile_walkable(tiles, w, p),
    ensures
        reachable(tiles, w, h, p, p),
{
    let path = seq![p];
    assert(is_walk(tiles, w, h, path));
    assert(path.first() == p && path.last() == p);
}

pub proof fn lemma_reachable_trans(
    tiles: Seq<TileType>,
    w: int,
    h: int,
    a: (int, int),
    b: (int, int),
    c: (int, int),
)
    requires
        reachable(tiles, w, h, a, b),
        reachable(tiles, w, h, b, c),
    ensures
        reachable(tiles, w, h, a, c),
{
    let p1 = choose|p: Seq<(int, int)>| is_walk(tiles, w, h, p) && p.first() == a && p.last() == b;
    let p2 = choose|p: Seq<(int, int)>| is_walk(tiles, w, h, p) && p.first() == b && p.last() == c;
    if p2.len() == 1 {
        assert(b == c);
        assert(is_walk(tiles, w, h, p1) && p1.first() == a && p1.last() == c);
    } else {
        let tail = p2.subrange(1, p2.len() as int);
        let path = p1 + tail;
        let n1 = p1.len() as int;
        assert forall|i: int| #![trigger path[i]] 0 <= i < path.len() implies pt_in_bounds(
            w,
            h,
            path[i],
        ) && tile_walkable(tiles, w, path[i]) by {
            if i < n1 {
                assert(path[i] == p1[i]);
            } else {
                assert(path[i] == p2[i - n1 + 1]);
            }
        }
        assert forall|i: int| #![trigger adjacent4(path[i], path[i + 1])]
            0 <= i < path.len() - 1 implies adjacent4(path[i], path[i + 1]) by {
            if i + 1 < n1 {
                assert(path[i] == p1[i] && path[i + 1] == p1[i + 1]);
                assert(adjacent4(p1[i], p1[i + 1]));
            } else if i + 1 == n1 {
                assert(path[i] == p1[i] && p1[i] == p1.last());
                assert(path[i + 1] == p2[1]);
                assert(adjacent4(p2[0int], p2[0int + 1]));
            } else {
                assert(path[i] == p2[i - n1 + 1] && path[i + 1] == p2[i - n1 + 2]);
                assert(adjacent4(p2[i - n1 + 1], p2[i - n1 + 1 + 1]));
            }
        }
        assert(is_walk(tiles, w, h, path));
        assert(path.first() == a);
        assert(path.last() == p2[p2.len() - 1]);
        assert(path.last() == c);
    }
}

pub proof fn lemma_reachable_sym(
    tiles: Seq<TileType>,
    w: int,
    h: int,
    a: (int, int),
    b: (int, int),
)
    requires
        reachable(tiles, w, h, a, b),
    ensures
        reachable(tiles, w, h, b, a),
{
    let p = choose|p: Seq<(int, int)>| is_walk(tiles, w, h, p) && p.first() == a && p.last() == b;
    let n = p.len() as int;
    let q = Seq::new(p.len(), |i: int| p[n - 1 - i]);
    assert forall|i: int| #![trigger adjacent4(q[i], q[i + 1])]
        0 <= i < q.len() - 1 implies adjacent4(q[i], q[i + 1]) by {
        assert(q[i] == p[n - 1 - i] && q[i + 1] == p[n - 2 - i]);
        assert(adjacent4(p[n - 2 - i], p[n - 2 - i + 1]));
    }
    assert(is_walk(tiles, w, h, q));
    assert(q.first() == b && q.last() == a);
}

/// A row of walkable tiles yields a walk along it.
pub proof fn lemma_horizontal_reachable(
    tiles: Seq<TileType>,
    w: int,
    h: int,
    x1: int,
    x2: int,
    y: int,
)
    requires
        x1 <= x2,
        forall|x: int| x1 <= x <= x2 ==> pt_in_bounds(w, h, (x, y)),
        forall|x: int| x1 <= x <= x2 ==> #[trigger] tile_walkable(tiles, w, (x, y)),
    ensures
        reachable(tiles, w, h, (x1, y), (x2, y)),
{
    let path = Seq::new((x2 - x1 + 1) as nat, |i: int| (x1 + i, y));
    assert forall|i: int| #![trigger path[i]] 0 <= i < path.len() implies pt_in_bounds(
        w,
        h,
        path[i],
    ) && tile_walkable(tiles, w, path[i]) by {
        assert(path[i] == (x1 + i, y));
        assert(tile_walkable(tiles, w, (x1 + i, y)));
    }
    assert(is_walk(tiles, w, h, path));
    assert(path.first() == (x1, y) && path.last() == (x2, y));
}

/// A column of walkable tiles yields a walk along it.
pub proof fn lemma_vertical_reachable(
    tiles: Seq<TileType>,
    w: int,
    h: int,
    x: int,
    y1: int,
    y2: int,
)
    requires
        y1 <= y2,
        forall|y: int| y1 <= y <= y2 ==> pt_in_bounds(w, h, (x, y)),
        forall|y: int| y1 <= y <= y2 ==> #[trigger] tile_walkable(tiles, w, (x, y)),
    ensures
        reachable(tiles, w, h, (x, y1), (x, y2)),
{
    let path = Seq::new((y2 - y1 + 1) as nat, |i: int| (x, y1 + i));
    assert forall|i: int| #![trigger path[i]] 0 <= i < path.len() implies pt_in_bounds(
        w,
        h,
        path[i],
    ) && tile_walkable(tiles, w, path[i]) by {
        assert(path[i] == (x, y1 + i));
        assert(tile_walkable(tiles, w, (x, y1 + i)));
    }
    assert(is_walk(tiles, w, h, path));
    assert(path.first() == (x, y1) && path.last() == (x, y2));
}

/// Reachability survives any edit that never turns a walkable tile
/// into a wall.
pub proof fn lemma_reachable_monotone(
    t1: Seq<TileType>,
    t2: Seq<TileType>,
    w: int,
    h: int,
    a: (int, int),
    b: (int, int),
)
    requires
        t1.len() == w * h,
        t2.len() == w * h,
        0 < w,
        0 < h,
        forall|i: int| 0 <= i < t1.len() && t1[i] != TileType::Wall
            ==> #[trigger] t2[i] != TileType::Wall,
        reachable(t1, w, h, a, b),
    ensures
        reachable(t2, w, h, a, b),
{
    let p = choose|p: Seq<(int, int)>| is_walk(t1, w, h, p) && p.first() == a && p.last() == b;
    assert forall|i: int| #![trigger p[i]] 0 <= i < p.len() implies pt_in_bounds(w, h, p[i])
        && tile_walkable(t2, w, p[i]) by {
        assert(pt_in_bounds(w, h, p[i]) && tile_walkable(t1, w, p[i]));
        lemma_xy_idx_bounds(w, h, p[i].0, p[i].1);
        assert(t1[p[i].1 * w + p[i].0] != TileType::Wall);
    }
    assert(is_walk(t2, w, h, p));
}

} // verus!
