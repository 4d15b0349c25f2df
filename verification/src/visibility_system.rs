//! The visibility service: recomputes the viewshed of every entity whose
//! viewshed is marked dirty, and mirrors the player's view onto the map.
use vstd::prelude::*;
use crate::components::{Point, Viewshed};
use crate::fov::{field_of_view, line_of_sight, within_range};
use crate::map::GameMap;
use crate::world::{Entity, Slot, World};

verus! {

/// The slot's viewshed is due for recomputation: a live entity standing
/// on the map whose viewshed is marked dirty with a usable range.
pub open spec fn needs_recompute(s: Slot, m: GameMap) -> bool {
    &&& s.alive
    &&& s.position matches Some(p) && m.in_bounds(p.x as int, p.y as int)
    &&& s.viewshed matches Some(v) && v.dirty
}

/// The sight range actually used: negative ranges see nothing beyond
/// their own tile, oversized ones are capped at the map-scale maximum.
pub open spec fn clamp_range(r: int) -> int {
    if r < 0 {
        0
    } else if r > 0x1000 {
        0x1000
    } else {
        r
    }
}

/// The player's viewshed drives the map's visibility this pass.
pub open spec fn player_recompute(w: Seq<Slot>, player: Entity, m: GameMap) -> bool {
    &&& player.idx < w.len()
    &&& w[player.idx as int].gen == player.gen
    &&& needs_recompute(w[player.idx as int], m)
}

/// The tile list is exactly the field of view from `(px, py)` at the
/// given range: every listed tile is in bounds, in range and sighted,
/// and every such tile is listed.
pub open spec fn viewshed_is_fov(tiles: Seq<Point>, m: GameMap, px: int, py: int, range: int) -> bool {
    &&& forall|k: int| #![trigger tiles[k]] 0 <= k < tiles.len() ==> m.in_bounds(
        tiles[k].x as int,
        tiles[k].y as int,
    ) && within_range(px, py, tiles[k].x as int, tiles[k].y as int, range) && line_of_sight(
        m.tiles@,
        m.width as int,
        m.height as int,
        px,
        py,
        tiles[k].x as int,
        tiles[k].y as int,
    )
    &&& forall|x2: int, y2: int|
        m.in_bounds(x2, y2) && within_range(px, py, x2, y2, range) && line_of_sight(
            m.tiles@,
            m.width as int,
            m.height as int,
            px,
            py,
            x2,
            y2,
        ) ==> exists|k: int| 0 <= k < tiles.len() && (#[trigger] tiles[k]) == (Point {
            x: x2 as i32,
            y: y2 as i32,
        })
}

/// Tile `idx` is named by one of the first `bound` points of `tiles`.
pub open spec fn seen_by(tiles: Seq<Point>, m: GameMap, idx: int, bound: int) -> bool {
    exists|k: int| 0 <= k < bound && m.idx_of(tiles[k].x as int, tiles[k].y as int) == idx
}

/// The map's visibility after mirroring the player's viewshed `tiles`:
/// `visible_tiles` holds exactly the seen tiles, and `revealed_tiles`
/// accumulates them monotonically.
pub open spec fn vis_set_from(m: GameMap, m0: GameMap, tiles: Seq<Point>) -> bool {
    &&& m == (GameMap { revealed_tiles: m.revealed_tiles, visible_tiles: m.visible_tiles, ..m0 })
    &&& m.visible_tiles@.len() == m0.visible_tiles@.len()
    &&& m.revealed_tiles@.len() == m0.revealed_tiles@.len()
    &&& forall|idx: int| #![trigger m.visible_tiles@[idx]] 0 <= idx < m.visible_tiles@.len()
        ==> m.visible_tiles@[idx] == seen_by(tiles, m0, idx, tiles.len() as int)
    &&& forall|idx: int| #![trigger m.revealed_tiles@[idx]] 0 <= idx < m.revealed_tiles@.len()
        ==> m.revealed_tiles@[idx] == (m0.revealed_tiles@[idx] || seen_by(
        tiles,
        m0,
        idx,
        tiles.len() as int,
    ))
}

proof fn lemma_seen_by_weaken(tiles: Seq<Point>, m: GameMap, idx: int, bound: int, bound2: int)
    requires
        seen_by(tiles, m, idx, bound),
        bound <= bound2,
    ensures
        seen_by(tiles, m, idx, bound2),
{
    let k = choose|k: int| 0 <= k < bound && m.idx_of(tiles[k].x as int, tiles[k].y as int) == idx;
    assert(0 <= k < bound2 && m.idx_of(tiles[k].x as int, tiles[k].y as int) == idx);
}

/// Recomputes the viewshed of every entity whose `dirty` flag is set,
/// clearing the flag; every recomputed viewshed holds only in-bounds
/// tiles within the viewer's Euclidean range. For the player only, the
/// map's `visible_tiles` is rebuilt from the new viewshed and
/// `revealed_tiles` accumulates it; the map is untouched otherwise.
#[verifier::rlimit(60)]
pub fn visibility(world: &mut World, map: &mut GameMap, player: Entity)
    requires
        old(map).wf(),
    ensures
        final(map).wf(),
        final(world)@.len() == old(world)@.len(),
        forall|i: int| #![trigger final(world)@[i]] 0 <= i < old(world)@.len() ==> {
            let s = old(world)@[i];
            let s2 = final(world)@[i];
            if needs_recompute(s, *old(map)) {
                &&& s2 == (Slot { viewshed: s2.viewshed, ..s })
                &&& s2.viewshed matches Some(v2) && !v2.dirty && v2.range
                    == s.viewshed->Some_0.range && viewshed_is_fov(
                    v2.visible_tiles@,
                    *old(map),
                    s.position->Some_0.x as int,
                    s.position->Some_0.y as int,
                    clamp_range(v2.range as int),
                )
            } else {
                s2 == s
            }
        },
        player_recompute(old(world)@, player, *old(map)) ==> vis_set_from(
            *final(map),
            *old(map),
            final(world)@[player.idx as int].viewshed->Some_0.visible_tiles@,
        ),
        !player_recompute(old(world)@, player, *old(map)) ==> *final(map) == *old(map),
{
    let ghost w0 = old(world)@;
    let ghost m0 = *old(map);
    let n = world.slots.len();
    let mut i: usize = 0;
    while i < n
        invariant
            map.wf(),
            n == world@.len(),
            n == w0.len(),
            w0 == old(world)@,
            m0 == *old(map),
            i <= n,
            forall|k: int| #![trigger world@[k]] 0 <= k < n ==> {
                let s = w0[k];
                let s2 = world@[k];
                if k < i && needs_recompute(s, m0) {
                    &&& s2 == (Slot { viewshed: s2.viewshed, ..s })
                    &&& s2.viewshed matches Some(v2) && !v2.dirty && v2.range
                        == s.viewshed->Some_0.range && viewshed_is_fov(
                        v2.visible_tiles@,
                        m0,
                        s.position->Some_0.x as int,
                        s.position->Some_0.y as int,
                        clamp_range(v2.range as int),
                    )
                } else {
                    s2 == s
                }
            },
            (player.idx < i && player_recompute(w0, player, m0)) ==> vis_set_from(
                *map,
                m0,
                world@[player.idx as int].viewshed->Some_0.visible_tiles@,
            ),
            !(player.idx < i && player_recompute(w0, player, m0)) ==> *map == m0,
        decreases n - i,
    {
        let s = &world.slots[i];
        let due: bool = s.alive && s.position.is_some() && match s.position {
            Some(p) => p.x >= 0 && p.x < map.width && p.y >= 0 && p.y < map.height,
            None => false,
        } && match &s.viewshed {
            Some(v) => v.dirty,
            None => false,
        };
        proof {
            assert(due == needs_recompute(w0[i as int], m0));
        }
        if due {
            let pos = s.position.unwrap();
            let range = match &s.viewshed {
                Some(v) => v.range,
                None => 0,
            };
            let eff_range: i32 = if range < 0 {
                0
            } else if range > 0x1000 {
                0x1000
            } else {
                range
            };
            proof {
                assert(map.tiles@ == m0.tiles@ && map.width == m0.width && map.height
                    == m0.height);
            }
            let tiles = field_of_view(map, Point { x: pos.x, y: pos.y }, eff_range);
            let is_player = i == player.idx && world.slots[i].gen == player.gen;
            world.slots[i].viewshed = Some(
                Viewshed { visible_tiles: tiles, range, dirty: false },
            );
            proof {
                assert(eff_range as int == clamp_range(range as int));
                let vt = world@[i as int].viewshed->Some_0.visible_tiles@;
                let px = pos.x as int;
                let py = pos.y as int;
                let cr = clamp_range(range as int);
                assert(vt == tiles@);
                assert forall|k: int| #![trigger vt[k]] 0 <= k < vt.len() implies m0.in_bounds(
                    vt[k].x as int,
                    vt[k].y as int,
                ) && within_range(px, py, vt[k].x as int, vt[k].y as int, cr) && line_of_sight(
                    m0.tiles@,
                    m0.width as int,
                    m0.height as int,
                    px,
                    py,
                    vt[k].x as int,
                    vt[k].y as int,
                ) by {
                    assert(map.in_bounds(tiles@[k].x as int, tiles@[k].y as int));
                }
                assert forall|x2: int, y2: int|
                    m0.in_bounds(x2, y2) && within_range(px, py, x2, y2, cr) && line_of_sight(
                        m0.tiles@,
                        m0.width as int,
                        m0.height as int,
                        px,
                        py,
                        x2,
                        y2,
                    ) implies exists|k: int| 0 <= k < vt.len() && (#[trigger] vt[k]) == (Point {
                    x: x2 as i32,
                    y: y2 as i32,
                }) by {
                    assert(map.in_bounds(x2, y2));
                    assert(line_of_sight(
                        map.tiles@,
                        map.width as int,
                        map.height as int,
                        px,
                        py,
                        x2,
                        y2,
                    ));
                    let k = choose|k: int|
                        0 <= k < tiles@.len() && (#[trigger] tiles@[k]) == (Point {
                            x: x2 as i32,
                            y: y2 as i32,
                        });
                    assert(vt[k] == (Point { x: x2 as i32, y: y2 as i32 }));
                }
                assert(viewshed_is_fov(vt, m0, px, py, cr));
            }
            if is_player {
                let ghost vs_tiles = world@[i as int].viewshed->Some_0.visible_tiles@;
                let vt_len = map.visible_tiles.len();
                let mut idx: usize = 0;
                while idx < vt_len
                    invariant
                        map.wf(),
                        vt_len == map.visible_tiles@.len(),
                        idx <= vt_len,
                        *map == (GameMap { visible_tiles: map.visible_tiles, ..m0 }),
                        forall|t: int| 0 <= t < idx ==> !map.visible_tiles@[t],
                        forall|t: int| idx <= t < vt_len ==> map.visible_tiles@[t]
                            == m0.visible_tiles@[t],
                    decreases vt_len - idx,
                {
                    map.visible_tiles.set(idx, false);
                    idx += 1;
                }
                let tile_count = match &world.slots[i].viewshed {
                    Some(v) => v.visible_tiles.len(),
                    None => 0,
                };
                let mut k: usize = 0;
                while k < tile_count
                    invariant
                        map.wf(),
                        n == world@.len(),
                        i < n,
                        world@[i as int].viewshed is Some,
                        vs_tiles == world@[i as int].viewshed->Some_0.visible_tiles@,
                        tile_count == vs_tiles.len(),
                        k <= tile_count,
                        forall|t: int| #![trigger vs_tiles[t]] 0 <= t < vs_tiles.len()
                            ==> m0.in_bounds(vs_tiles[t].x as int, vs_tiles[t].y as int),
                        *map == (GameMap {
                            visible_tiles: map.visible_tiles,
                            revealed_tiles: map.revealed_tiles,
                            ..m0
                        }),
                        map.visible_tiles@.len() == m0.visible_tiles@.len(),
                        map.revealed_tiles@.len() == m0.revealed_tiles@.len(),
                        forall|t: int| #![trigger map.visible_tiles@[t]] 0 <= t
                            < map.visible_tiles@.len() ==> map.visible_tiles@[t] == seen_by(
                            vs_tiles,
                            m0,
                            t,
                            k as int,
                        ),
                        forall|t: int| #![trigger map.revealed_tiles@[t]] 0 <= t
                            < map.revealed_tiles@.len() ==> map.revealed_tiles@[t] == (
                        m0.revealed_tiles@[t] || seen_by(vs_tiles, m0, t, k as int)),
                    decreases tile_count - k,
                {
                    let pt = match &world.slots[i].viewshed {
                        Some(v) => v.visible_tiles[k],
                        None => Point { x: 0, y: 0 },
                    };
                    let tile_idx = map.xy_idx(pt.x, pt.y);
                    let ghost pre = *map;
                    map.visible_tiles.set(tile_idx, true);
                    map.revealed_tiles.set(tile_idx, true);
                    proof {
                        let kk = k as int;
                        assert(m0.idx_of(vs_tiles[kk].x as int, vs_tiles[kk].y as int)
                            == tile_idx as int);
                        assert forall|t: int| 0 <= t < map.visible_tiles@.len()
                            implies map.visible_tiles@[t] == seen_by(vs_tiles, m0, t, kk + 1) by {
                            if t == tile_idx as int {
                                assert(seen_by(vs_tiles, m0, t, kk + 1));
                            } else {
                                assert(map.visible_tiles@[t] == pre.visible_tiles@[t]);
                                if seen_by(vs_tiles, m0, t, kk + 1) {
                                    let x = choose|x: int|
                                        0 <= x < kk + 1 && m0.idx_of(
                                            vs_tiles[x].x as int,
                                            vs_tiles[x].y as int,
                                        ) == t;
                                    assert(x < kk);
                                    assert(seen_by(vs_tiles, m0, t, kk));
                                }
                                if seen_by(vs_tiles, m0, t, kk) {
                                    lemma_seen_by_weaken(vs_tiles, m0, t, kk, kk + 1);
                                }
                            }
                        }
                        assert forall|t: int| 0 <= t < map.revealed_tiles@.len()
                            implies map.revealed_tiles@[t] == (m0.revealed_tiles@[t] || seen_by(
                            vs_tiles,
                            m0,
                            t,
                            kk + 1,
                        )) by {
                            if t == tile_idx as int {
                                assert(seen_by(vs_tiles, m0, t, kk + 1));
                            } else {
                                assert(map.revealed_tiles@[t] == pre.revealed_tiles@[t]);
                                if seen_by(vs_tiles, m0, t, kk + 1) {
                                    let x = choose|x: int|
                                        0 <= x < kk + 1 && m0.idx_of(
                                            vs_tiles[x].x as int,
                                            vs_tiles[x].y as int,
                                        ) == t;
                                    assert(x < kk);
                                    assert(seen_by(vs_tiles, m0, t, kk));
                                }
                                if seen_by(vs_tiles, m0, t, kk) {
                                    lemma_seen_by_weaken(vs_tiles, m0, t, kk, kk + 1);
                                }
                            }
                        }
                    }
                    k += 1;
                }
            }
        }
        i += 1;
    }
}

} // verus!
