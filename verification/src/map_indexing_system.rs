//! The spatial indexer: rebuilds the map's `blocked` bitmap and per-tile
//! occupant lists from current entity positions, once per turn.
use vstd::prelude::*;
use crate::map::{GameMap, TileType};
use crate::world::{Entity, Slot, World, slot_handle};

verus! {

/// The entity in slot `j` stands on tile `idx` of a `width` by `height`
/// grid.
pub open spec fn occupant_at(w: Seq<Slot>, j: int, width: int, height: int, idx: int) -> bool {
    &&& 0 <= j < w.len()
    &&& w[j].alive
    &&& w[j].position matches Some(p) && 0 <= p.x < width && 0 <= p.y < height && p.y * width
        + p.x == idx
}

/// The entity in slot `j` stands on tile `idx` and blocks movement.
pub open spec fn blocker_at(w: Seq<Slot>, j: int, width: int, height: int, idx: int) -> bool {
    occupant_at(w, j, width, height, idx) && w[j].blocks_tile is Some
}

/// The handle `e` appears in tile `idx`'s occupant list.
pub open spec fn content_has(m: GameMap, idx: int, e: Entity) -> bool {
    exists|c: int| 0 <= c < m.tile_content@[idx]@.len() && m.tile_content@[idx]@[c] == e
}

/// `e` is the handle of an entity among the first `bound` slots standing
/// on tile `idx`.
pub open spec fn is_occupant_handle(
    w: Seq<Slot>,
    width: int,
    height: int,
    idx: int,
    e: Entity,
    bound: int,
) -> bool {
    exists|j: int| j < bound && occupant_at(w, j, width, height, idx) && e == slot_handle(w, j)
}

proof fn lemma_occupant_handle_weaken(
    w: Seq<Slot>,
    width: int,
    height: int,
    idx: int,
    e: Entity,
    bound: int,
    bound2: int,
)
    requires
        is_occupant_handle(w, width, height, idx, e, bound),
        bound <= bound2,
    ensures
        is_occupant_handle(w, width, height, idx, e, bound2),
{
    let j = choose|j: int| j < bound && occupant_at(w, j, width, height, idx) && e == slot_handle(
        w,
        j,
    );
    assert(j < bound2 && occupant_at(w, j, width, height, idx) && e == slot_handle(w, j));
}

/// Rebuilds `blocked` and `tile_content` for the whole map: a tile
/// blocks movement exactly when it is a wall or carries a blocking
/// entity, and each tile's occupant list holds exactly the handles of
/// the live entities standing on it.
#[verifier::rlimit(60)]
pub fn map_indexing(world: &World, map: &mut GameMap)
    requires
        old(map).wf(),
    ensures
        *final(map) == (GameMap {
            blocked: final(map).blocked,
            tile_content: final(map).tile_content,
            ..*old(map)
        }),
        final(map).wf(),
        forall|idx: int| #![trigger final(map).blocked@[idx]] 0 <= idx < final(map).blocked@.len()
            ==> final(map).blocked@[idx] == (old(map).tiles@[idx] == TileType::Wall || exists|j: int|
            blocker_at(world@, j, old(map).width as int, old(map).height as int, idx)),
        forall|idx: int, c: int| #![trigger final(map).tile_content@[idx]@[c]]
            0 <= idx < final(map).tile_content@.len()
                && 0 <= c < final(map).tile_content@[idx]@.len() ==> is_occupant_handle(
                world@,
                old(map).width as int,
                old(map).height as int,
                idx,
                final(map).tile_content@[idx]@[c],
                world@.len() as int,
            ),
        forall|j: int, idx: int| #![trigger occupant_at(world@, j, old(map).width as int, old(map).height as int, idx)]
            occupant_at(world@, j, old(map).width as int, old(map).height as int, idx) && 0 <= idx
                < final(map).tile_content@.len() ==> content_has(
                *final(map),
                idx,
                slot_handle(world@, j),
            ),
        // Each occupant is listed once: lists ascend by source slot.
        forall|idx: int, c1: int, c2: int|
            #![trigger final(map).tile_content@[idx]@[c1], final(map).tile_content@[idx]@[c2]]
            (0 <= idx < final(map).tile_content@.len() && 0 <= c1 && c1 < c2 && c2 < final(map).tile_content@[idx]@.len()) ==> final(map).tile_content@[idx]@[c1].idx < final(map).tile_content@[idx]@[c2].idx,
{
    map.set_blocked();
    map.clear_tile_content();
    let ghost w = world@;
    let ghost width = old(map).width as int;
    let ghost height = old(map).height as int;
    let n = world.slots.len();
    let mut j: usize = 0;
    while j < n
        invariant
            map.wf(),
            n == w.len(),
            w == world@,
            j <= n,
            *map == (GameMap {
                blocked: map.blocked,
                tile_content: map.tile_content,
                ..*old(map)
            }),
            width == old(map).width as int,
            height == old(map).height as int,
            forall|idx: int| #![trigger map.blocked@[idx]] 0 <= idx < map.blocked@.len()
                ==> map.blocked@[idx] == (old(map).tiles@[idx] == TileType::Wall || exists|j2: int|
                j2 < j && blocker_at(w, j2, width, height, idx)),
            forall|idx: int, c: int| #![trigger map.tile_content@[idx]@[c]]
                0 <= idx < map.tile_content@.len() && 0 <= c < map.tile_content@[idx]@.len()
                    ==> is_occupant_handle(
                    w,
                    width,
                    height,
                    idx,
                    map.tile_content@[idx]@[c],
                    j as int,
                ),
            forall|j2: int, idx: int| #![trigger occupant_at(w, j2, width, height, idx)]
                occupant_at(w, j2, width, height, idx) && j2 < j && 0 <= idx
                    < map.tile_content@.len() ==> content_has(*map, idx, slot_handle(w, j2)),
            forall|idx: int, c1: int, c2: int|
                #![trigger map.tile_content@[idx]@[c1], map.tile_content@[idx]@[c2]]
                0 <= idx < map.tile_content@.len() && 0 <= c1 < c2 < map.tile_content@[idx]@.len()
                    ==> map.tile_content@[idx]@[c1].idx < map.tile_content@[idx]@[c2].idx,
            forall|idx: int, c: int| #![trigger map.tile_content@[idx]@[c]]
                0 <= idx < map.tile_content@.len() && 0 <= c < map.tile_content@[idx]@.len()
                    ==> (map.tile_content@[idx]@[c].idx as int) < j,
        decreases n - j,
    {
        let ghost pre = *map;
        let ghost jj = j as int;
        let s = &world.slots[j];
        if s.alive && s.position.is_some() {
            let p = s.position.unwrap();
            if p.x >= 0 && p.x < map.width && p.y >= 0 && p.y < map.height {
                let idx = map.xy_idx(p.x, p.y);
                let is_blocker = s.blocks_tile.is_some();
                if is_blocker {
                    self_set_blocked_at(map, idx);
                }
                let gen = s.gen;
                let ghost pre2 = *map;
                map.tile_content[idx].push(Entity { idx: j, gen });
                proof {
                    assert(occupant_at(w, jj, width, height, idx as int));
                    assert(map.tile_content@ == pre2.tile_content@.update(
                        idx as int,
                        map.tile_content@[idx as int],
                    ));
                    assert(map.tile_content@[idx as int]@ == pre2.tile_content@[idx as int]@.push(
                        slot_handle(w, jj),
                    ));
                    // An entity occupies exactly one tile.
                    assert forall|idx2: int| occupant_at(w, jj, width, height, idx2)
                        implies idx2 == idx as int by {}
                    // The blocked bitmap still matches walls plus blockers.
                    assert forall|idx2: int| 0 <= idx2 < map.blocked@.len() implies map.blocked@[idx2]
                        == (old(map).tiles@[idx2] == TileType::Wall || exists|j2: int|
                        j2 < jj + 1 && blocker_at(w, j2, width, height, idx2)) by {
                        if is_blocker && idx2 == idx as int {
                            assert(blocker_at(w, jj, width, height, idx2));
                            assert(map.blocked@[idx2]);
                        } else {
                            assert(map.blocked@[idx2] == pre.blocked@[idx2]);
                            assert(!blocker_at(w, jj, width, height, idx2));
                        }
                    }
                    // Every listed occupant really stands on its tile.
                    assert forall|idx2: int, c: int| #![trigger map.tile_content@[idx2]@[c]]
                        0 <= idx2 < map.tile_content@.len() && 0 <= c
                            < map.tile_content@[idx2]@.len() implies is_occupant_handle(
                        w,
                        width,
                        height,
                        idx2,
                        map.tile_content@[idx2]@[c],
                        jj + 1,
                    ) by {
                        if idx2 == idx as int && c == map.tile_content@[idx2]@.len() - 1 {
                            assert(jj < jj + 1 && occupant_at(w, jj, width, height, idx2)
                                && map.tile_content@[idx2]@[c] == slot_handle(w, jj));
                        } else {
                            assert(map.tile_content@[idx2]@[c] == pre.tile_content@[idx2]@[c]);
                            assert(0 <= c < pre.tile_content@[idx2]@.len());
                            assert(is_occupant_handle(
                                w,
                                width,
                                height,
                                idx2,
                                pre.tile_content@[idx2]@[c],
                                jj,
                            ));
                            lemma_occupant_handle_weaken(
                                w,
                                width,
                                height,
                                idx2,
                                map.tile_content@[idx2]@[c],
                                jj,
                                jj + 1,
                            );
                        }
                    }
                    // Lists stay ascending: the new handle's slot is the
                    // cursor, above every slot already listed.
                    assert forall|idx2: int, c: int| #![trigger map.tile_content@[idx2]@[c]]
                        0 <= idx2 < map.tile_content@.len() && 0 <= c
                            < map.tile_content@[idx2]@.len() implies (map.tile_content@[
                        idx2
                    ]@[c].idx as int) < j + 1 by {
                        if !(idx2 == idx as int && c == map.tile_content@[idx2]@.len() - 1) {
                            assert(map.tile_content@[idx2]@[c] == pre.tile_content@[idx2]@[c]);
                        }
                    }
                    assert forall|idx2: int, c1: int, c2: int|
                        #![trigger map.tile_content@[idx2]@[c1], map.tile_content@[idx2]@[c2]]
                        0 <= idx2 < map.tile_content@.len() && 0 <= c1 < c2
                            < map.tile_content@[idx2]@.len() implies map.tile_content@[
                        idx2
                    ]@[c1].idx < map.tile_content@[idx2]@[c2].idx by {
                        if idx2 == idx as int && c2 == map.tile_content@[idx2]@.len() - 1 {
                            assert(map.tile_content@[idx2]@[c1] == pre.tile_content@[idx2]@[c1]);
                            assert((pre.tile_content@[idx2]@[c1].idx as int) < j);
                        } else {
                            assert(map.tile_content@[idx2]@[c1] == pre.tile_content@[idx2]@[c1]);
                            assert(map.tile_content@[idx2]@[c2] == pre.tile_content@[idx2]@[c2]);
                        }
                    }
                    // Every occupant so far is still listed.
                    assert forall|j2: int, idx2: int|
                        occupant_at(w, j2, width, height, idx2) && j2 < jj + 1 && 0 <= idx2
                            < map.tile_content@.len() implies content_has(
                        *map,
                        idx2,
                        slot_handle(w, j2),
                    ) by {
                        if j2 == jj {
                            let len2 = map.tile_content@[idx as int]@.len();
                            assert(idx2 == idx as int);
                            assert(map.tile_content@[idx as int]@[len2 - 1] == slot_handle(w, jj));
                        } else {
                            assert(content_has(pre, idx2, slot_handle(w, j2)));
                            let c = choose|c: int|
                                0 <= c < pre.tile_content@[idx2]@.len()
                                    && pre.tile_content@[idx2]@[c] == slot_handle(w, j2);
                            assert(map.tile_content@[idx2]@[c] == slot_handle(w, j2));
                        }
                    }
                }
            } else {
                proof {
                    assert forall|idx2: int| !occupant_at(w, jj, width, height, idx2) by {}
                    assert forall|idx2: int, c: int| #![trigger map.tile_content@[idx2]@[c]]
                        0 <= idx2 < map.tile_content@.len() && 0 <= c
                            < map.tile_content@[idx2]@.len() implies is_occupant_handle(
                        w,
                        width,
                        height,
                        idx2,
                        map.tile_content@[idx2]@[c],
                        jj + 1,
                    ) by {
                        lemma_occupant_handle_weaken(
                            w,
                            width,
                            height,
                            idx2,
                            map.tile_content@[idx2]@[c],
                            jj,
                            jj + 1,
                        );
                    }
                }
            }
        } else {
            proof {
                assert forall|idx2: int| !occupant_at(w, jj, width, height, idx2) by {}
                assert forall|idx2: int, c: int| #![trigger map.tile_content@[idx2]@[c]]
                    0 <= idx2 < map.tile_content@.len() && 0 <= c < map.tile_content@[idx2]@.len()
                        implies is_occupant_handle(
                    w,
                    width,
                    height,
                    idx2,
                    map.tile_content@[idx2]@[c],
                    jj + 1,
                ) by {
                    lemma_occupant_handle_weaken(
                        w,
                        width,
                        height,
                        idx2,
                        map.tile_content@[idx2]@[c],
                        jj,
                        jj + 1,
                    );
                }
            }
        }
        j += 1;
    }
}

/// Marks one tile blocked, leaving everything else alone.
fn self_set_blocked_at(map: &mut GameMap, idx: usize)
    requires
        old(map).wf(),
        idx < old(map).blocked@.len(),
    ensures
        *final(map) == (GameMap { blocked: final(map).blocked, ..*old(map) }),
        final(map).blocked@ == old(map).blocked@.update(idx as int, true),
        final(map).wf(),
{
    map.blocked.set(idx, true);
}

} // verus!
