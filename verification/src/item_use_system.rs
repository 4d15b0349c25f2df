//! Item-use resolution: targeting, healing, damage, confusion, equipment,
//! and consumable disposal, driven by `WantsToUseItem` intents.
use vstd::prelude::*;
use crate::components::{
    AreaOfEffect, CombatStats, Confusion, DealsDamage, Equippable, Equipped, InBackpack, Point,
    ProvidesHealing, TakeDamage, WantsToUseItem,
};
use crate::damage_system::{clamp_i32, log_extended};
use crate::fov::{field_of_view, line_of_sight, within_range};
use crate::gamelog::{GameLog, LogEntry};
use crate::map::GameMap;
use crate::map_indexing_system::content_has;
use crate::visibility_system::clamp_range;
use crate::world::{Entity, Slot, World, bump_gen, empty_slot, pending_damage, slot_handle};

verus! {

/// The handle list `targets` names the live entity in slot `i`.
pub open spec fn targeted(w: Seq<Slot>, targets: Seq<Entity>, i: int) -> bool {
    &&& 0 <= i < w.len()
    &&& w[i].alive
    &&& exists|k: int| 0 <= k < targets.len() && (#[trigger] targets[k]).idx == i
        && targets[k].gen == w[i].gen
}

/// No item entity holds more than one of a world position, a backpack
/// relation and an equipped relation.
pub open spec fn item_exclusive(w: Seq<Slot>) -> bool {
    forall|i: int| #![trigger w[i]] 0 <= i < w.len() && w[i].alive && w[i].item is Some ==> {
        &&& !(w[i].in_backpack is Some && w[i].equipped is Some)
        &&& !(w[i].in_backpack is Some && w[i].position is Some)
        &&& !(w[i].equipped is Some && w[i].position is Some)
    }
}

/// No two live items sit equipped in the same slot of the same owner.
pub open spec fn unique_equipped(w: Seq<Slot>) -> bool {
    forall|i: int, j: int| #![trigger w[i].equipped, w[j].equipped]
        0 <= i < w.len() && 0 <= j < w.len() && i != j && w[i].alive && w[j].alive && (w[i].equipped
            matches Some(a) && (w[j].equipped matches Some(b) && a.owner == b.owner && a.slot
            == b.slot)) ==> false
}

/// The handle addresses a live entity.
pub open spec fn entity_at(w: Seq<Slot>, e: Entity) -> bool {
    &&& e.idx < w.len()
    &&& w[e.idx as int].alive
    &&& w[e.idx as int].gen == e.gen
}

/// The healing power of a live item, `None` for a stale handle.
pub open spec fn prop_heal(w: Seq<Slot>, item: Entity) -> Option<ProvidesHealing> {
    if entity_at(w, item) {
        w[item.idx as int].provides_healing
    } else {
        None
    }
}

/// The damage dealt by a live item, `None` for a stale handle.
pub open spec fn prop_damage(w: Seq<Slot>, item: Entity) -> Option<DealsDamage> {
    if entity_at(w, item) {
        w[item.idx as int].deals_damage
    } else {
        None
    }
}

/// The confusion a live item inflicts, `None` for a stale handle.
pub open spec fn prop_confusion(w: Seq<Slot>, item: Entity) -> Option<Confusion> {
    if entity_at(w, item) {
        w[item.idx as int].confusion
    } else {
        None
    }
}

/// The blast radius of a live item, `None` for a stale handle.
pub open spec fn prop_aoe(w: Seq<Slot>, item: Entity) -> Option<AreaOfEffect> {
    if entity_at(w, item) {
        w[item.idx as int].area_of_effect
    } else {
        None
    }
}

/// The slot a live item can be equipped into, `None` for a stale handle.
pub open spec fn prop_equippable(w: Seq<Slot>, item: Entity) -> Option<Equippable> {
    if entity_at(w, item) {
        w[item.idx as int].equippable
    } else {
        None
    }
}

/// A tile hit by a blast aimed at `t`: strictly inside the border,
/// within the blast radius, and in sight of the target point.
pub open spec fn blast_tile(m: GameMap, t: Point, radius: int, x: int, y: int) -> bool {
    &&& 0 < x < m.width - 1
    &&& 0 < y < m.height - 1
    &&& within_range(t.x as int, t.y as int, x, y, radius)
    &&& line_of_sight(m.tiles@, m.width as int, m.height as int, t.x as int, t.y as int, x, y)
}

/// The handle appears somewhere in the list.
pub open spec fn in_list(r: Seq<Entity>, e: Entity) -> bool {
    exists|q: int| 0 <= q < r.len() && r[q] == e
}

proof fn lemma_in_list_grow(r1: Seq<Entity>, r2: Seq<Entity>, e: Entity)
    requires
        in_list(r1, e),
        r2.len() >= r1.len(),
        forall|q: int| 0 <= q < r1.len() ==> r2[q] == r1[q],
    ensures
        in_list(r2, e),
{
    let q = choose|q: int| 0 <= q < r1.len() && r1[q] == e;
    assert(0 <= q < r2.len() && r2[q] == e);
}

/// The handle stands on some tile of the blast aimed at `t`.
pub open spec fn from_blast(m: GameMap, t: Point, radius: int, e: Entity) -> bool {
    exists|x2: int, y2: int|
        blast_tile(m, t, radius, x2, y2) && content_has(m, m.idx_of(x2, y2), e)
}

/// The entity in slot `i` belongs to the target set of the use intent
/// of `user`: the actor itself with no target point; the occupants of
/// the pointed tile for a plain item; the occupants of every blast tile
/// for an area item.
pub open spec fn spec_targeted(w: Seq<Slot>, m: GameMap, user: Entity, i: int) -> bool {
    let u = w[user.idx as int].wants_to_use_item->Some_0;
    match u.target {
        None => i == user.idx as int && 0 <= i < w.len() && w[i].alive,
        Some(t) => if !m.in_bounds(t.x as int, t.y as int) {
            false
        } else if prop_aoe(w, u.item) is Some {
            exists|x2: int, y2: int|
                blast_tile(m, t, clamp_range(prop_aoe(w, u.item)->Some_0.radius as int), x2, y2)
                    && targeted(w, m.tile_content@[m.idx_of(x2, y2)]@, i)
        } else {
            targeted(w, m.tile_content@[m.idx_of(t.x as int, t.y as int)]@, i)
        },
    }
}

/// Some effect of the used item reached a valid target.
pub open spec fn spec_effect_applied(w: Seq<Slot>, m: GameMap, user: Entity) -> bool {
    let item = w[user.idx as int].wants_to_use_item->Some_0.item;
    ||| (prop_heal(w, item) is Some && exists|i: int|
        #[trigger] spec_targeted(w, m, user, i) && 0 <= i < w.len() && w[i].combat_stats is Some)
    ||| (prop_damage(w, item) is Some && exists|i: int|
        #[trigger] spec_targeted(w, m, user, i) && 0 <= i < w.len())
    ||| (prop_confusion(w, item) is Some && exists|i: int|
        #[trigger] spec_targeted(w, m, user, i) && 0 <= i < w.len())
}

/// The first target of the use, where it is determined: the actor
/// itself with no target point, the first occupant of the pointed tile
/// for a plain item. `None` when the tile is empty or out of bounds,
/// and for area items, whose first target depends on blast order.
pub open spec fn det_first_target(w: Seq<Slot>, m: GameMap, user: Entity) -> Option<Entity> {
    let u = w[user.idx as int].wants_to_use_item->Some_0;
    match u.target {
        None => Some(user),
        Some(t) => if !m.in_bounds(t.x as int, t.y as int) || prop_aoe(w, u.item) is Some {
            None
        } else if m.tile_content@[m.idx_of(t.x as int, t.y as int)]@.len() > 0 {
            Some(m.tile_content@[m.idx_of(t.x as int, t.y as int)]@[0])
        } else {
            None
        },
    }
}

/// Everything one resolved use intent owes: the intent is gone, only
/// the spent item can have left the world, every target took exactly
/// the item's healing, damage and confusion, a consumable is gone iff
/// an effect applied, and equipping (where the wearer is determined)
/// swapped the occupied slot out to the backpack. Equipment changes of
/// an area item's wearer depend on blast order and are left open.
pub open spec fn use_step_full(w0: Seq<Slot>, w1: Seq<Slot>, m: GameMap, user: Entity) -> bool {
    let item = w0[user.idx as int].wants_to_use_item->Some_0.item;
    &&& w1.len() == w0.len()
    &&& w1[user.idx as int].wants_to_use_item is None
    &&& forall|i: int| #![trigger w1[i]] 0 <= i < w0.len() && i != item.idx ==> w1[i].alive
        == w0[i].alive
    &&& forall|i: int| #![trigger w1[i]] 0 <= i < w0.len() && w1[i].alive ==> {
        &&& w1[i].combat_stats == (match prop_heal(w0, item) {
            Some(h) => if spec_targeted(w0, m, user, i) && w0[i].combat_stats is Some {
                Some(
                    CombatStats {
                        hp: clamp_i32(
                            min_int(
                                w0[i].combat_stats->Some_0.hp + h.heal,
                                w0[i].combat_stats->Some_0.max_hp as int,
                            ),
                        ) as i32,
                        ..w0[i].combat_stats->Some_0
                    },
                )
            } else {
                w0[i].combat_stats
            },
            None => w0[i].combat_stats,
        })
        &&& pending_damage(w1[i]) == (match prop_damage(w0, item) {
            Some(d) => if spec_targeted(w0, m, user, i) {
                pending_damage(w0[i]).push(d.damage)
            } else {
                pending_damage(w0[i])
            },
            None => pending_damage(w0[i]),
        })
        &&& w1[i].confusion == (match prop_confusion(w0, item) {
            Some(c) => if spec_targeted(w0, m, user, i) {
                Some(Confusion { turns: c.turns })
            } else {
                w0[i].confusion
            },
            None => w0[i].confusion,
        })
    }
    &&& (entity_at(w0, item) && w0[item.idx as int].consumable is Some
        && w0[item.idx as int].player is None ==> (w1[item.idx as int].alive
        <==> !spec_effect_applied(w0, m, user)))
    &&& (entity_at(w0, item) && !(w0[item.idx as int].consumable is Some
        && w0[item.idx as int].player is None) ==> w1[item.idx as int].alive)
    // Non-target frame: no other slot's position moves, and equipment
    // and carrying relations change only through the displacement of the
    // determined wearer's occupied slot. (An area item's wearer depends
    // on blast order; its equipment swaps are left open.)
    &&& forall|i: int| #![trigger w1[i]] 0 <= i < w0.len() && w1[i].alive && i != item.idx
        ==> w1[i].position == w0[i].position
    &&& (!(prop_equippable(w0, item) is Some && {
        let u = w0[user.idx as int].wants_to_use_item->Some_0;
        u.target is Some && m.in_bounds(u.target->Some_0.x as int, u.target->Some_0.y as int)
            && prop_aoe(w0, u.item) is Some
    }) ==> forall|i: int| #![trigger w1[i]] 0 <= i < w0.len() && w1[i].alive && i != item.idx
        ==> {
        let displaced = prop_equippable(w0, item) is Some && det_first_target(w0, m, user)
            is Some && w0[i].alive && (w0[i].equipped matches Some(eq) && eq.owner
            == det_first_target(w0, m, user)->Some_0 && eq.slot == prop_equippable(
            w0,
            item,
        )->Some_0.slot);
        &&& w1[i].equipped == (if displaced {
            None
        } else {
            w0[i].equipped
        })
        &&& w1[i].in_backpack == (if displaced {
            Some(InBackpack { owner: det_first_target(w0, m, user)->Some_0 })
        } else {
            w0[i].in_backpack
        })
    })
    &&& (prop_equippable(w0, item) is Some && det_first_target(w0, m, user) is Some ==> {
        let wearer = det_first_target(w0, m, user)->Some_0;
        let slot_kind = prop_equippable(w0, item)->Some_0.slot;
        &&& (w1[item.idx as int].alive ==> w1[item.idx as int].equipped == Some(
            Equipped { owner: wearer, slot: slot_kind },
        ) && w1[item.idx as int].in_backpack is None && w1[item.idx as int].position is None)
        &&& forall|j: int| #![trigger w1[j]]
            0 <= j < w0.len() && j != item.idx && w0[j].alive && (w0[j].equipped matches Some(eq)
                && eq.owner == wearer && eq.slot == slot_kind) ==> w1[j].equipped is None
                && w1[j].in_backpack == Some(InBackpack { owner: wearer })
    })
}

/// Two worlds with the same liveness and generations agree on who a
/// handle list targets.
proof fn lemma_targeted_stable(w1: Seq<Slot>, w2: Seq<Slot>, targets: Seq<Entity>, i: int)
    requires
        w1.len() == w2.len(),
        forall|j: int| 0 <= j < w1.len() ==> (#[trigger] w2[j]).alive == w1[j].alive && w2[j].gen
            == w1[j].gen,
    ensures
        targeted(w1, targets, i) == targeted(w2, targets, i),
{
    if targeted(w1, targets, i) {
        let k = choose|k: int|
            0 <= k < targets.len() && (#[trigger] targets[k]).idx == i && targets[k].gen
                == w1[i].gen;
        assert(0 <= k < targets.len() && targets[k].idx == i && targets[k].gen == w2[i].gen);
        assert(targeted(w2, targets, i));
    }
    if targeted(w2, targets, i) {
        let k = choose|k: int|
            0 <= k < targets.len() && (#[trigger] targets[k]).idx == i && targets[k].gen
                == w2[i].gen;
        assert(0 <= k < targets.len() && targets[k].idx == i && targets[k].gen == w1[i].gen);
        assert(targeted(w1, targets, i));
    }
}

/// Collects the entities an item use affects. With no target point the
/// actor targets itself; with a target point and no area of effect, the
/// occupants of that one tile; with an area of effect, the occupants of
/// every tile in view of and within `radius` of the point.
pub fn find_targets(world: &World, map: &GameMap, player: Entity, user: Entity) -> (r: Vec<Entity>)
    requires
        map.wf(),
    ensures
        ({
            let w = world@;
            user.idx < w.len() && w[user.idx as int].alive && w[user.idx as int].gen == user.gen
                && (w[user.idx as int].wants_to_use_item matches Some(u) && u.target is None)
                ==> r@ == seq![user]
        }),
        ({
            let w = world@;
            let u = w[user.idx as int].wants_to_use_item->Some_0;
            let t = u.target->Some_0;
            (user.idx < w.len() && w[user.idx as int].alive && w[user.idx as int].gen == user.gen
                && w[user.idx as int].wants_to_use_item is Some && u.target is Some
                && !map.in_bounds(t.x as int, t.y as int)) ==> r@ == Seq::<Entity>::empty()
        }),
        ({
            let w = world@;
            user.idx < w.len() && w[user.idx as int].alive && w[user.idx as int].gen == user.gen
                && (w[user.idx as int].wants_to_use_item matches Some(u) && (u.target matches Some(
                t,
            ) && map.in_bounds(t.x as int, t.y as int) && {
                let item = u.item;
                !(item.idx < w.len() && w[item.idx as int].alive && w[item.idx as int].gen
                    == item.gen && w[item.idx as int].area_of_effect is Some)
            })) ==> r@ == map.tile_content@[map.idx_of(
                (w[user.idx as int].wants_to_use_item->Some_0.target->Some_0).x as int,
                (w[user.idx as int].wants_to_use_item->Some_0.target->Some_0).y as int,
            )]@
        }),
        ({
            let w = world@;
            let u = w[user.idx as int].wants_to_use_item->Some_0;
            let t = u.target->Some_0;
            let radius = clamp_range(prop_aoe(w, u.item)->Some_0.radius as int);
            (user.idx < w.len() && w[user.idx as int].alive && w[user.idx as int].gen == user.gen
                && w[user.idx as int].wants_to_use_item is Some && u.target is Some
                && map.in_bounds(t.x as int, t.y as int) && prop_aoe(w, u.item) is Some) ==> {
                &&& forall|k: int| #![trigger r@[k]] 0 <= k < r@.len() ==> from_blast(
                    *map,
                    t,
                    radius,
                    r@[k],
                )
                &&& forall|x2: int, y2: int| #![trigger blast_tile(*map, t, radius, x2, y2)]
                    blast_tile(*map, t, radius, x2, y2) ==> forall|c: int|
                        0 <= c < map.tile_content@[map.idx_of(x2, y2)]@.len() ==> in_list(
                            r@,
                            #[trigger] map.tile_content@[map.idx_of(x2, y2)]@[c],
                        )
            }
        }),
{
    let mut r: Vec<Entity> = Vec::new();
    if !world.is_valid(user) {
        return r;
    }
    let intent = match world.slots[user.idx].wants_to_use_item {
        Some(u) => u,
        None => {
            return r;
        },
    };
    match intent.target {
        None => {
            // With no target point the actor targets itself.
            r.push(user);
        },
        Some(t) => {
            if t.x < 0 || t.x >= map.width || t.y < 0 || t.y >= map.height {
                return r;
            }
            let aoe: Option<AreaOfEffect> = if world.is_valid(intent.item) {
                world.slots[intent.item.idx].area_of_effect
            } else {
                None
            };
            match aoe {
                None => {
                    // Single tile: all of its occupants.
                    let idx = map.xy_idx(t.x, t.y);
                    let occupants = &map.tile_content[idx];
                    let m = occupants.len();
                    let mut k: usize = 0;
                    while k < m
                        invariant
                            k <= m,
                            idx < map.tile_content@.len(),
                            m == map.tile_content@[idx as int]@.len(),
                            r@ == map.tile_content@[idx as int]@.subrange(0, k as int),
                        decreases m - k,
                    {
                        r.push(map.tile_content[idx][k]);
                        proof {
                            assert(r@ =~= map.tile_content@[idx as int]@.subrange(
                                0,
                                k as int + 1,
                            ));
                        }
                        k += 1;
                    }
                    proof {
                        assert(r@ =~= map.tile_content@[idx as int]@);
                    }
                },
                Some(area) => {
                    // Every occupant of every tile in view of the point
                    // within the blast radius.
                    let radius: i32 = if area.radius < 0 {
                        0
                    } else if area.radius > 0x1000 {
                        0x1000
                    } else {
                        area.radius
                    };
                    proof {
                        assert(radius as int == clamp_range(area.radius as int));
                    }
                    let tiles = field_of_view(map, t, radius);
                    let tn = tiles.len();
                    let mut k: usize = 0;
                    while k < tn
                        invariant
                            map.wf(),
                            map.in_bounds(t.x as int, t.y as int),
                            0 <= radius <= 0x1000,
                            tn == tiles@.len(),
                            k <= tn,
                            forall|q: int| #![trigger tiles@[q]] 0 <= q < tn ==> map.in_bounds(
                                tiles@[q].x as int,
                                tiles@[q].y as int,
                            ) && within_range(
                                t.x as int,
                                t.y as int,
                                tiles@[q].x as int,
                                tiles@[q].y as int,
                                radius as int,
                            ) && line_of_sight(
                                map.tiles@,
                                map.width as int,
                                map.height as int,
                                t.x as int,
                                t.y as int,
                                tiles@[q].x as int,
                                tiles@[q].y as int,
                            ),
                            forall|x2: int, y2: int|
                                map.in_bounds(x2, y2) && within_range(
                                    t.x as int,
                                    t.y as int,
                                    x2,
                                    y2,
                                    radius as int,
                                ) && line_of_sight(
                                    map.tiles@,
                                    map.width as int,
                                    map.height as int,
                                    t.x as int,
                                    t.y as int,
                                    x2,
                                    y2,
                                ) ==> exists|q: int| 0 <= q < tn && (#[trigger] tiles@[q]) == (
                                Point { x: x2 as i32, y: y2 as i32 }),
                            forall|q: int| #![trigger r@[q]] 0 <= q < r@.len() ==> from_blast(
                                *map,
                                t,
                                radius as int,
                                r@[q],
                            ),
                            forall|k2: int| #![trigger tiles@[k2]] 0 <= k2 < k && 0
                                < tiles@[k2].x < map.width - 1 && 0 < tiles@[k2].y < map.height - 1
                                ==> forall|c: int|
                                0 <= c < map.tile_content@[map.idx_of(
                                    tiles@[k2].x as int,
                                    tiles@[k2].y as int,
                                )]@.len() ==> in_list(
                                    r@,
                                    #[trigger] map.tile_content@[map.idx_of(
                                        tiles@[k2].x as int,
                                        tiles@[k2].y as int,
                                    )]@[c],
                                ),
                        decreases tn - k,
                    {
                        let pt = tiles[k];
                        if pt.x > 0 && pt.x < map.width - 1 && pt.y > 0 && pt.y < map.height - 1 {
                            let idx = map.xy_idx(pt.x, pt.y);
                            proof {
                                assert(blast_tile(
                                    *map,
                                    t,
                                    radius as int,
                                    pt.x as int,
                                    pt.y as int,
                                ));
                            }
                            let m = map.tile_content[idx].len();
                            let mut c: usize = 0;
                            while c < m
                                invariant
                                    map.wf(),
                                    map.in_bounds(t.x as int, t.y as int),
                                    0 <= radius <= 0x1000,
                                    c <= m,
                                    idx < map.tile_content@.len(),
                                    m == map.tile_content@[idx as int]@.len(),
                                    idx as int == map.idx_of(pt.x as int, pt.y as int),
                                    blast_tile(*map, t, radius as int, pt.x as int, pt.y as int),
                                    forall|q: int| #![trigger r@[q]] 0 <= q < r@.len()
                                        ==> from_blast(*map, t, radius as int, r@[q]),
                                    forall|c2: int| 0 <= c2 < c ==> in_list(
                                        r@,
                                        #[trigger] map.tile_content@[idx as int]@[c2],
                                    ),
                                    forall|k2: int| #![trigger tiles@[k2]] 0 <= k2 < k && 0
                                        < tiles@[k2].x < map.width - 1 && 0 < tiles@[k2].y
                                        < map.height - 1 ==> forall|c2: int|
                                        0 <= c2 < map.tile_content@[map.idx_of(
                                            tiles@[k2].x as int,
                                            tiles@[k2].y as int,
                                        )]@.len() ==> in_list(
                                            r@,
                                            #[trigger] map.tile_content@[map.idx_of(
                                                tiles@[k2].x as int,
                                                tiles@[k2].y as int,
                                            )]@[c2],
                                        ),
                                decreases m - c,
                            {
                                let ghost r_pre = r@;
                                let e = map.tile_content[idx][c];
                                r.push(e);
                                proof {
                                    assert(map.tile_content@[idx as int]@[c as int] == e);
                                    assert(content_has(*map, idx as int, e));
                                    assert(from_blast(*map, t, radius as int, e));
                                    assert(r@[r@.len() - 1] == e);
                                    assert(in_list(r@, e));
                                    assert forall|c2: int| 0 <= c2 < c + 1 implies in_list(
                                        r@,
                                        #[trigger] map.tile_content@[idx as int]@[c2],
                                    ) by {
                                        if c2 < c {
                                            lemma_in_list_grow(
                                                r_pre,
                                                r@,
                                                map.tile_content@[idx as int]@[c2],
                                            );
                                        }
                                    }
                                    assert forall|k2: int| #![trigger tiles@[k2]]
                                        0 <= k2 < k && 0 < tiles@[k2].x < map.width - 1 && 0
                                        < tiles@[k2].y < map.height - 1 implies forall|c2: int|
                                        0 <= c2 < map.tile_content@[map.idx_of(
                                            tiles@[k2].x as int,
                                            tiles@[k2].y as int,
                                        )]@.len() ==> in_list(
                                            r@,
                                            #[trigger] map.tile_content@[map.idx_of(
                                                tiles@[k2].x as int,
                                                tiles@[k2].y as int,
                                            )]@[c2],
                                        ) by {
                                        assert forall|c2: int|
                                            0 <= c2 < map.tile_content@[map.idx_of(
                                                tiles@[k2].x as int,
                                                tiles@[k2].y as int,
                                            )]@.len() implies in_list(
                                            r@,
                                            #[trigger] map.tile_content@[map.idx_of(
                                                tiles@[k2].x as int,
                                                tiles@[k2].y as int,
                                            )]@[c2],
                                        ) by {
                                            lemma_in_list_grow(
                                                r_pre,
                                                r@,
                                                map.tile_content@[map.idx_of(
                                                    tiles@[k2].x as int,
                                                    tiles@[k2].y as int,
                                                )]@[c2],
                                            );
                                        }
                                    }
                                }
                                c += 1;
                            }
                        }
                        k += 1;
                    }
                    proof {
                        // Every blast tile appears in the viewed list, so
                        // its occupants were all pushed.
                        assert forall|x2: int, y2: int|
                            #![trigger blast_tile(*map, t, radius as int, x2, y2)]
                            blast_tile(*map, t, radius as int, x2, y2) implies forall|c: int|
                            0 <= c < map.tile_content@[map.idx_of(x2, y2)]@.len() ==> in_list(
                                r@,
                                #[trigger] map.tile_content@[map.idx_of(x2, y2)]@[c],
                            ) by {
                            assert(map.in_bounds(x2, y2));
                            let q = choose|q: int|
                                0 <= q < tn && (#[trigger] tiles@[q]) == (Point {
                                    x: x2 as i32,
                                    y: y2 as i32,
                                });
                            assert(0 < tiles@[q].x < map.width - 1 && 0 < tiles@[q].y < map.height
                                - 1);
                        }
                    }
                },
            }
        },
    }
    r
}

/// Heals every live target that has combat statistics: its hit points
/// become `min(hp + heal, max_hp)`, clamped to the representable range.
/// Nothing else changes. Returns whether anyone was healed.
pub fn apply_healing(world: &mut World, targets: &Vec<Entity>, heal: i32) -> (applied: bool)
    ensures
        final(world)@.len() == old(world)@.len(),
        forall|i: int| #![trigger final(world)@[i]] 0 <= i < old(world)@.len() ==> {
            let s = old(world)@[i];
            let s2 = final(world)@[i];
            if targeted(old(world)@, targets@, i) && s.combat_stats is Some {
                s2 == (Slot {
                    combat_stats: Some(
                        CombatStats {
                            hp: clamp_i32(
                                min_int(
                                    s.combat_stats->Some_0.hp + heal,
                                    s.combat_stats->Some_0.max_hp as int,
                                ),
                            ) as i32,
                            ..s.combat_stats->Some_0
                        },
                    ),
                    ..s
                })
            } else {
                s2 == s
            }
        },
        applied == exists|i: int|
            0 <= i < old(world)@.len() && #[trigger] targeted(old(world)@, targets@, i) && old(
                world,
            )@[i].combat_stats is Some,
{
    let ghost w0 = old(world)@;
    let n = targets.len();
    let wn = world.slots.len();
    let mut done: Vec<bool> = filled(wn, false);
    let mut applied = false;
    let mut k: usize = 0;
    while k < n
        invariant
            n == targets@.len(),
            wn == world@.len(),
            wn == w0.len(),
            w0 == old(world)@,
            done@.len() == wn,
            k <= n,
            forall|i: int| #![trigger world@[i]] 0 <= i < wn ==> {
                let s = w0[i];
                let s2 = world@[i];
                if done@[i] {
                    s2 == (Slot {
                        combat_stats: Some(
                            CombatStats {
                                hp: clamp_i32(
                                    min_int(
                                        s.combat_stats->Some_0.hp + heal,
                                        s.combat_stats->Some_0.max_hp as int,
                                    ),
                                ) as i32,
                                ..s.combat_stats->Some_0
                            },
                        ),
                        ..s
                    })
                } else {
                    s2 == s
                }
            },
            forall|i: int| 0 <= i < wn && #[trigger] done@[i] ==> targeted(w0, targets@, i)
                && w0[i].combat_stats is Some,
            forall|i: int| 0 <= i < wn && targeted(w0, targets@.subrange(0, k as int), i)
                && w0[i].combat_stats is Some ==> #[trigger] done@[i],
            applied == exists|i: int| 0 <= i < wn && #[trigger] done@[i],
        decreases n - k,
    {
        let e = targets[k];
        if e.idx < wn && world.slots[e.idx].alive && world.slots[e.idx].gen == e.gen
            && world.slots[e.idx].combat_stats.is_some() && !done[e.idx] {
            let stats = world.slots[e.idx].combat_stats.unwrap();
            let healed_wide: i128 = stats.hp as i128 + heal as i128;
            let target_hp: i128 = if healed_wide < stats.max_hp as i128 {
                healed_wide
            } else {
                stats.max_hp as i128
            };
            let new_hp: i32 = if target_hp > i32::MAX as i128 {
                i32::MAX
            } else if target_hp < i32::MIN as i128 {
                i32::MIN
            } else {
                target_hp as i32
            };
            world.slots[e.idx].combat_stats = Some(CombatStats { hp: new_hp, ..stats });
            done.set(e.idx, true);
            applied = true;
            proof {
                assert(targeted(w0, targets@, e.idx as int));
                assert(done@[e.idx as int]);
            }
        }
        proof {
            assert forall|i: int|
                0 <= i < wn && targeted(w0, targets@.subrange(0, k as int + 1), i)
                    && w0[i].combat_stats is Some implies #[trigger] done@[i] by {
                let sub = targets@.subrange(0, k as int + 1);
                let q = choose|q: int| 0 <= q < sub.len() && (#[trigger] sub[q]).idx == i
                    && sub[q].gen == w0[i].gen;
                if q < k {
                    assert(targets@.subrange(0, k as int)[q] == sub[q]);
                    assert(targeted(w0, targets@.subrange(0, k as int), i));
                }
            }
        }
        k += 1;
    }
    proof {
        assert forall|i: int|
            0 <= i < wn && #[trigger] targeted(w0, targets@, i) && w0[i].combat_stats is Some
            implies done@[i] by {
            assert(targets@.subrange(0, n as int) =~= targets@);
            assert(targeted(w0, targets@.subrange(0, n as int), i));
        }
        assert forall|i: int| 0 <= i < wn implies (#[trigger] done@[i] <==> (targeted(
            w0,
            targets@,
            i,
        ) && w0[i].combat_stats is Some)) by {}
    }
    applied
}

pub open spec fn min_int(a: int, b: int) -> int {
    if a < b {
        a
    } else {
        b
    }
}

fn filled(n: usize, v: bool) -> (r: Vec<bool>)
    ensures
        r@.len() == n,
        forall|i: int| 0 <= i < n ==> r@[i] == v,
{
    let mut r: Vec<bool> = Vec::new();
    let mut i: usize = 0;
    while i < n
        invariant
            i <= n,
            r@.len() == i,
            forall|j: int| 0 <= j < i ==> r@[j] == v,
        decreases n - i,
    {
        r.push(v);
        i += 1;
    }
    r
}

/// Enqueues `damage` once on every live target. Nothing else changes.
/// Returns whether any target was hit.
pub fn apply_damage_to_targets(world: &mut World, targets: &Vec<Entity>, damage: i32) -> (applied:
    bool)
    ensures
        final(world)@.len() == old(world)@.len(),
        forall|i: int| #![trigger final(world)@[i]] 0 <= i < old(world)@.len() ==> {
            let s = old(world)@[i];
            let s2 = final(world)@[i];
            if targeted(old(world)@, targets@, i) {
                s2 == (Slot { take_damage: s2.take_damage, ..s }) && pending_damage(s2)
                    == pending_damage(s).push(damage)
            } else {
                s2 == s
            }
        },
        applied == exists|i: int|
            0 <= i < old(world)@.len() && #[trigger] targeted(old(world)@, targets@, i),
{
    let ghost w0 = old(world)@;
    let n = targets.len();
    let wn = world.slots.len();
    let mut done: Vec<bool> = filled(wn, false);
    let mut applied = false;
    let mut k: usize = 0;
    while k < n
        invariant
            n == targets@.len(),
            wn == world@.len(),
            wn == w0.len(),
            w0 == old(world)@,
            done@.len() == wn,
            k <= n,
            forall|i: int| #![trigger world@[i]] 0 <= i < wn ==> {
                let s = w0[i];
                let s2 = world@[i];
                if done@[i] {
                    s2 == (Slot { take_damage: s2.take_damage, ..s }) && pending_damage(s2)
                        == pending_damage(s).push(damage)
                } else {
                    s2 == s
                }
            },
            forall|i: int| 0 <= i < wn && #[trigger] done@[i] ==> targeted(w0, targets@, i),
            forall|i: int| 0 <= i < wn && targeted(w0, targets@.subrange(0, k as int), i)
                ==> #[trigger] done@[i],
            applied == exists|i: int| 0 <= i < wn && #[trigger] done@[i],
        decreases n - k,
    {
        let e = targets[k];
        if e.idx < wn && world.slots[e.idx].alive && world.slots[e.idx].gen == e.gen && !done[
            e.idx] {
            TakeDamage::add_damage(world, e, damage);
            done.set(e.idx, true);
            applied = true;
            proof {
                assert(targeted(w0, targets@, e.idx as int));
                assert(done@[e.idx as int]);
            }
        }
        proof {
            assert forall|i: int|
                0 <= i < wn && targeted(w0, targets@.subrange(0, k as int + 1), i)
                implies #[trigger] done@[i] by {
                let sub = targets@.subrange(0, k as int + 1);
                let q = choose|q: int| 0 <= q < sub.len() && (#[trigger] sub[q]).idx == i
                    && sub[q].gen == w0[i].gen;
                if q < k {
                    assert(targets@.subrange(0, k as int)[q] == sub[q]);
                    assert(targeted(w0, targets@.subrange(0, k as int), i));
                }
            }
        }
        k += 1;
    }
    proof {
        assert forall|i: int| 0 <= i < wn && #[trigger] targeted(w0, targets@, i)
            implies done@[i] by {
            assert(targets@.subrange(0, n as int) =~= targets@);
            assert(targeted(w0, targets@.subrange(0, n as int), i));
        }
    }
    applied
}

/// Overwrites the confusion counter of every live target with `turns`.
/// Nothing else changes. Returns whether any target was confused.
pub fn apply_confusion(world: &mut World, targets: &Vec<Entity>, turns: i32) -> (applied: bool)
    ensures
        final(world)@.len() == old(world)@.len(),
        forall|i: int| #![trigger final(world)@[i]] 0 <= i < old(world)@.len() ==> {
            let s = old(world)@[i];
            let s2 = final(world)@[i];
            if targeted(old(world)@, targets@, i) {
                s2 == (Slot { confusion: Some(Confusion { turns }), ..s })
            } else {
                s2 == s
            }
        },
        applied == exists|i: int|
            0 <= i < old(world)@.len() && #[trigger] targeted(old(world)@, targets@, i),
{
    let ghost w0 = old(world)@;
    let n = targets.len();
    let wn = world.slots.len();
    let mut done: Vec<bool> = filled(wn, false);
    let mut applied = false;
    let mut k: usize = 0;
    while k < n
        invariant
            n == targets@.len(),
            wn == world@.len(),
            wn == w0.len(),
            w0 == old(world)@,
            done@.len() == wn,
            k <= n,
            forall|i: int| #![trigger world@[i]] 0 <= i < wn ==> {
                let s = w0[i];
                let s2 = world@[i];
                if done@[i] {
                    s2 == (Slot { confusion: Some(Confusion { turns }), ..s })
                } else {
                    s2 == s
                }
            },
            forall|i: int| 0 <= i < wn && #[trigger] done@[i] ==> targeted(w0, targets@, i),
            forall|i: int| 0 <= i < wn && targeted(w0, targets@.subrange(0, k as int), i)
                ==> #[trigger] done@[i],
            applied == exists|i: int| 0 <= i < wn && #[trigger] done@[i],
        decreases n - k,
    {
        let e = targets[k];
        if e.idx < wn && world.slots[e.idx].alive && world.slots[e.idx].gen == e.gen && !done[
            e.idx] {
            world.slots[e.idx].confusion = Some(Confusion { turns });
            done.set(e.idx, true);
            applied = true;
            proof {
                assert(targeted(w0, targets@, e.idx as int));
                assert(done@[e.idx as int]);
            }
        }
        proof {
            assert forall|i: int|
                0 <= i < wn && targeted(w0, targets@.subrange(0, k as int + 1), i)
                implies #[trigger] done@[i] by {
                let sub = targets@.subrange(0, k as int + 1);
                let q = choose|q: int| 0 <= q < sub.len() && (#[trigger] sub[q]).idx == i
                    && sub[q].gen == w0[i].gen;
                if q < k {
                    assert(targets@.subrange(0, k as int)[q] == sub[q]);
                    assert(targeted(w0, targets@.subrange(0, k as int), i));
                }
            }
        }
        k += 1;
    }
    proof {
        assert forall|i: int| 0 <= i < wn && #[trigger] targeted(w0, targets@, i)
            implies done@[i] by {
            assert(targets@.subrange(0, n as int) =~= targets@);
            assert(targeted(w0, targets@.subrange(0, n as int), i));
        }
    }
    applied
}

/// Equips `item` on `wearer` in slot `slot_kind`: anything `wearer`
/// already wears in that slot moves to its backpack first, then the item
/// leaves the backpack and the world and becomes equipped — never two
/// items in one slot of one owner.
pub fn equip_item(
    world: &mut World,
    log: &mut GameLog,
    player: Entity,
    item: Entity,
    wearer: Entity,
    slot_kind: crate::components::EquipmentSlot,
)
    requires
        old(world).valid(item),
    ensures
        final(world)@.len() == old(world)@.len(),
        forall|i: int| #![trigger final(world)@[i]] 0 <= i < old(world)@.len() && i != item.idx
            ==> {
            let s = old(world)@[i];
            let s2 = final(world)@[i];
            if s.alive && (s.equipped matches Some(eq) && eq.owner == wearer && eq.slot
                == slot_kind) {
                s2 == (Slot { equipped: None, in_backpack: Some(InBackpack { owner: wearer }), ..s })
            } else {
                s2 == s
            }
        },
        final(world)@[item.idx as int] == (Slot {
            equipped: Some(Equipped { owner: wearer, slot: slot_kind }),
            in_backpack: None,
            position: None,
            ..old(world)@[item.idx as int]
        }),
        log_extended(*old(log), *final(log)),
{
    let ghost w0 = old(world)@;
    let wn = world.slots.len();
    let mut i: usize = 0;
    while i < wn
        invariant
            wn == world@.len(),
            wn == w0.len(),
            w0 == old(world)@,
            i <= wn,
            item.idx < wn,
            forall|k: int| #![trigger world@[k]] 0 <= k < wn ==> {
                let s = w0[k];
                let s2 = world@[k];
                if k < i && k != item.idx && s.alive && (s.equipped matches Some(eq) && eq.owner
                    == wearer && eq.slot == slot_kind) {
                    s2 == (Slot {
                        equipped: None,
                        in_backpack: Some(InBackpack { owner: wearer }),
                        ..s
                    })
                } else {
                    s2 == s
                }
            },
            log_extended(*old(log), *log),
        decreases wn - i,
    {
        if i != item.idx {
            let s = &world.slots[i];
            if s.alive && match &s.equipped {
                Some(eq) => eq.owner == wearer && eq.slot == slot_kind,
                None => false,
            } {
                world.slots[i].equipped = None;
                world.slots[i].in_backpack = Some(InBackpack { owner: wearer });
                if wearer == player {
                    match &world.slots[i].name {
                        Some(nm) => {
                            let text = nm.name.clone();
                            log.push(LogEntry::Unequipped { item: text });
                        },
                        None => {},
                    }
                }
            }
        }
        i += 1;
    }
    world.slots[item.idx].equipped = Some(Equipped { owner: wearer, slot: slot_kind });
    world.slots[item.idx].in_backpack = None;
    world.slots[item.idx].position = None;
    if wearer == player {
        match &world.slots[item.idx].name {
            Some(nm) => {
                let text = nm.name.clone();
                log.push(LogEntry::Equipped { item: text });
            },
            None => {},
        }
    }
}

/// What one item-use pass may do to a slot: leave it, despawn it (a
/// spent consumable), or change only its intent, hit points, damage
/// queue, confusion, equipment and carrying relations, and position.
pub open spec fn item_use_step(s: Slot, s2: Slot) -> bool {
    ||| s2 == s
    ||| (s.alive && s.player is None && s2 == empty_slot(bump_gen(s.gen), false))
    ||| (s.alive && s2 == (Slot {
        wants_to_use_item: s2.wants_to_use_item,
        combat_stats: s2.combat_stats,
        take_damage: s2.take_damage,
        confusion: s2.confusion,
        equipped: s2.equipped,
        in_backpack: s2.in_backpack,
        position: s2.position,
        ..s
    }) && (s2.wants_to_use_item == s.wants_to_use_item || s2.wants_to_use_item is None) && (
    s2.position == s.position || s2.position is None) && ((s2.combat_stats is None
        && s.combat_stats is None) || (s2.combat_stats matches Some(cs2) && (s.combat_stats
        matches Some(cs) && cs2 == (CombatStats { hp: cs2.hp, ..cs })))))
}

/// What the healing, damage and confusion passes may do to a slot:
/// change only its hit points, damage queue and confusion counter.
pub open spec fn effects_step(s: Slot, s2: Slot) -> bool {
    ||| s2 == s
    ||| (s.alive && s2 == (Slot {
        combat_stats: s2.combat_stats,
        take_damage: s2.take_damage,
        confusion: s2.confusion,
        ..s
    }) && ((s2.combat_stats is None && s.combat_stats is None) || (s2.combat_stats matches Some(
        cs2,
    ) && (s.combat_stats matches Some(cs) && cs2 == (CombatStats { hp: cs2.hp, ..cs })))))
}

proof fn lemma_effects_step_trans(s0: Slot, s1: Slot, s2: Slot)
    requires
        effects_step(s0, s1),
        effects_step(s1, s2),
    ensures
        effects_step(s0, s2),
{
}

proof fn lemma_effects_is_item_use_step(s: Slot, s2: Slot)
    requires
        effects_step(s, s2),
    ensures
        item_use_step(s, s2),
{
}

/// Applies the item's healing, damage and confusion to the targets,
/// logging the player's uses; returns whether any effect reached a
/// target.
#[verifier::rlimit(100)]
#[verifier::spinoff_prover]
fn apply_item_effects(
    world: &mut World,
    log: &mut GameLog,
    user_is_player: bool,
    targets: &Vec<Entity>,
    heals: Option<ProvidesHealing>,
    deals: Option<DealsDamage>,
    confuses: Option<Confusion>,
    item_name: &Option<String>,
) -> (used: bool)
    ensures
        final(world)@.len() == old(world)@.len(),
        forall|i: int| 0 <= i < old(world)@.len() ==> effects_step(
            old(world)@[i],
            #[trigger] final(world)@[i],
        ),
        forall|i: int| #![trigger final(world)@[i]] 0 <= i < old(world)@.len() ==> {
            let s = old(world)@[i];
            let s2 = final(world)@[i];
            &&& s2 == (Slot {
                combat_stats: s2.combat_stats,
                take_damage: s2.take_damage,
                confusion: s2.confusion,
                ..s
            })
            &&& s2.combat_stats == (match heals {
                Some(h) => if targeted(old(world)@, targets@, i) && s.combat_stats is Some {
                    Some(
                        CombatStats {
                            hp: clamp_i32(
                                min_int(
                                    s.combat_stats->Some_0.hp + h.heal,
                                    s.combat_stats->Some_0.max_hp as int,
                                ),
                            ) as i32,
                            ..s.combat_stats->Some_0
                        },
                    )
                } else {
                    s.combat_stats
                },
                None => s.combat_stats,
            })
            &&& pending_damage(s2) == (match deals {
                Some(d) => if targeted(old(world)@, targets@, i) {
                    pending_damage(s).push(d.damage)
                } else {
                    pending_damage(s)
                },
                None => pending_damage(s),
            })
            &&& s2.confusion == (match confuses {
                Some(c) => if targeted(old(world)@, targets@, i) {
                    Some(Confusion { turns: c.turns })
                } else {
                    s.confusion
                },
                None => s.confusion,
            })
        },
        used == ((heals is Some && exists|i: int|
            0 <= i < old(world)@.len() && #[trigger] targeted(old(world)@, targets@, i) && old(
                world,
            )@[i].combat_stats is Some) || (deals is Some && exists|i: int|
            0 <= i < old(world)@.len() && #[trigger] targeted(old(world)@, targets@, i)) || (
        confuses is Some && exists|i: int|
            0 <= i < old(world)@.len() && #[trigger] targeted(old(world)@, targets@, i))),
        log_extended(*old(log), *final(log)),
{
    let mut used = false;
    let ghost w_a = world@;
    match heals {
        None => {},
        Some(h) => {
            let applied = apply_healing(world, targets, h.heal);
            if applied {
                used = true;
                if user_is_player {
                    match item_name {
                        Some(nm) => {
                            let text = nm.clone();
                            log.push(LogEntry::UsedHealing { item: text, heal: h.heal });
                        },
                        None => {},
                    }
                }
            }
        },
    }
    let ghost w_b = world@;
    proof {
        assert forall|i: int| 0 <= i < w_a.len() implies effects_step(w_a[i], #[trigger] w_b[i])
            by {}
        assert forall|i: int| 0 <= i < w_a.len() implies #[trigger] targeted(w_b, targets@, i)
            == targeted(w_a, targets@, i) by {
            lemma_targeted_stable(w_a, w_b, targets@, i);
        }
        assert(used == (heals is Some && exists|i: int|
            0 <= i < w_a.len() && #[trigger] targeted(w_a, targets@, i) && w_a[i].combat_stats
                is Some));
    }
    match deals {
        None => {},
        Some(d) => {
            let applied = apply_damage_to_targets(world, targets, d.damage);
            if applied {
                used = true;
                if user_is_player {
                    match item_name {
                        Some(nm) => {
                            let text = nm.clone();
                            log.push(LogEntry::UsedDamage { item: text, damage: d.damage });
                        },
                        None => {},
                    }
                }
            }
        },
    }
    let ghost w_c = world@;
    proof {
        assert forall|i: int| 0 <= i < w_b.len() implies effects_step(w_b[i], #[trigger] w_c[i])
            by {}
        assert forall|i: int| 0 <= i < w_a.len() implies #[trigger] targeted(w_c, targets@, i)
            == targeted(w_a, targets@, i) by {
            lemma_targeted_stable(w_a, w_b, targets@, i);
            lemma_targeted_stable(w_b, w_c, targets@, i);
        }
        assert((exists|i: int| 0 <= i < w_b.len() && #[trigger] targeted(w_b, targets@, i))
            <==> (exists|i: int| 0 <= i < w_a.len() && #[trigger] targeted(w_a, targets@, i))) by {
            if exists|i: int| 0 <= i < w_b.len() && #[trigger] targeted(w_b, targets@, i) {
                let i = choose|i: int| 0 <= i < w_b.len() && #[trigger] targeted(w_b, targets@, i);
                lemma_targeted_stable(w_a, w_b, targets@, i);
                assert(targeted(w_a, targets@, i));
            }
            if exists|i: int| 0 <= i < w_a.len() && #[trigger] targeted(w_a, targets@, i) {
                let i = choose|i: int| 0 <= i < w_a.len() && #[trigger] targeted(w_a, targets@, i);
                lemma_targeted_stable(w_a, w_b, targets@, i);
                assert(targeted(w_b, targets@, i));
            }
        }
        assert(used == ((heals is Some && exists|i: int|
            0 <= i < w_a.len() && #[trigger] targeted(w_a, targets@, i) && w_a[i].combat_stats
                is Some) || (deals is Some && exists|i: int|
            0 <= i < w_a.len() && #[trigger] targeted(w_a, targets@, i))));
    }
    match confuses {
        None => {},
        Some(c) => {
            let applied = apply_confusion(world, targets, c.turns);
            if applied {
                used = true;
                if user_is_player {
                    match item_name {
                        Some(nm) => {
                            let text = nm.clone();
                            log.push(LogEntry::UsedConfusion { item: text });
                        },
                        None => {},
                    }
                }
            }
        },
    }
    let ghost w_d = world@;
    proof {
        assert forall|i: int| 0 <= i < w_c.len() implies effects_step(w_c[i], #[trigger] w_d[i])
            by {}
        assert forall|i: int| 0 <= i < w_a.len() implies effects_step(w_a[i], #[trigger] w_d[i])
            by {
            lemma_effects_step_trans(w_a[i], w_b[i], w_c[i]);
            lemma_effects_step_trans(w_a[i], w_c[i], w_d[i]);
        }
        assert((exists|i: int| 0 <= i < w_c.len() && #[trigger] targeted(w_c, targets@, i))
            <==> (exists|i: int| 0 <= i < w_a.len() && #[trigger] targeted(w_a, targets@, i))) by {
            if exists|i: int| 0 <= i < w_c.len() && #[trigger] targeted(w_c, targets@, i) {
                let i = choose|i: int| 0 <= i < w_c.len() && #[trigger] targeted(w_c, targets@, i);
                lemma_targeted_stable(w_a, w_b, targets@, i);
                lemma_targeted_stable(w_b, w_c, targets@, i);
                assert(targeted(w_a, targets@, i));
            }
            if exists|i: int| 0 <= i < w_a.len() && #[trigger] targeted(w_a, targets@, i) {
                let i = choose|i: int| 0 <= i < w_a.len() && #[trigger] targeted(w_a, targets@, i);
                lemma_targeted_stable(w_a, w_b, targets@, i);
                lemma_targeted_stable(w_b, w_c, targets@, i);
                assert(targeted(w_c, targets@, i));
            }
        }
    }
    used
}

proof fn lemma_item_use_step_trans(s0: Slot, s1: Slot, s2: Slot)
    requires
        item_use_step(s0, s1),
        item_use_step(s1, s2),
    ensures
        item_use_step(s0, s2),
{
}

/// Resolves one use-item intent end to end: find the targets, apply
/// healing, damage and confusion, handle equipping, despawn a spent
/// consumable, and drop the intent. Item exclusivity and the
/// one-item-per-slot guarantee survive the whole resolution.
#[verifier::rlimit(100)]
#[verifier::spinoff_prover]
pub fn use_item_for(world: &mut World, map: &GameMap, log: &mut GameLog, player: Entity, user: Entity)
    requires
        map.wf(),
    ensures
        final(world)@.len() == old(world)@.len(),
        old(world).valid(user) ==> final(world)@[user.idx as int].wants_to_use_item is None,
        forall|i: int| 0 <= i < old(world)@.len() ==> item_use_step(
            old(world)@[i],
            #[trigger] final(world)@[i],
        ),
        (old(world).valid(user) && old(world)@[user.idx as int].wants_to_use_item is Some)
            ==> use_step_full(old(world)@, final(world)@, *map, user),
        item_exclusive(old(world)@) ==> item_exclusive(final(world)@),
        unique_equipped(old(world)@) ==> unique_equipped(final(world)@),
        log_extended(*old(log), *final(log)),
{
    let ghost w0 = old(world)@;
    let targets = find_targets(world, map, player, user);
    if !world.is_valid(user) {
        return ;
    }
    let intent = match world.slots[user.idx].wants_to_use_item {
        Some(u) => u,
        None => {
            return ;
        },
    };
    let item = intent.item;
    // The item's properties, read before any effect can disturb them.
    let item_valid = world.is_valid(item);
    let heals: Option<ProvidesHealing> = if item_valid {
        world.slots[item.idx].provides_healing
    } else {
        None
    };
    let deals: Option<DealsDamage> = if item_valid {
        world.slots[item.idx].deals_damage
    } else {
        None
    };
    let confuses: Option<Confusion> = if item_valid {
        world.slots[item.idx].confusion
    } else {
        None
    };
    let consumable: bool = item_valid && world.slots[item.idx].consumable.is_some();
    let equippable: Option<Equippable> = if item_valid {
        world.slots[item.idx].equippable
    } else {
        None
    };
    let item_name: Option<String> = if item_valid {
        match &world.slots[item.idx].name {
            Some(nm) => Some(nm.name.clone()),
            None => None,
        }
    } else {
        None
    };

    let ghost w_a = world@;
    let used = apply_item_effects(
        world,
        log,
        user == player,
        &targets,
        heals,
        deals,
        confuses,
        &item_name,
    );
    let ghost w_d = world@;
    proof {
        assert forall|i: int| 0 <= i < w_a.len() implies item_use_step(w_a[i], #[trigger] w_d[i])
            by {
            lemma_effects_is_item_use_step(w_a[i], w_d[i]);
        }
    }
    match equippable {
        None => {},
        Some(eq) => {
            if targets.len() > 0 {
                let wearer = targets[0];
                proof {
                    assert(world.valid(item));
                }
                equip_item(world, log, player, item, wearer, eq.slot);
            }
        },
    }
    let ghost w_e = world@;
    proof {
        assert forall|i: int| 0 <= i < w_d.len() implies item_use_step(w_d[i], #[trigger] w_e[i])
            by {}
        assert forall|i: int| 0 <= i < w_a.len() implies item_use_step(w_a[i], #[trigger] w_e[i])
            by {
            lemma_item_use_step_trans(w_a[i], w_d[i], w_e[i]);
        }
    }
    let mut disposed = false;
    if consumable && used {
        // The designated player entity is never disposed of.
        if !(world.is_valid(item) && world.slots[item.idx].player.is_some()) {
            world.despawn(item);
            disposed = true;
        }
    }
    let ghost w_g = world@;
    if world.is_valid(user) {
        let slot = &mut world.slots[user.idx];
        slot.wants_to_use_item = None;
    }
    let ghost w_f = world@;
    proof {
        assert forall|i: int| 0 <= i < w_a.len() implies item_use_step(w_a[i], #[trigger] w_f[i])
            by {
            lemma_item_use_step_trans(w_a[i], w_e[i], w_f[i]);
        }
        if item_exclusive(w0) {
            assert forall|i: int| #![trigger w_f[i]]
                0 <= i < w_f.len() && w_f[i].alive && w_f[i].item is Some implies {
                &&& !(w_f[i].in_backpack is Some && w_f[i].equipped is Some)
                &&& !(w_f[i].in_backpack is Some && w_f[i].position is Some)
                &&& !(w_f[i].equipped is Some && w_f[i].position is Some)
            } by {
                assert(item_use_step(w0[i], w_f[i]));
            }
        }
        // The full per-use contract, assembled from the stages.
        assert(heals == prop_heal(w0, item));
        assert(deals == prop_damage(w0, item));
        assert(confuses == prop_confusion(w0, item));
        assert(equippable == prop_equippable(w0, item));
        let m = *map;
        assert forall|i: int| 0 <= i < w0.len() implies #[trigger] targeted(w0, targets@, i)
            == spec_targeted(w0, m, user, i) by {
            match intent.target {
                None => {
                    assert(targets@ == seq![user]);
                    if targeted(w0, targets@, i) {
                        let k = choose|k: int|
                            0 <= k < targets@.len() && (#[trigger] targets@[k]).idx == i
                                && targets@[k].gen == w0[i].gen;
                        assert(k == 0 && targets@[0] == user);
                        assert(spec_targeted(w0, m, user, i));
                    }
                    if spec_targeted(w0, m, user, i) {
                        assert(targets@[0].idx == i && targets@[0].gen == w0[i].gen);
                        assert(targeted(w0, targets@, i));
                    }
                },
                Some(t) => {
                    if !m.in_bounds(t.x as int, t.y as int) {
                        assert(targets@ == Seq::<Entity>::empty());
                        assert(!targeted(w0, targets@, i));
                        assert(!spec_targeted(w0, m, user, i));
                    } else if prop_aoe(w0, item) is Some {
                        let radius = clamp_range(prop_aoe(w0, item)->Some_0.radius as int);
                        if targeted(w0, targets@, i) {
                            let k = choose|k: int|
                                0 <= k < targets@.len() && (#[trigger] targets@[k]).idx == i
                                    && targets@[k].gen == w0[i].gen;
                            assert(from_blast(m, t, radius, targets@[k]));
                            let (x2, y2) = choose|x2: int, y2: int|
                                blast_tile(m, t, radius, x2, y2) && content_has(
                                    m,
                                    m.idx_of(x2, y2),
                                    targets@[k],
                                );
                            let c = choose|c: int|
                                0 <= c < m.tile_content@[m.idx_of(x2, y2)]@.len()
                                    && m.tile_content@[m.idx_of(x2, y2)]@[c] == targets@[k];
                            assert(targeted(w0, m.tile_content@[m.idx_of(x2, y2)]@, i));
                            assert(spec_targeted(w0, m, user, i));
                        }
                        if spec_targeted(w0, m, user, i) {
                            let (x2, y2) = choose|x2: int, y2: int|
                                blast_tile(m, t, radius, x2, y2) && targeted(
                                    w0,
                                    m.tile_content@[m.idx_of(x2, y2)]@,
                                    i,
                                );
                            let c = choose|c: int|
                                0 <= c < m.tile_content@[m.idx_of(x2, y2)]@.len() && (
                                #[trigger] m.tile_content@[m.idx_of(x2, y2)]@[c]).idx == i
                                    && m.tile_content@[m.idx_of(x2, y2)]@[c].gen == w0[i].gen;
                            assert(blast_tile(m, t, radius, x2, y2));
                            assert(in_list(targets@, m.tile_content@[m.idx_of(x2, y2)]@[c]));
                            let q = choose|q: int|
                                0 <= q < targets@.len() && targets@[q] == m.tile_content@[m.idx_of(
                                    x2,
                                    y2,
                                )]@[c];
                            assert(targets@[q].idx == i && targets@[q].gen == w0[i].gen);
                            assert(targeted(w0, targets@, i));
                        }
                    } else {
                        assert(targets@ == m.tile_content@[m.idx_of(t.x as int, t.y as int)]@);
                    }
                },
            }
        }
        // One slot changes at each stage only as its contract allows.
        assert forall|i: int| #![trigger w_f[i]] 0 <= i < w0.len() && i != item.idx
            implies w_f[i].alive == w0[i].alive by {
            assert(w_d[i].alive == w_a[i].alive);
            assert(w_e[i].alive == w_d[i].alive);
            assert(w_g[i] == w_e[i]);
            assert(w_f[i].alive == w_g[i].alive);
        }
        assert forall|i: int| #![trigger w_f[i]] 0 <= i < w0.len() && w_f[i].alive implies {
            &&& w_f[i].combat_stats == (match prop_heal(w0, item) {
                Some(h) => if spec_targeted(w0, m, user, i) && w0[i].combat_stats is Some {
                    Some(
                        CombatStats {
                            hp: clamp_i32(
                                min_int(
                                    w0[i].combat_stats->Some_0.hp + h.heal,
                                    w0[i].combat_stats->Some_0.max_hp as int,
                                ),
                            ) as i32,
                            ..w0[i].combat_stats->Some_0
                        },
                    )
                } else {
                    w0[i].combat_stats
                },
                None => w0[i].combat_stats,
            })
            &&& pending_damage(w_f[i]) == (match prop_damage(w0, item) {
                Some(d) => if spec_targeted(w0, m, user, i) {
                    pending_damage(w0[i]).push(d.damage)
                } else {
                    pending_damage(w0[i])
                },
                None => pending_damage(w0[i]),
            })
            &&& w_f[i].confusion == (match prop_confusion(w0, item) {
                Some(c) => if spec_targeted(w0, m, user, i) {
                    Some(Confusion { turns: c.turns })
                } else {
                    w0[i].confusion
                },
                None => w0[i].confusion,
            })
        } by {
            assert(targeted(w0, targets@, i) == spec_targeted(w0, m, user, i));
            assert(w_e[i].combat_stats == w_d[i].combat_stats && pending_damage(w_e[i])
                == pending_damage(w_d[i]) && w_e[i].confusion == w_d[i].confusion);
            assert(w_g[i].alive ==> w_g[i] == w_e[i] || i == item.idx && w_g[i] == w_e[i]);
            assert(w_f[i].combat_stats == w_g[i].combat_stats && pending_damage(w_f[i])
                == pending_damage(w_g[i]) && w_f[i].confusion == w_g[i].confusion);
        }
        // The spent consumable and only it can be gone, exactly when an
        // effect landed.
        assert(used == spec_effect_applied(w0, m, user)) by {
            assert forall|i: int| 0 <= i < w0.len() implies #[trigger] targeted(w0, targets@, i)
                == spec_targeted(w0, m, user, i) by {}
            if used {
                if heals is Some && exists|i: int|
                    0 <= i < w0.len() && #[trigger] targeted(w0, targets@, i) && w0[i].combat_stats
                        is Some {
                    let i = choose|i: int|
                        0 <= i < w0.len() && #[trigger] targeted(w0, targets@, i)
                            && w0[i].combat_stats is Some;
                    assert(spec_targeted(w0, m, user, i));
                } else if deals is Some && exists|i: int|
                    0 <= i < w0.len() && #[trigger] targeted(w0, targets@, i) {
                    let i = choose|i: int| 0 <= i < w0.len() && #[trigger] targeted(
                        w0,
                        targets@,
                        i,
                    );
                    assert(spec_targeted(w0, m, user, i));
                } else {
                    let i = choose|i: int| 0 <= i < w0.len() && #[trigger] targeted(
                        w0,
                        targets@,
                        i,
                    );
                    assert(spec_targeted(w0, m, user, i));
                }
            }
            if spec_effect_applied(w0, m, user) {
                if prop_heal(w0, item) is Some && exists|i: int|
                    #[trigger] spec_targeted(w0, m, user, i) && 0 <= i < w0.len()
                        && w0[i].combat_stats is Some {
                    let i = choose|i: int|
                        #[trigger] spec_targeted(w0, m, user, i) && 0 <= i < w0.len()
                            && w0[i].combat_stats is Some;
                    assert(targeted(w0, targets@, i));
                } else if prop_damage(w0, item) is Some && exists|i: int|
                    #[trigger] spec_targeted(w0, m, user, i) && 0 <= i < w0.len() {
                    let i = choose|i: int| #[trigger] spec_targeted(w0, m, user, i) && 0 <= i
                        < w0.len();
                    assert(targeted(w0, targets@, i));
                } else {
                    let i = choose|i: int| #[trigger] spec_targeted(w0, m, user, i) && 0 <= i
                        < w0.len();
                    assert(targeted(w0, targets@, i));
                }
            }
        }
        if entity_at(w0, item) {
            assert(w_g[item.idx as int].alive <==> !disposed);
            assert(w_f[item.idx as int].alive == w_g[item.idx as int].alive);
        }
        // Equipping with a determined wearer.
        if prop_equippable(w0, item) is Some && det_first_target(w0, m, user) is Some {
            let wearer = det_first_target(w0, m, user)->Some_0;
            assert(targets@.len() > 0 && targets@[0] == wearer);
            assert forall|j: int| #![trigger w_f[j]]
                0 <= j < w0.len() && j != item.idx && w0[j].alive && (w0[j].equipped matches Some(
                    eq,
                ) && eq.owner == wearer && eq.slot == prop_equippable(w0, item)->Some_0.slot)
                implies w_f[j].equipped is None && w_f[j].in_backpack == Some(
                InBackpack { owner: wearer },
            ) by {
                assert(w_d[j].alive == w0[j].alive && w_d[j].equipped == w0[j].equipped);
                assert(w_e[j].equipped is None && w_e[j].in_backpack == Some(
                    InBackpack { owner: wearer },
                ));
                assert(w_g[j] == w_e[j]);
                assert(w_f[j].equipped == w_g[j].equipped && w_f[j].in_backpack
                    == w_g[j].in_backpack);
            }
        }
        assert(use_step_full(w0, w_f, m, user));
        if unique_equipped(w0) {
            assert forall|i: int, j: int| #![trigger w_f[i].equipped, w_f[j].equipped]
                0 <= i < w_f.len() && 0 <= j < w_f.len() && i != j && w_f[i].alive && w_f[j].alive
                    && (w_f[i].equipped matches Some(a) && (w_f[j].equipped matches Some(b)
                    && a.owner == b.owner && a.slot == b.slot)) implies false by {
                assert(item_use_step(w0[i], w_f[i]));
                assert(item_use_step(w0[j], w_f[j]));
            }
        }
    }
}

/// Exactly the entity in slot `u` holds a live use-item intent.
pub open spec fn single_user(w: Seq<Slot>, u: int) -> bool {
    &&& 0 <= u < w.len()
    &&& w[u].alive
    &&& w[u].wants_to_use_item is Some
    &&& forall|v: int| 0 <= v < w.len() && v != u ==> !((#[trigger] w[v]).alive
        && w[v].wants_to_use_item is Some)
}

/// Resolves every pending use-item intent, in slot order. Afterwards no
/// live entity still wants to use an item, every slot changed only as an
/// item use allows, and item exclusivity and unique equipment survive.
/// When a single entity held an intent, the pass is exactly one full use
/// resolution.
pub fn item_use(world: &mut World, map: &GameMap, log: &mut GameLog, player: Entity)
    requires
        map.wf(),
    ensures
        final(world)@.len() == old(world)@.len(),
        forall|i: int| 0 <= i < final(world)@.len() && (#[trigger] final(world)@[i]).alive
            ==> final(world)@[i].wants_to_use_item is None,
        forall|i: int| 0 <= i < old(world)@.len() ==> item_use_step(
            old(world)@[i],
            #[trigger] final(world)@[i],
        ),
        forall|u: int| single_user(old(world)@, u) ==> use_step_full(
            old(world)@,
            final(world)@,
            *map,
            #[trigger] slot_handle(old(world)@, u),
        ),
        item_exclusive(old(world)@) ==> item_exclusive(final(world)@),
        unique_equipped(old(world)@) ==> unique_equipped(final(world)@),
        log_extended(*old(log), *final(log)),
{
    let ghost w0 = old(world)@;
    let n = world.slots.len();
    let mut i: usize = 0;
    while i < n
        invariant
            n == world@.len(),
            n == w0.len(),
            w0 == old(world)@,
            map.wf(),
            i <= n,
            forall|k: int| 0 <= k < k + 1 <= i && (#[trigger] world@[k]).alive ==> world@[k].wants_to_use_item
                is None,
            forall|k: int| 0 <= k < n ==> item_use_step(w0[k], #[trigger] world@[k]),
            forall|u: int| single_user(w0, u) ==> if u < i {
                use_step_full(w0, world@, *map, #[trigger] slot_handle(w0, u))
            } else {
                world@ == w0
            },
            item_exclusive(w0) ==> item_exclusive(world@),
            unique_equipped(w0) ==> unique_equipped(world@),
            log_extended(*old(log), *log),
        decreases n - i,
    {
        let ghost w_pre = world@;
        let s = &world.slots[i];
        if s.alive && s.wants_to_use_item.is_some() {
            proof {
                assert(w_pre[i as int].alive && w_pre[i as int].wants_to_use_item is Some);
            }
            let gen = s.gen;
            let user = Entity { idx: i, gen };
            use_item_for(world, map, log, player, user);
            proof {
                assert forall|k: int| 0 <= k < n implies item_use_step(w0[k], #[trigger] world@[k])
                    by {
                    lemma_item_use_step_trans(w0[k], w_pre[k], world@[k]);
                }
                assert forall|k: int| 0 <= k < k + 1 <= i + 1 && (#[trigger] world@[k]).alive
                    implies world@[k].wants_to_use_item is None by {
                    assert(item_use_step(w_pre[k], world@[k]));
                }
                assert forall|u: int| single_user(w0, u) && u < i + 1 implies use_step_full(
                    w0,
                    world@,
                    *map,
                    #[trigger] slot_handle(w0, u),
                ) by {
                    let h = slot_handle(w0, u);
                    if u < i {
                        // A lone intent below the cursor means slot `i`
                        // could not have held one.
                        assert(use_step_full(w0, w_pre, *map, h));
                        assert(item_use_step(w0[i as int], w_pre[i as int]));
                        assert(w_pre[i as int].alive && w_pre[i as int].wants_to_use_item is Some);
                        assert(w0[i as int].alive && w0[i as int].wants_to_use_item is Some);
                        assert(false);
                    } else {
                        assert(u == i);
                        assert(w_pre == w0);
                        assert(gen == w0[u].gen);
                        assert(use_step_full(w0, world@, *map, slot_handle(w0, u)));
                    }
                }
                assert forall|u: int| single_user(w0, u) && !(u < i + 1) implies world@ == w0 by {
                    let h = slot_handle(w0, u);
                    assert(use_step_full(w0, world@, *map, h) || w_pre == w0);
                    assert(w_pre == w0);
                    assert(w_pre[i as int].alive && w_pre[i as int].wants_to_use_item is Some);
                    assert(w0[i as int].alive && w0[i as int].wants_to_use_item is Some);
                    assert(false);
                }
            }
        } else {
            proof {
                assert forall|k: int| 0 <= k < k + 1 <= i + 1 && (#[trigger] world@[k]).alive
                    implies world@[k].wants_to_use_item is None by {}
                assert forall|u: int| single_user(w0, u) && u < i + 1 implies use_step_full(
                    w0,
                    world@,
                    *map,
                    #[trigger] slot_handle(w0, u),
                ) by {
                    let h = slot_handle(w0, u);
                    if u == i {
                        assert(world@ == w0);
                        assert(!(world@[i as int].alive && world@[
                            i as int
                        ].wants_to_use_item is Some));
                        assert(false);
                    } else if u < i {
                        assert(use_step_full(w0, w_pre, *map, h));
                    } else {
                        assert(world@ == w0);
                        assert(false);
                    }
                }
                assert forall|u: int| single_user(w0, u) && !(u < i + 1) implies world@ == w0 by {
                    let h = slot_handle(w0, u);
                    assert(world@ == w_pre);
                }
            }
        }
        i += 1;
    }
}

} // verus!
