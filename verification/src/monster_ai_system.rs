//! Per-turn monster decisions: a confused monster sits out its turn, one
//! next to the player attacks, one that can see the player walks one step
//! of a computed route towards it.
use vstd::prelude::*;
use vstd::arithmetic::div_mod::lemma_fundamental_div_mod_converse;
use crate::components::{Confusion, Position, WantsToAttack};
use crate::map::GameMap;
use crate::map::adjacent8;
use crate::components::Point;
use crate::map::lemma_idx_inj;
use crate::pathfinding::{a_star_search, route_exists};
use crate::world::{Entity, Slot, World};
use crate::RunState;

verus! {

/// A slot the decision system drives: a live non-player monster with a
/// position and its own sight.
pub open spec fn ai_monster(s: Slot) -> bool {
    s.alive && s.monster is Some && s.player is None && s.position is Some && s.viewshed is Some
}

/// Squared Euclidean distance between two positions.
pub open spec fn dist2(a: Position, b: Position) -> int {
    (a.x - b.x) * (a.x - b.x) + (a.y - b.y) * (a.y - b.y)
}

/// What one monster-turn pass does to each monster: a confused one only
/// counts down (losing the counter at zero); one within melee reach of
/// the player gains an attack intent; otherwise it either stands still
/// or steps onto one adjacent interior tile, marking its sight dirty.
/// Everything else is untouched, and only the map's `blocked` bitmap
/// changes with the moves.
pub open spec fn ai_step(s: Slot, s2: Slot, player: Entity, ppos: Position, width: int, height: int) -> bool {
    if ai_monster(s) {
        if s.confusion is Some {
            s2 == (Slot {
                confusion: if s.confusion->Some_0.turns <= 1 {
                    None
                } else {
                    Some(Confusion { turns: (s.confusion->Some_0.turns - 1) as i32 })
                },
                ..s
            })
        } else if dist2(s.position->Some_0, ppos) <= 2 {
            s2 == (Slot { wants_to_attack: Some(WantsToAttack { target: player }), ..s })
        } else {
            ||| s2 == s
            ||| (s2 == (Slot { position: s2.position, viewshed: s2.viewshed, ..s }) && (
            s2.position matches Some(np) && (s.position matches Some(op) && adjacent8(
                op.x as int,
                op.y as int,
                np.x as int,
                np.y as int,
            ) && 1 <= np.x < width && 1 <= np.y < height)) && (s2.viewshed matches Some(v2) && (
            s.viewshed matches Some(v) && v2.dirty && v2.range == v.range && v2.visible_tiles@
                == v.visible_tiles@)))
        }
    } else {
        s2 == s
    }
}

/// Slot `mi` holds the only monster the system drives, and that monster
/// is due to chase: unconfused, out of melee reach, with the player's
/// tile in its sight, both positions on the map, and a route between
/// them. One pass then owes it a move.
pub open spec fn lone_chaser(w: Seq<Slot>, m: GameMap, mi: int, ppos: Position) -> bool {
    &&& 0 <= mi < w.len()
    &&& ai_monster(w[mi])
    &&& forall|k: int| 0 <= k < w.len() && k != mi ==> !ai_monster(#[trigger] w[k])
    &&& w[mi].confusion is None
    &&& dist2(w[mi].position->Some_0, ppos) > 2
    &&& exists|t: int| 0 <= t < w[mi].viewshed->Some_0.visible_tiles@.len() && (#[trigger] w[mi].viewshed->Some_0.visible_tiles@[t]) == (Point { x: ppos.x, y: ppos.y })
    &&& 0 <= w[mi].position->Some_0.x < m.width && 0 <= w[mi].position->Some_0.y < m.height
    &&& 0 <= ppos.x < m.width && 0 <= ppos.y < m.height
    &&& route_exists(m, w[mi].position->Some_0.y * m.width as int + w[mi].position->Some_0.x, ppos.y * m.width as int + ppos.x)
}

/// Runs the decision system once; outside the monster turn nothing at
/// all happens. A lone monster due to chase does move.
#[verifier::rlimit(60)]
pub fn monster_ai(
    world: &mut World,
    map: &mut GameMap,
    run_state: &RunState,
    player: Entity,
    player_pos: Position,
)
    requires
        old(map).wf(),
    ensures
        final(map).wf(),
        *run_state != RunState::MonsterTurn ==> *final(world) == *old(world) && *final(map)
            == *old(map),
        final(world)@.len() == old(world)@.len(),
        *final(map) == (GameMap { blocked: final(map).blocked, ..*old(map) }),
        *run_state == RunState::MonsterTurn ==> forall|i: int| 0 <= i < old(world)@.len()
            ==> ai_step(
            old(world)@[i],
            #[trigger] final(world)@[i],
            player,
            player_pos,
            old(map).width as int,
            old(map).height as int,
        ),
        *run_state == RunState::MonsterTurn ==> forall|mi: int|
            lone_chaser(old(world)@, *old(map), mi, player_pos)
                ==> (#[trigger] final(world)@[mi].position) != old(world)@[mi].position,
{
    if !matches!(run_state, RunState::MonsterTurn) {
        return ;
    }
    let ghost w0 = old(world)@;
    let ghost m0 = *old(map);
    let n = world.slots.len();
    let mut i: usize = 0;
    while i < n
        invariant
            map.wf(),
            n == world@.len(),
            n == w0.len(),
            w0 == old(world)@,
            m0 == *old(map),
            i <= n,
            *map == (GameMap { blocked: map.blocked, ..m0 }),
            forall|k: int| #![trigger world@[k]] 0 <= k < n ==> if k < i {
                ai_step(w0[k], world@[k], player, player_pos, m0.width as int, m0.height as int)
            } else {
                world@[k] == w0[k]
            },
            (forall|k: int| 0 <= k < i ==> !ai_monster(#[trigger] w0[k])) ==> *map == m0,
            forall|mi: int| 0 <= mi < i && lone_chaser(w0, m0, mi, player_pos)
                ==> (#[trigger] world@[mi].position) != w0[mi].position,
        decreases n - i,
    {
        let s = &world.slots[i];
        let drive: bool = s.alive && s.monster.is_some() && s.player.is_none()
            && s.position.is_some() && s.viewshed.is_some();
        if drive {
            let pos = world.slots[i].position.unwrap();
            match world.slots[i].confusion {
                Some(c) => {
                    // Sit the turn out; the confusion wears off at zero.
                    if c.turns <= 1 {
                        world.slots[i].confusion = None;
                    } else {
                        world.slots[i].confusion = Some(Confusion { turns: c.turns - 1 });
                    }
                },
                None => {
                    let dx: i64 = pos.x as i64 - player_pos.x as i64;
                    let dy: i64 = pos.y as i64 - player_pos.y as i64;
                    proof {
                        let dxi: int = dx as int;
                        let dyi: int = dy as int;
                        assert(0 <= dxi * dxi <= 0x1_0000_0000_0000_0000) by (nonlinear_arith)
                            requires -0x1_0000_0000 <= dxi <= 0x1_0000_0000;
                        assert(0 <= dyi * dyi <= 0x1_0000_0000_0000_0000) by (nonlinear_arith)
                            requires -0x1_0000_0000 <= dyi <= 0x1_0000_0000;
                    }
                    let d2: i128 = (dx as i128) * (dx as i128) + (dy as i128) * (dy as i128);
                    if d2 <= 2 {
                        // In melee reach: swing at the player.
                        world.slots[i].wants_to_attack = Some(WantsToAttack { target: player });
                    } else {
                        // Step along a route when the player is in sight.
                        let mut sees_player = false;
                        let tiles_len = match &world.slots[i].viewshed {
                            Some(v) => v.visible_tiles.len(),
                            None => 0,
                        };
                        let mut k: usize = 0;
                        while k < tiles_len
                            invariant
                                n == world@.len(),
                                i < n,
                                world@[i as int].viewshed is Some,
                                tiles_len == world@[
                                    i as int
                                ].viewshed->Some_0.visible_tiles@.len(),
                                k <= tiles_len,
                                sees_player == exists|t: int|
                                    0 <= t < k && (#[trigger] world@[
                                        i as int
                                    ].viewshed->Some_0.visible_tiles@[t]) == (Point {
                                        x: player_pos.x,
                                        y: player_pos.y,
                                    }),
                            decreases tiles_len - k,
                        {
                            let ghost seen_pre = sees_player;
                            let t = match &world.slots[i].viewshed {
                                Some(v) => v.visible_tiles[k],
                                None => Point { x: 0, y: 0 },
                            };
                            if t.x == player_pos.x && t.y == player_pos.y {
                                sees_player = true;
                            }
                            proof {
                                let tiles = world@[i as int].viewshed->Some_0.visible_tiles@;
                                assert(tiles[k as int] == t);
                                if t.x == player_pos.x && t.y == player_pos.y {
                                    assert(t == (Point { x: player_pos.x, y: player_pos.y }));
                                } else if seen_pre {
                                    let t2 = choose|t2: int|
                                        0 <= t2 < k && (#[trigger] tiles[t2]) == (Point {
                                            x: player_pos.x,
                                            y: player_pos.y,
                                        });
                                    assert(0 <= t2 < k + 1 && tiles[t2] == (Point {
                                        x: player_pos.x,
                                        y: player_pos.y,
                                    }));
                                }
                            }
                            k += 1;
                        }
                        let in_bounds_both = pos.x >= 0 && pos.x < map.width && pos.y >= 0 && pos.y
                            < map.height && player_pos.x >= 0 && player_pos.x < map.width
                            && player_pos.y >= 0 && player_pos.y < map.height;
                        if sees_player && in_bounds_both {
                            let start = map.xy_idx(pos.x, pos.y);
                            let goal = map.xy_idx(player_pos.x, player_pos.y);
                            match a_star_search(map, start, goal) {
                                None => {
                                    proof {
                                        if lone_chaser(w0, m0, i as int, player_pos) {
                                            assert(forall|k: int|
                                                0 <= k < i as int ==> !ai_monster(
                                                    #[trigger] w0[k],
                                                ));
                                            assert(*map == m0);
                                            assert(false);
                                        }
                                    }
                                },
                                Some(path) => {
                                    proof {
                                        if lone_chaser(w0, m0, i as int, player_pos) && path@.len()
                                            <= 1 {
                                            assert(path@[0] == start as int);
                                            assert(path@.last() == goal as int);
                                            assert(start == goal);
                                            assert(start as int == pos.y as int * m0.width as int
                                                + pos.x as int);
                                            assert(goal as int == player_pos.y as int
                                                * m0.width as int + player_pos.x as int);
                                            lemma_idx_inj(
                                                m0.width as int,
                                                m0.height as int,
                                                pos.x as int,
                                                pos.y as int,
                                                player_pos.x as int,
                                                player_pos.y as int,
                                            );
                                            assert(pos == player_pos);
                                            let dxz = pos.x as int - player_pos.x as int;
                                            let dyz = pos.y as int - player_pos.y as int;
                                            assert(dxz == 0 && dyz == 0);
                                            assert(dist2(pos, player_pos) == dxz * dxz + dyz
                                                * dyz);
                                            assert(dxz * dxz == 0 && dyz * dyz == 0)
                                                by (nonlinear_arith)
                                                requires
                                                    dxz == 0 && dyz == 0,
                                            ;
                                            assert(false);
                                        }
                                    }
                                    if path.len() > 1 {
                                        let step = path[1];
                                        let (nx, ny) = map.idx_xy(step);
                                        proof {
                                            let w_i = m0.width as int;
                                            let h_i = m0.height as int;
                                            lemma_fundamental_div_mod_converse(
                                                pos.y as int * w_i + pos.x as int,
                                                w_i,
                                                pos.y as int,
                                                pos.x as int,
                                            );
                                            assert(start as int % w_i == pos.x as int);
                                            assert(start as int / w_i == pos.y as int);
                                            assert(adjacent8(
                                                pos.x as int,
                                                pos.y as int,
                                                nx as int,
                                                ny as int,
                                            ));
                                            assert(map.spec_exit_valid(nx as int, ny as int));
                                        }
                                        // Vacate the old tile, claim the new
                                        // one, move, and mark sight dirty.
                                        let old_idx = map.xy_idx(pos.x, pos.y);
                                        self_set_blocked(map, old_idx, false);
                                        let new_idx = map.xy_idx(nx, ny);
                                        self_set_blocked(map, new_idx, true);
                                        world.slots[i].position = Some(Position { x: nx, y: ny });
                                        match &mut world.slots[i].viewshed {
                                            Some(v) => {
                                                v.dirty = true;
                                            },
                                            None => {},
                                        }
                                        proof {
                                            assert(world@[i as int].position == Some(
                                                Position { x: nx, y: ny },
                                            ));
                                            assert((Position { x: nx, y: ny }) != pos);
                                            assert(world@[i as int].position != w0[
                                                i as int
                                            ].position);
                                        }
                                    }
                                },
                            }
                        } else {
                            proof {
                                if lone_chaser(w0, m0, i as int, player_pos) {
                                    assert(sees_player);
                                    assert(in_bounds_both);
                                    assert(false);
                                }
                            }
                        }
                    }
                },
            }
        }
        i += 1;
    }
}

fn self_set_blocked(map: &mut GameMap, idx: usize, value: bool)
    requires
        old(map).wf(),
        idx < old(map).blocked@.len(),
    ensures
        *final(map) == (GameMap { blocked: final(map).blocked, ..*old(map) }),
        final(map).blocked@ == old(map).blocked@.update(idx as int, value),
        final(map).wf(),
{
    map.blocked.set(idx, value);
}

} // verus!
