//! Player-driven actions: the abstract input events the front end hands
//! in, and what each one does to the player's entity.
use vstd::prelude::*;
use crate::components::{CombatStats, Point, Position, Viewshed, WantsToAttack, WantsToPickupItem};
use crate::damage_system::{clamp_i32, log_extended};
use crate::gamelog::{GameLog, LogEntry};
use crate::item_use_system::{item_exclusive, min_int, unique_equipped};
use crate::map::{GameMap, TileType};
use crate::world::{Entity, Slot, World, slot_handle};
use crate::{RunState, State};

verus! {

/// An abstract discrete input action; the front end decodes raw keys and
/// mouse clicks into these.
#[derive(Clone, Copy, PartialEq, Eq, Structural, Debug)]
pub enum InputEvent {
    MoveLeft,
    MoveRight,
    MoveUp,
    MoveDown,
    MoveUpLeft,
    MoveUpRight,
    MoveDownLeft,
    MoveDownRight,
    PickUp,
    OpenInventory,
    SkipTurn,
    Escape,
    Descend,
    Select(u32),
    Confirm,
    MenuUp,
    MenuDown,
    Primary,
    Secondary,
    Target(Point),
}

/// The first occupant of a tile's content list that is a live combatant.
pub open spec fn first_combat_target(w: Seq<Slot>, content: Seq<Entity>, n: int) -> Option<Entity>
    decreases n,
{
    if n <= 0 {
        None
    } else {
        match first_combat_target(w, content, n - 1) {
            Some(e) => Some(e),
            None => {
                let e = content[n - 1];
                if e.idx < w.len() && w[e.idx as int].alive && w[e.idx as int].gen == e.gen && w[
                    e.idx as int].combat_stats is Some {
                    Some(e)
                } else {
                    None
                }
            },
        }
    }
}

/// What one player step attempt does: a combatant on the destination
/// draws an attack intent; a free, unblocked destination moves the
/// player, mirrors the shared position and marks its sight dirty; an
/// out-of-bounds destination does nothing; nothing else changes.
pub open spec fn move_step(pre: State, post: State, dx: int, dy: int) -> bool {
    &&& post.map == pre.map
    &&& post.run_state == pre.run_state
    &&& post.log == pre.log
    &&& post.player == pre.player
    &&& post.rng == pre.rng
    &&& post.world@.len() == pre.world@.len()
    &&& forall|i: int| 0 <= i < pre.world@.len() && i != pre.player.idx ==> #[trigger] post.world@[i]
        == pre.world@[i]
    &&& ({
        let s = pre.world@[pre.player.idx as int];
        let s2 = post.world@[pre.player.idx as int];
        let m = pre.map;
        let p = s.position->Some_0;
        let v = s.viewshed->Some_0;
        s2 == (Slot {
            position: s2.position,
            viewshed: s2.viewshed,
            wants_to_attack: s2.wants_to_attack,
            ..s
        }) && if s.position is Some && m.in_bounds(p.x as int, p.y as int) && m.in_bounds(
            p.x + dx,
            p.y + dy,
        ) {
            let dest = m.idx_of(p.x + dx, p.y + dy);
            let step_free = !m.blocked@[dest];
            &&& s2.wants_to_attack == (match first_combat_target(
                pre.world@,
                m.tile_content@[dest]@,
                m.tile_content@[dest]@.len() as int,
            ) {
                Some(t) => Some(WantsToAttack { target: t }),
                None => s.wants_to_attack,
            })
            &&& s2.position == (if step_free {
                Some(Position { x: (p.x + dx) as i32, y: (p.y + dy) as i32 })
            } else {
                s.position
            })
            &&& s2.viewshed == (if step_free && s.viewshed is Some {
                Some(Viewshed { visible_tiles: v.visible_tiles, range: v.range, dirty: true })
            } else {
                s.viewshed
            })
            &&& post.player_pos == (if step_free {
                Point { x: (p.x + dx) as i32, y: (p.y + dy) as i32 }
            } else {
                pre.player_pos
            })
        } else {
            s2 == s && post.player_pos == pre.player_pos
        }
    })
}

/// Tries to move the player one step, per `move_step`.
#[verifier::rlimit(60)]
pub fn try_move_player(dx: i32, dy: i32, gs: &mut State)
    requires
        old(gs).wf(),
        -1 <= dx <= 1,
        -1 <= dy <= 1,
    ensures
        final(gs).wf(),
        move_step(*old(gs), *final(gs), dx as int, dy as int),
{
    let player = gs.player;
    let pos = match gs.world.slots[player.idx].position {
        Some(p) => p,
        None => {
            return ;
        },
    };
    if pos.x < 0 || pos.x >= gs.map.width || pos.y < 0 || pos.y >= gs.map.height {
        return ;
    }
    let nx = pos.x + dx;
    let ny = pos.y + dy;
    if nx < 0 || nx >= gs.map.width || ny < 0 || ny >= gs.map.height {
        return ;
    }
    let dest_idx = gs.map.xy_idx(nx, ny);

    // The first combatant on the destination draws the attack.
    let content_len = gs.map.tile_content[dest_idx].len();
    let mut target: Option<Entity> = None;
    let mut k: usize = 0;
    while k < content_len
        invariant
            gs.map == old(gs).map,
            dest_idx < gs.map.tile_content@.len(),
            content_len == gs.map.tile_content@[dest_idx as int]@.len(),
            k <= content_len,
            *gs == (State { world: gs.world, ..*old(gs) }),
            gs.world == old(gs).world,
            target == first_combat_target(
                old(gs).world@,
                gs.map.tile_content@[dest_idx as int]@,
                k as int,
            ),
        decreases content_len - k,
    {
        if target.is_none() {
            let e = gs.map.tile_content[dest_idx][k];
            if e.idx < gs.world.slots.len() && gs.world.slots[e.idx].alive && gs.world.slots[
                e.idx].gen == e.gen && gs.world.slots[e.idx].combat_stats.is_some() {
                target = Some(e);
            }
        }
        k += 1;
    }
    match target {
        Some(t) => {
            gs.world.slots[player.idx].wants_to_attack = Some(WantsToAttack { target: t });
        },
        None => {},
    }

    if !gs.map.blocked[dest_idx] {
        gs.world.slots[player.idx].position = Some(Position { x: nx, y: ny });
        match &mut gs.world.slots[player.idx].viewshed {
            Some(v) => {
                v.dirty = true;
            },
            None => {},
        }
        gs.player_pos = Point { x: nx, y: ny };
    }
}

/// The last live item lying on the given tile.
pub open spec fn item_at(w: Seq<Slot>, at: Point, n: int) -> Option<Entity>
    decreases n,
{
    if n <= 0 {
        None
    } else {
        let s = w[n - 1];
        if s.alive && s.item is Some && (s.position matches Some(p) && p.x == at.x && p.y
            == at.y) {
            Some(slot_handle(w, n - 1))
        } else {
            item_at(w, at, n - 1)
        }
    }
}

/// Asks to pick up an item from the player's tile; when none lies there,
/// only a log line is produced.
pub fn get_item(world: &mut World, log: &mut GameLog, player: Entity, player_pos: Point)
    requires
        old(world).valid(player),
    ensures
        final(world)@.len() == old(world)@.len(),
        forall|i: int| 0 <= i < old(world)@.len() && i != player.idx ==> final(world)@[i] == old(
            world,
        )@[i],
        final(world)@[player.idx as int] == (Slot {
            wants_to_pickup_item: match item_at(old(world)@, player_pos, old(world)@.len() as int) {
                Some(item) => Some(WantsToPickupItem { collected_by: player, item }),
                None => old(world)@[player.idx as int].wants_to_pickup_item,
            },
            ..old(world)@[player.idx as int]
        }),
        final(log).messages@ == (match item_at(old(world)@, player_pos, old(world)@.len() as int) {
            Some(item) => old(log).messages@,
            None => old(log).messages@.push(LogEntry::NothingToPickUp),
        }),
{
    let ghost w0 = old(world)@;
    let n = world.slots.len();
    let mut found: Option<Entity> = None;
    let mut i: usize = 0;
    while i < n
        invariant
            n == world@.len(),
            n == w0.len(),
            w0 == old(world)@,
            *world == *old(world),
            i <= n,
            found == item_at(w0, player_pos, i as int),
        decreases n - i,
    {
        let s = &world.slots[i];
        if s.alive && s.item.is_some() && match &s.position {
            Some(p) => p.x == player_pos.x && p.y == player_pos.y,
            None => false,
        } {
            let gen = s.gen;
            found = Some(Entity { idx: i, gen });
            proof {
                assert(found == Some(slot_handle(w0, i as int)));
            }
        }
        proof {
            assert(found == item_at(w0, player_pos, i as int + 1));
        }
        i += 1;
    }
    match found {
        None => {
            log.push(LogEntry::NothingToPickUp);
        },
        Some(item) => {
            gs_set_pickup(world, player, item);
        },
    }
}

fn gs_set_pickup(world: &mut World, player: Entity, item: Entity)
    requires
        old(world).valid(player),
    ensures
        final(world)@.len() == old(world)@.len(),
        forall|i: int| 0 <= i < old(world)@.len() && i != player.idx ==> final(world)@[i] == old(
            world,
        )@[i],
        final(world)@[player.idx as int] == (Slot {
            wants_to_pickup_item: Some(WantsToPickupItem { collected_by: player, item }),
            ..old(world)@[player.idx as int]
        }),
{
    world.slots[player.idx].wants_to_pickup_item = Some(
        WantsToPickupItem { collected_by: player, item },
    );
}

/// Whether the player stands on the stairs down; when not, only a log
/// line is produced.
pub fn try_next_level(map: &GameMap, player_pos: Point, log: &mut GameLog) -> (r: bool)
    requires
        map.wf(),
    ensures
        map.in_bounds(player_pos.x as int, player_pos.y as int) ==> r == (map.tiles@[map.idx_of(
            player_pos.x as int,
            player_pos.y as int,
        )] == TileType::StairsDown),
        !map.in_bounds(player_pos.x as int, player_pos.y as int) ==> r == false,
        final(log).messages@ == (if r {
            old(log).messages@
        } else {
            old(log).messages@.push(LogEntry::NoStairsHere)
        }),
{
    if player_pos.x < 0 || player_pos.x >= map.width || player_pos.y < 0 || player_pos.y
        >= map.height {
        log.push(LogEntry::NoStairsHere);
        return false;
    }
    let idx = map.xy_idx(player_pos.x, player_pos.y);
    if map.tiles[idx] == TileType::StairsDown {
        true
    } else {
        log.push(LogEntry::NoStairsHere);
        false
    }
}

/// Waiting a turn heals the player by its regeneration rate, clamped at
/// its maximum hit points, and spends the turn.
pub fn skip_turn(world: &mut World, player: Entity) -> (r: RunState)
    ensures
        r == RunState::PlayerTurn,
        final(world)@.len() == old(world)@.len(),
        forall|i: int| 0 <= i < old(world)@.len() && i != player.idx ==> final(world)@[i] == old(
            world,
        )@[i],
        (old(world).valid(player) && old(world)@[player.idx as int].combat_stats is Some) ==> ({
            let cs = old(world)@[player.idx as int].combat_stats->Some_0;
            final(world)@[player.idx as int] == (Slot {
                combat_stats: Some(
                    CombatStats {
                        hp: clamp_i32(min_int(cs.hp + cs.regen_rate, cs.max_hp as int)) as i32,
                        ..cs
                    },
                ),
                ..old(world)@[player.idx as int]
            })
        }),
        !(old(world).valid(player) && old(world)@[player.idx as int].combat_stats is Some)
            ==> *final(world) == *old(world),
{
    if world.is_valid(player) && world.slots[player.idx].combat_stats.is_some() {
        let stats = world.slots[player.idx].combat_stats.unwrap();
        let healed_wide: i128 = stats.hp as i128 + stats.regen_rate as i128;
        let target_hp: i128 = if healed_wide < stats.max_hp as i128 {
            healed_wide
        } else {
            stats.max_hp as i128
        };
        let new_hp: i32 = if target_hp > i32::MAX as i128 {
            i32::MAX
        } else if target_hp < i32::MIN as i128 {
            i32::MIN
        } else {
            target_hp as i32
        };
        world.slots[player.idx].combat_stats = Some(CombatStats { hp: new_hp, ..stats });
    }
    RunState::PlayerTurn
}

/// What a pickup request does: the matching pickup intent lands on the
/// player (or one failure message when the tile is bare); nothing else
/// changes.
pub open spec fn pickup_step(pre: State, post: State) -> bool {
    &&& post == (State { world: post.world, log: post.log, ..pre })
    &&& post.world@.len() == pre.world@.len()
    &&& forall|i: int| 0 <= i < pre.world@.len() && i != pre.player.idx ==> #[trigger] post.world@[i]
        == pre.world@[i]
    &&& post.world@[pre.player.idx as int] == (Slot {
        wants_to_pickup_item: match item_at(pre.world@, pre.player_pos, pre.world@.len() as int) {
            Some(item) => Some(WantsToPickupItem { collected_by: pre.player, item }),
            None => pre.world@[pre.player.idx as int].wants_to_pickup_item,
        },
        ..pre.world@[pre.player.idx as int]
    })
    &&& post.log.messages@ == (match item_at(pre.world@, pre.player_pos, pre.world@.len() as int) {
        Some(item) => pre.log.messages@,
        None => pre.log.messages@.push(LogEntry::NothingToPickUp),
    })
}

/// What waiting a turn does: the player heals by its regeneration rate,
/// clamped at its maximum; nothing else changes.
pub open spec fn rest_step(pre: State, post: State) -> bool {
    &&& post == (State { world: post.world, ..pre })
    &&& post.world@.len() == pre.world@.len()
    &&& forall|i: int| 0 <= i < pre.world@.len() && i != pre.player.idx ==> #[trigger] post.world@[i]
        == pre.world@[i]
    &&& if pre.world.valid(pre.player) && pre.world@[pre.player.idx as int].combat_stats is Some {
        let cs = pre.world@[pre.player.idx as int].combat_stats->Some_0;
        post.world@[pre.player.idx as int] == (Slot {
            combat_stats: Some(
                CombatStats {
                    hp: clamp_i32(min_int(cs.hp + cs.regen_rate, cs.max_hp as int)) as i32,
                    ..cs
                },
            ),
            ..pre.world@[pre.player.idx as int]
        })
    } else {
        post.world == pre.world
    }
}

/// What a descend request does off the pipeline: one failure message
/// when the player is not standing on the stairs, nothing otherwise.
pub open spec fn descend_step(pre: State, post: State) -> bool {
    &&& post == (State { log: post.log, ..pre })
    &&& post.log.messages@ == (if pre.map.in_bounds(
        pre.player_pos.x as int,
        pre.player_pos.y as int,
    ) && pre.map.tiles@[pre.map.idx_of(pre.player_pos.x as int, pre.player_pos.y as int)]
        == TileType::StairsDown {
        pre.log.messages@
    } else {
        pre.log.messages@.push(LogEntry::NoStairsHere)
    })
}

/// Routes one awaited input to the action it asks for, and names the
/// run state the controller moves to.
pub fn player_input(gs: &mut State, input: Option<InputEvent>) -> (r: RunState)
    requires
        old(gs).wf(),
    ensures
        final(gs).wf(),
        final(gs).player == old(gs).player,
        final(gs).run_state == old(gs).run_state,
        item_exclusive(old(gs).world@) ==> item_exclusive(final(gs).world@),
        unique_equipped(old(gs).world@) ==> unique_equipped(final(gs).world@),
        input is None ==> r == RunState::AwaitingInput && *final(gs) == *old(gs),
        input matches Some(ev) ==> match ev {
            InputEvent::MoveLeft => r == RunState::PlayerTurn && move_step(
                *old(gs),
                *final(gs),
                -1,
                0,
            ),
            InputEvent::MoveRight => r == RunState::PlayerTurn && move_step(
                *old(gs),
                *final(gs),
                1,
                0,
            ),
            InputEvent::MoveUp => r == RunState::PlayerTurn && move_step(
                *old(gs),
                *final(gs),
                0,
                -1,
            ),
            InputEvent::MoveDown => r == RunState::PlayerTurn && move_step(
                *old(gs),
                *final(gs),
                0,
                1,
            ),
            InputEvent::MoveUpLeft => r == RunState::PlayerTurn && move_step(
                *old(gs),
                *final(gs),
                -1,
                -1,
            ),
            InputEvent::MoveUpRight => r == RunState::PlayerTurn && move_step(
                *old(gs),
                *final(gs),
                1,
                -1,
            ),
            InputEvent::MoveDownLeft => r == RunState::PlayerTurn && move_step(
                *old(gs),
                *final(gs),
                -1,
                1,
            ),
            InputEvent::MoveDownRight => r == RunState::PlayerTurn && move_step(
                *old(gs),
                *final(gs),
                1,
                1,
            ),
            InputEvent::PickUp => r == RunState::PlayerTurn && pickup_step(*old(gs), *final(gs)),
            InputEvent::SkipTurn => r == RunState::PlayerTurn && rest_step(*old(gs), *final(gs)),
            InputEvent::OpenInventory => r == RunState::ShowInventory && *final(gs) == *old(gs),
            InputEvent::Escape => r == RunState::SaveGame && *final(gs) == *old(gs),
            InputEvent::Descend => descend_step(*old(gs), *final(gs)) && r == (if old(
                gs,
            ).map.in_bounds(old(gs).player_pos.x as int, old(gs).player_pos.y as int) && old(
                gs,
            ).map.tiles@[old(gs).map.idx_of(
                old(gs).player_pos.x as int,
                old(gs).player_pos.y as int,
            )] == TileType::StairsDown {
                RunState::NextLevel
            } else {
                RunState::PlayerTurn
            }),
            _ => r == RunState::AwaitingInput && *final(gs) == *old(gs),
        },
{
    match input {
        None => RunState::AwaitingInput,
        Some(ev) => match ev {
            InputEvent::MoveLeft => {
                try_move_player(-1, 0, gs);
                RunState::PlayerTurn
            },
            InputEvent::MoveRight => {
                try_move_player(1, 0, gs);
                RunState::PlayerTurn
            },
            InputEvent::MoveUp => {
                try_move_player(0, -1, gs);
                RunState::PlayerTurn
            },
            InputEvent::MoveDown => {
                try_move_player(0, 1, gs);
                RunState::PlayerTurn
            },
            InputEvent::MoveUpLeft => {
                try_move_player(-1, -1, gs);
                RunState::PlayerTurn
            },
            InputEvent::MoveUpRight => {
                try_move_player(1, -1, gs);
                RunState::PlayerTurn
            },
            InputEvent::MoveDownLeft => {
                try_move_player(-1, 1, gs);
                RunState::PlayerTurn
            },
            InputEvent::MoveDownRight => {
                try_move_player(1, 1, gs);
                RunState::PlayerTurn
            },
            InputEvent::PickUp => {
                let player = gs.player;
                let ppos = gs.player_pos;
                get_item(&mut gs.world, &mut gs.log, player, ppos);
                RunState::PlayerTurn
            },
            InputEvent::OpenInventory => RunState::ShowInventory,
            InputEvent::SkipTurn => {
                let player = gs.player;
                skip_turn(&mut gs.world, player)
            },
            InputEvent::Escape => RunState::SaveGame,
            InputEvent::Descend => {
                let ppos = gs.player_pos;
                if try_next_level(&gs.map, ppos, &mut gs.log) {
                    RunState::NextLevel
                } else {
                    // A failed descend still spends the turn.
                    RunState::PlayerTurn
                }
            },
            _ => RunState::AwaitingInput,
        },
    }
}

} // verus!
