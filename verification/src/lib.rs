//! A turn-based dungeon-crawl simulation core: the entity/component world,
//! the per-turn command-resolution pipeline, procedural dungeon generation,
//! and the visibility and pathfinding services the simulation depends on.
//!
//! The front end owns drawing and raw input; it hands the controller one
//! abstract input event per tick and renders the state it gets back.
pub mod components;
pub mod world;
pub mod rect;
pub mod map;
pub mod reachability;
pub mod rng;
pub mod gamelog;
pub mod weighted_table;
pub mod spawner;
pub mod damage_system;
pub mod melee_combat_system;
pub mod inventory_system;
pub mod drop_item_system;
pub mod unequip_item_system;
pub mod map_indexing_system;
pub mod fov;
pub mod visibility_system;
pub mod pathfinding;
pub mod item_use_system;
pub mod gui;
pub mod map_builders;
pub mod player;
pub mod monster_ai_system;
pub mod laws;

use vstd::prelude::*;
use crate::components::{Point, Position, Rgb, WantsToDropItem, WantsToUnequipItem,
    WantsToUseItem};
use crate::damage_system::log_extended;
use crate::gamelog::{GameLog, LogEntry};
use crate::gui::{GameOverResult, ItemActionSelection, ItemMenuResult, MainMenuResult,
    MainMenuSelection};
use crate::item_use_system::{item_exclusive, unique_equipped};
use crate::map::GameMap;
use crate::map_builders::{MapBuilder, random_builder};
use crate::player::InputEvent;
use crate::rng::Rng;
use crate::world::{bump_gen, empty_slot, Entity, Slot, World, slot_handle};

verus! {

/// The fixed palette the front end draws with; not gameplay-relevant.
pub struct Palette {}

impl Palette {
    pub fn main_bg() -> (c: Rgb)
        ensures
            c == (Rgb { r: 0, g: 0, b: 0 }),
    {
        Rgb { r: 0, g: 0, b: 0 }
    }

    pub fn main_fg() -> (c: Rgb)
        ensures
            c == (Rgb { r: 0, g: 204, b: 204 }),
    {
        Rgb { r: 0, g: 204, b: 204 }
    }
}

/// The finite-state controller sequencing input, player and monster
/// turns, menus and level transitions.
#[derive(Clone, Copy, PartialEq, Eq, Structural, Debug)]
pub enum RunState {
    AwaitingInput,
    PreRun,
    PlayerTurn,
    MonsterTurn,
    ShowInventory,
    ShowItemActions { item: Entity },
    ShowTargeting { range: i32, item: Entity },
    MainMenu { menu_selection: MainMenuSelection },
    SaveGame,
    NextLevel,
    GameOver,
}

/// The whole simulation: the entity store, the current level, the run
/// state, the player handle and mirrored position, the log, and the
/// random source.
pub struct State {
    pub world: World,
    pub map: GameMap,
    pub run_state: RunState,
    pub player: Entity,
    pub player_pos: Point,
    pub log: GameLog,
    pub rng: Rng,
}

impl State {
    /// The store and map are well-formed, the player handle is live and
    /// marked as the player, and the level depth stays in builder range.
    pub open spec fn wf(self) -> bool {
        &&& self.world.wf()
        &&& self.map.wf()
        &&& self.world.valid(self.player)
        &&& self.world@[self.player.idx as int].player is Some
        &&& self.world@[self.player.idx as int].item is None
        &&& 1 <= self.map.depth <= 0x0100_0000
    }

    /// A fresh game: a generated first level, the player at the first
    /// room's center, monsters and items spawned, the main menu showing.
    pub fn new(seed: u64) -> (gs: State)
        ensures
            gs.wf(),
            gs.run_state == (RunState::MainMenu { menu_selection: MainMenuSelection::NewGame }),
            gs.map.depth == 1,
            item_exclusive(gs.world@),
            unique_equipped(gs.world@),
            crate::map_builders::simple_map::centers_connected(gs.map),
            gs.map.rooms@.len() >= 1,
            gs.player_pos == (Point {
                x: gs.map.rooms@[0].spec_center().0 as i32,
                y: gs.map.rooms@[0].spec_center().1 as i32,
            }),
            gs.world@[gs.player.idx as int].position == Some(
                Position { x: gs.player_pos.x, y: gs.player_pos.y },
            ),
    {
        let mut rng = Rng::new(seed);
        let mut builder = random_builder(1);
        builder.build_map(&mut rng);
        let start_pos = builder.get_starting_position();

        let mut world = World::new();
        let player = crate::spawner::player(&mut world, (start_pos.x, start_pos.y));
        builder.spawn_entities(&mut world, &mut rng);
        let map = builder.get_map();

        let mut log = GameLog::new();
        log.push(LogEntry::Welcome);

        State {
            world,
            map,
            run_state: RunState::MainMenu { menu_selection: MainMenuSelection::NewGame },
            player,
            player_pos: Point { x: start_pos.x, y: start_pos.y },
            log,
            rng,
        }
    }

    /// One full pipeline pass in the fixed order: visibility, monster
    /// decisions, spatial indexing, melee, pickups, drops, unequips,
    /// item uses, then damage application. Item exclusivity and unique
    /// equipment survive the whole pass.
    #[verifier::rlimit(100)]
    #[verifier::spinoff_prover]
    pub fn run_systems(&mut self)
        requires
            old(self).wf(),
        ensures
            final(self).wf(),
            final(self).player == old(self).player,
            final(self).run_state == old(self).run_state,
            final(self).map.depth == old(self).map.depth,
            final(self).world@.len() == old(self).world@.len(),
            item_exclusive(old(self).world@) ==> item_exclusive(final(self).world@),
            unique_equipped(old(self).world@) ==> unique_equipped(final(self).world@),
            forall|i: int| #![trigger final(self).world@[i]] 0 <= i < final(self).world@.len()
                && final(self).world@[i].alive ==> final(self).world@[i].wants_to_use_item is None
                && final(self).world@[i].wants_to_pickup_item is None
                && final(self).world@[i].wants_to_drop_item is None
                && final(self).world@[i].wants_to_unequip_item is None,
            forall|i: int| #![trigger final(self).world@[i]] 0 <= i < final(self).world@.len()
                && final(self).world@[i].alive && final(self).world@[i].name is Some
                && final(self).world@[i].combat_stats is Some
                ==> final(self).world@[i].wants_to_attack is None,
            forall|i: int| #![trigger final(self).world@[i]] 0 <= i < final(self).world@.len()
                && final(self).world@[i].alive && final(self).world@[i].combat_stats is Some
                ==> crate::world::pending_damage(final(self).world@[i]).len() == 0,
            log_extended(old(self).log, final(self).log),
    {
        let player = self.player;
        let ghost w0 = self.world@;
        crate::visibility_system::visibility(&mut self.world, &mut self.map, player);
        proof {
            let w1 = self.world@;
            assert forall|i: int| #![trigger w1[i]]
                0 <= i < w1.len() && w1[i].alive && w1[i].item is Some && item_exclusive(w0)
                implies !(w1[i].in_backpack is Some && w1[i].equipped is Some) && !(
            w1[i].in_backpack is Some && w1[i].position is Some) && !(w1[i].equipped is Some
                && w1[i].position is Some) by {}
            assert(item_exclusive(w0) ==> item_exclusive(w1));
            assert forall|i: int, j: int| #![trigger w1[i].equipped, w1[j].equipped]
                0 <= i < w1.len() && 0 <= j < w1.len() && i != j && w1[i].alive && w1[j].alive && (
            w1[i].equipped matches Some(a) && (w1[j].equipped matches Some(b) && a.owner == b.owner
                && a.slot == b.slot)) && unique_equipped(w0) implies false by {}
        }
        let ghost w1 = self.world@;
        let run_state = self.run_state;
        let ppos = Position { x: self.player_pos.x, y: self.player_pos.y };
        crate::monster_ai_system::monster_ai(
            &mut self.world,
            &mut self.map,
            &run_state,
            player,
            ppos,
        );
        let ghost mid_map = self.map;
        proof {
            let w2 = self.world@;
            assert forall|i: int| #![trigger w2[i]]
                0 <= i < w2.len() && w2[i].alive && w2[i].item is Some && item_exclusive(w1)
                implies !(w2[i].in_backpack is Some && w2[i].equipped is Some) && !(
            w2[i].in_backpack is Some && w2[i].position is Some) && !(w2[i].equipped is Some
                && w2[i].position is Some) by {
                if run_state == RunState::MonsterTurn {
                    assert(crate::monster_ai_system::ai_step(
                        w1[i],
                        w2[i],
                        player,
                        ppos,
                        mid_map.width as int,
                        mid_map.height as int,
                    ));
                } else {
                    assert(w2[i] == w1[i]);
                }
            }
            assert(item_exclusive(w1) ==> item_exclusive(w2));
            assert forall|i: int, j: int| #![trigger w2[i].equipped, w2[j].equipped]
                0 <= i < w2.len() && 0 <= j < w2.len() && i != j && w2[i].alive && w2[j].alive && (
            w2[i].equipped matches Some(a) && (w2[j].equipped matches Some(b) && a.owner == b.owner
                && a.slot == b.slot)) && unique_equipped(w1) implies false by {
                if run_state == RunState::MonsterTurn {
                    assert(crate::monster_ai_system::ai_step(
                        w1[i],
                        w2[i],
                        player,
                        ppos,
                        mid_map.width as int,
                        mid_map.height as int,
                    ));
                    assert(crate::monster_ai_system::ai_step(
                        w1[j],
                        w2[j],
                        player,
                        ppos,
                        mid_map.width as int,
                        mid_map.height as int,
                    ));
                } else {
                    assert(w2[i] == w1[i] && w2[j] == w1[j]);
                }
            }
        }
        let ghost w2 = self.world@;
        crate::map_indexing_system::map_indexing(&self.world, &mut self.map);
        crate::melee_combat_system::melee_combat(&mut self.world, &mut self.log);
        proof {
            let w3 = self.world@;
            assert forall|i: int| #![trigger w3[i]]
                0 <= i < w3.len() && w3[i].alive && w3[i].item is Some && item_exclusive(w2)
                implies !(w3[i].in_backpack is Some && w3[i].equipped is Some) && !(
            w3[i].in_backpack is Some && w3[i].position is Some) && !(w3[i].equipped is Some
                && w3[i].position is Some) by {}
            assert(item_exclusive(w2) ==> item_exclusive(w3));
            assert forall|i: int, j: int| #![trigger w3[i].equipped, w3[j].equipped]
                0 <= i < w3.len() && 0 <= j < w3.len() && i != j && w3[i].alive && w3[j].alive && (
            w3[i].equipped matches Some(a) && (w3[j].equipped matches Some(b) && a.owner == b.owner
                && a.slot == b.slot)) && unique_equipped(w2) implies false by {}
        }
        let ghost w3 = self.world@;
        crate::inventory_system::inventory(&mut self.world, &mut self.log, player);
        let ghost w4 = self.world@;
        crate::drop_item_system::drop_item(&mut self.world, &mut self.log, player);
        let ghost w5 = self.world@;
        crate::unequip_item_system::unequip_item(&mut self.world, &mut self.log, player);
        let ghost w6 = self.world@;
        crate::item_use_system::item_use(&mut self.world, &self.map, &mut self.log, player);
        let ghost w7 = self.world@;
        crate::damage_system::damage(&mut self.world);
        proof {
            let w8 = self.world@;
            assert forall|i: int| #![trigger w8[i]]
                0 <= i < w8.len() && w8[i].alive && w8[i].item is Some && item_exclusive(w7)
                implies !(w8[i].in_backpack is Some && w8[i].equipped is Some) && !(
            w8[i].in_backpack is Some && w8[i].position is Some) && !(w8[i].equipped is Some
                && w8[i].position is Some) by {}
            assert(item_exclusive(w7) ==> item_exclusive(w8));
            assert forall|i: int, j: int| #![trigger w8[i].equipped, w8[j].equipped]
                0 <= i < w8.len() && 0 <= j < w8.len() && i != j && w8[i].alive && w8[j].alive && (
            w8[i].equipped matches Some(a) && (w8[j].equipped matches Some(b) && a.owner == b.owner
                && a.slot == b.slot)) && unique_equipped(w7) implies false by {}
            // After the pass no live entity still holds an intent, and no
            // live combatant carries unapplied damage.
            assert forall|i: int| #![trigger w8[i]] 0 <= i < w8.len() && w8[i].alive
                implies w8[i].wants_to_use_item is None && w8[i].wants_to_pickup_item is None
                && w8[i].wants_to_drop_item is None && w8[i].wants_to_unequip_item is None by {
                assert(crate::item_use_system::item_use_step(w6[i], w7[i]));
            }
            assert forall|i: int| #![trigger w8[i]] 0 <= i < w8.len() && w8[i].alive && w8[i].name
                is Some && w8[i].combat_stats is Some implies w8[i].wants_to_attack is None by {
                assert(crate::item_use_system::item_use_step(w6[i], w7[i]));
                assert(crate::melee_combat_system::melee_attacker(w2, i) ==> w3[i].wants_to_attack
                    is None);
            }
            assert forall|i: int| #![trigger w8[i]] 0 <= i < w8.len() && w8[i].alive && w8[i].combat_stats
                is Some implies crate::world::pending_damage(w8[i]).len() == 0 by {}
        }
    }

    /// The live entity in slot `i` stays across a level change: the
    /// player itself, or anything the player carries or wears.
    pub open spec fn persists(w: Seq<Slot>, i: int, player: Entity) -> bool {
        ||| w[i].player is Some
        ||| (w[i].in_backpack matches Some(b) && b.owner == player)
        ||| (w[i].equipped matches Some(eq) && eq.owner == player)
    }

    /// Everything the level change leaves behind: all live entities
    /// other than the player and what it carries or wears.
    pub fn entities_to_delete_on_level_change(&mut self) -> (r: Vec<Entity>)
        ensures
            *final(self) == *old(self),
            forall|k: int| #![trigger r@[k]] 0 <= k < r@.len() ==> old(self).world.valid(r@[k])
                && !State::persists(old(self).world@, r@[k].idx as int, old(self).player),
            forall|i: int| 0 <= i < old(self).world@.len() && (#[trigger] old(
                self,
            ).world@[i]).alive && !State::persists(old(self).world@, i, old(self).player)
                ==> exists|k: int|
                0 <= k < r@.len() && r@[k] == slot_handle(old(self).world@, i),
    {
        let player = self.player;
        let mut r: Vec<Entity> = Vec::new();
        let n = self.world.slots.len();
        let mut i: usize = 0;
        while i < n
            invariant
                *self == *old(self),
                n == self.world@.len(),
                i <= n,
                forall|k: int| #![trigger r@[k]] 0 <= k < r@.len() ==> self.world.valid(r@[k])
                    && !State::persists(self.world@, r@[k].idx as int, player),
                player == self.player,
                forall|q: int| 0 <= q < i && (#[trigger] self.world@[q]).alive && !State::persists(
                    self.world@,
                    q,
                    player,
                ) ==> exists|k: int| 0 <= k < r@.len() && r@[k] == slot_handle(self.world@, q),
            decreases n - i,
        {
            let s = &self.world.slots[i];
            let keep: bool = s.player.is_some() || match &s.in_backpack {
                Some(b) => b.owner == player,
                None => false,
            } || match &s.equipped {
                Some(eq) => eq.owner == player,
                None => false,
            };
            let ghost r_pre = r@;
            if s.alive && !keep {
                let gen = s.gen;
                r.push(Entity { idx: i, gen });
                proof {
                    assert(r@[r@.len() - 1] == slot_handle(self.world@, i as int));
                }
            }
            proof {
                assert forall|q: int|
                    0 <= q < i + 1 && (#[trigger] self.world@[q]).alive && !State::persists(
                        self.world@,
                        q,
                        player,
                    ) implies exists|k: int|
                    0 <= k < r@.len() && r@[k] == slot_handle(self.world@, q) by {
                    if q < i {
                        let k = choose|k: int|
                            0 <= k < r_pre.len() && r_pre[k] == slot_handle(self.world@, q);
                        assert(r@[k] == slot_handle(self.world@, q));
                    } else {
                        assert(r@[r@.len() - 1] == slot_handle(self.world@, q));
                    }
                }
            }
            i += 1;
        }
        r
    }

    /// Builds the next level one deeper, despawns everything that does
    /// not travel with the player, spawns the new level's population and
    /// moves the player to the new starting position.
    pub fn next_level(&mut self)
        requires
            old(self).wf(),
            old(self).map.depth < 0x0100_0000,
        ensures
            final(self).wf(),
            final(self).player == old(self).player,
            final(self).run_state == old(self).run_state,
            final(self).map.depth == old(self).map.depth + 1,
            final(self).map.rooms@.len() >= 1,
            crate::map_builders::simple_map::centers_connected(final(self).map),
            // The previous level's population is swept: every live entity
            // that does not travel with the player loses its handle (the
            // one slot whose generation counter is saturated aside).
            forall|i: int| #![trigger old(self).world@[i]]
                0 <= i < old(self).world@.len() && old(self).world@[i].alive && !State::persists(
                    old(self).world@,
                    i,
                    old(self).player,
                ) && old(self).world@[i].gen < u64::MAX ==> !final(self).world.valid(
                    slot_handle(old(self).world@, i),
                ),
            // The player and whatever it carries or wears survive intact.
            forall|i: int| #![trigger old(self).world@[i]]
                0 <= i < old(self).world@.len() && old(self).world@[i].alive && State::persists(
                    old(self).world@,
                    i,
                    old(self).player,
                ) && i != old(self).player.idx ==> final(self).world@[i] == old(self).world@[i],
            // The player enters at the new level's first-room center, the
            // mirrored position agrees, and its sight is marked stale.
            final(self).player_pos == (Point {
                x: final(self).map.rooms@[0].spec_center().0 as i32,
                y: final(self).map.rooms@[0].spec_center().1 as i32,
            }),
            final(self).world@[final(self).player.idx as int].position == Some(
                Position { x: final(self).player_pos.x, y: final(self).player_pos.y },
            ),
            old(self).world@[old(self).player.idx as int].viewshed is Some
                ==> (final(self).world@[final(self).player.idx as int].viewshed matches Some(v2)
                && v2.dirty),
            item_exclusive(old(self).world@) ==> item_exclusive(final(self).world@),
            unique_equipped(old(self).world@) ==> unique_equipped(final(self).world@),
            log_extended(old(self).log, final(self).log),
    {
        let to_delete = self.entities_to_delete_on_level_change();
        let nd = to_delete.len();
        let mut k: usize = 0;
        while k < nd
            invariant
                nd == to_delete@.len(),
                self.world@.len() == old(self).world@.len(),
                self.world.wf(),
                k <= nd,
                self.world.valid(self.player),
                self.world@[self.player.idx as int].player is Some,
                *self == (State { world: self.world, ..*old(self) }),
                forall|q: int| #![trigger to_delete@[q]] 0 <= q < nd ==> !State::persists(
                    old(self).world@,
                    to_delete@[q].idx as int,
                    old(self).player,
                ) && old(self).world.valid(to_delete@[q]),
                forall|i: int| #![trigger self.world@[i]] 0 <= i < old(self).world@.len()
                    ==> self.world@[i] == old(self).world@[i] || self.world@[i] == empty_slot(
                    bump_gen(old(self).world@[i].gen),
                    false,
                ),
                forall|q: int| #![trigger to_delete@[q]] 0 <= q < k
                    ==> !self.world@[to_delete@[q].idx as int].alive
                    && self.world@[to_delete@[q].idx as int].gen == bump_gen(to_delete@[q].gen),
                forall|i: int| #![trigger old(self).world@[i]]
                    0 <= i < old(self).world@.len() && State::persists(
                        old(self).world@,
                        i,
                        old(self).player,
                    ) ==> self.world@[i] == old(self).world@[i],
                forall|i: int| 0 <= i < old(self).world@.len()
                    ==> (#[trigger] self.world@[i]).gen == old(self).world@[i].gen
                    || self.world@[i].gen == bump_gen(old(self).world@[i].gen),
                self.player == old(self).player,
                old(self).player.idx < old(self).world@.len(),
                old(self).world@[old(self).player.idx as int].player is Some,
                self.world@[self.player.idx as int].item is None,
                item_exclusive(old(self).world@) ==> item_exclusive(self.world@),
                unique_equipped(old(self).world@) ==> unique_equipped(self.world@),
            decreases nd - k,
        {
            let e = to_delete[k];
            proof {
                assert(old(self).world@[e.idx as int].player is None);
                assert(e.idx != self.player.idx);
            }
            let ghost w_pre = self.world@;
            self.world.despawn(e);
            proof {
                let w0 = old(self).world@;
                assert forall|q: int| #![trigger to_delete@[q]] 0 <= q < k + 1
                    implies !self.world@[to_delete@[q].idx as int].alive
                    && self.world@[to_delete@[q].idx as int].gen == bump_gen(to_delete@[q].gen)
                    by {
                    let ei = to_delete@[q].idx as int;
                    if q == k {
                        // The slot is either despawned now or was already
                        // swept through a duplicate handle.
                        if !(w_pre[ei].alive && w_pre[ei].gen == e.gen) {
                            assert(w_pre[ei] == w0[ei] || w_pre[ei] == empty_slot(
                                bump_gen(w0[ei].gen),
                                false,
                            ));
                            assert(w_pre[ei] != w0[ei]);
                        }
                    } else {
                        if ei == e.idx as int {
                            assert(to_delete@[q].gen == w0[ei].gen && e.gen == w0[ei].gen);
                        }
                    }
                }
            }
            k += 1;
        }

        let current_depth = self.map.depth;
        let mut builder = random_builder(current_depth + 1);
        builder.build_map(&mut self.rng);
        builder.spawn_entities(&mut self.world, &mut self.rng);
        let start_pos = builder.get_starting_position();
        self.map = builder.get_map();

        let ghost w_swept = self.world@;
        let player = self.player;
        let ghost w_b = self.world@;
        self.world.slots[player.idx].position = Some(
            Position { x: start_pos.x, y: start_pos.y },
        );
        match &mut self.world.slots[player.idx].viewshed {
            Some(v) => {
                v.dirty = true;
            },
            None => {},
        }
        proof {
            let w_c = self.world@;
            // Moving the player touches no item fields: exclusivity and
            // unique equipment carry over.
            assert forall|i: int| #![trigger w_c[i]]
                0 <= i < w_c.len() && w_c[i].alive && w_c[i].item is Some && item_exclusive(w_b)
                implies !(w_c[i].in_backpack is Some && w_c[i].equipped is Some) && !(
            w_c[i].in_backpack is Some && w_c[i].position is Some) && !(w_c[i].equipped is Some
                && w_c[i].position is Some) by {
                if i != player.idx {
                    assert(w_c[i] == w_b[i]);
                }
            }
            assert(item_exclusive(w_b) ==> item_exclusive(w_c));
            assert forall|i: int, j: int| #![trigger w_c[i].equipped, w_c[j].equipped]
                0 <= i < w_c.len() && 0 <= j < w_c.len() && i != j && w_c[i].alive && w_c[j].alive
                    && (w_c[i].equipped matches Some(a) && (w_c[j].equipped matches Some(b)
                    && a.owner == b.owner && a.slot == b.slot)) && unique_equipped(w_b)
                implies false by {
                assert(w_c[i].equipped == w_b[i].equipped && w_c[j].equipped == w_b[j].equipped);
                assert(w_c[i].alive == w_b[i].alive && w_c[j].alive == w_b[j].alive);
            }
        }
        self.player_pos = Point { x: start_pos.x, y: start_pos.y };
        self.log.push(LogEntry::Descended);
        proof {
            let w0 = old(self).world@;
            let w1 = self.world@;
            assert forall|i: int| #![trigger w0[i]]
                0 <= i < w0.len() && w0[i].alive && !State::persists(w0, i, old(self).player)
                    && w0[i].gen < u64::MAX implies !self.world.valid(slot_handle(w0, i)) by {
                let q = choose|q: int| 0 <= q < to_delete@.len() && to_delete@[q] == slot_handle(
                    w0,
                    i,
                );
                assert(w_swept[i].gen == bump_gen(w0[i].gen));
                assert(w1[i].gen == w_swept[i].gen);
                assert(w1[i].gen != w0[i].gen);
            }
        }
    }

    /// Clears the whole world, regenerates the first level and respawns
    /// the player: a fresh run after a game over.
    pub fn game_over_cleanup(&mut self)
        requires
            old(self).world.wf(),
            old(self).map.wf(),
        ensures
            final(self).wf(),
            final(self).map.depth == 1,
            final(self).run_state == old(self).run_state,
            item_exclusive(final(self).world@),
            unique_equipped(final(self).world@),
            final(self).world@[final(self).player.idx as int].position == Some(
                Position { x: final(self).player_pos.x, y: final(self).player_pos.y },
            ),
    {
        // Delete everything.
        let n = self.world.slots.len();
        let mut i: usize = 0;
        while i < n
            invariant
                n == self.world@.len(),
                self.world.wf(),
                i <= n,
                *self == (State { world: self.world, ..*old(self) }),
                forall|q: int| 0 <= q < i ==> !(#[trigger] self.world@[q]).alive,
            decreases n - i,
        {
            let gen = self.world.slots[i].gen;
            self.world.despawn(Entity { idx: i, gen });
            i += 1;
        }

        let mut builder = random_builder(1);
        builder.build_map(&mut self.rng);
        let start_pos = builder.get_starting_position();
        proof {
            if self.world@.len() > 0 {
                assert(!self.world@[0].alive);
            }
            assert(self.world.can_spawn());
        }
        let player = crate::spawner::player(&mut self.world, (start_pos.x, start_pos.y));
        builder.spawn_entities(&mut self.world, &mut self.rng);
        self.map = builder.get_map();
        self.player = player;
        self.player_pos = Point { x: start_pos.x, y: start_pos.y };
    }

    /// Drives the controller one tick: resolves the current run state
    /// with the given input, runs the pipeline where the state asks for
    /// it, and finishes with the unconditional death sweep, which turns
    /// a dead player into the game-over state. Returns whether the
    /// process should keep running; only an explicit exit from the main
    /// menu stops it.
    #[verifier::rlimit(100)]
    #[verifier::spinoff_prover]
    pub fn tick(&mut self, input: Option<InputEvent>) -> (keep_running: bool)
        requires
            old(self).wf(),
            old(self).map.depth < 0x0100_0000,
        ensures
            final(self).wf(),
            item_exclusive(old(self).world@) ==> item_exclusive(final(self).world@),
            unique_equipped(old(self).world@) ==> unique_equipped(final(self).world@),
            !keep_running ==> old(self).run_state matches RunState::MainMenu { .. },
            // The sweep ran: no live non-player combatant is out of hit
            // points, and a downed player forces the game-over state.
            forall|i: int| 0 <= i < final(self).world@.len() ==> !crate::damage_system::doomed(
                #[trigger] final(self).world@[i],
            ),
            (exists|i: int| 0 <= i < final(self).world@.len()
                && crate::damage_system::player_down(#[trigger] final(self).world@[i]))
                ==> final(self).run_state == RunState::GameOver,
            // Menu selections that spend the turn leave the matching
            // intent on the player.
            ({
                let item_actions = old(self).run_state matches RunState::ShowItemActions { .. };
                let pslot = final(self).world@[final(self).player.idx as int];
                (item_actions && final(self).run_state == RunState::PlayerTurn) ==> {
                    let item = old(self).run_state->ShowItemActions_item;
                    ||| pslot.wants_to_use_item == Some(WantsToUseItem { item, target: None })
                    ||| pslot.wants_to_drop_item == Some(WantsToDropItem { item })
                    ||| pslot.wants_to_unequip_item == Some(WantsToUnequipItem { item })
                }
            }),
            ({
                let targeting = old(self).run_state matches RunState::ShowTargeting { .. };
                let pslot = final(self).world@[final(self).player.idx as int];
                (targeting && final(self).run_state == RunState::PlayerTurn) ==> (
                pslot.wants_to_use_item matches Some(u) && u.item
                    == old(self).run_state->ShowTargeting_item && u.target is Some)
            }),
            // The item-action menu's selections, exactly: the primary
            // action on a carried ranged item opens targeting without an
            // intent; on a carried plain item it attaches the use intent;
            // on a worn item the unequip intent; the secondary action
            // attaches the drop intent. Each spent selection ends the
            // player's turn.
            ({
                let w0 = old(self).world@;
                let item = old(self).run_state->ShowItemActions_item;
                let pidx = old(self).player.idx as int;
                let pslot = final(self).world@[final(self).player.idx as int];
                let post = final(self).run_state;
                let carried = old(self).world.valid(item) && w0[item.idx as int].in_backpack
                    is Some;
                let worn = old(self).world.valid(item) && w0[item.idx as int].in_backpack is None
                    && w0[item.idx as int].equipped is Some;
                (old(self).run_state matches RunState::ShowItemActions { .. }) ==> {
                    &&& (input == Some(InputEvent::Primary) && carried && w0[item.idx as int].ranged
                        is Some) ==> (post == (RunState::ShowTargeting {
                        range: w0[item.idx as int].ranged->Some_0.range,
                        item,
                    }) || post == RunState::GameOver) && pslot.wants_to_use_item == w0[
                        pidx
                    ].wants_to_use_item
                    &&& (input == Some(InputEvent::Primary) && carried && w0[item.idx as int].ranged
                        is None) ==> (post == RunState::PlayerTurn || post == RunState::GameOver)
                        && pslot.wants_to_use_item == Some(WantsToUseItem { item, target: None })
                    &&& (input == Some(InputEvent::Primary) && !carried && worn) ==> (post
                        == RunState::PlayerTurn || post == RunState::GameOver)
                        && pslot.wants_to_unequip_item == Some(WantsToUnequipItem { item })
                    &&& input == Some(InputEvent::Secondary) ==> (post == RunState::PlayerTurn
                        || post == RunState::GameOver) && pslot.wants_to_drop_item == Some(
                        WantsToDropItem { item },
                    )
                }
            }),
            // The targeting overlay, exactly: a click on a visible point
            // in range attaches the aimed use intent and spends the turn;
            // an invalid click or escape cancels back to input.
            ({
                let w0 = old(self).world@;
                let item = old(self).run_state->ShowTargeting_item;
                let range = old(self).run_state->ShowTargeting_range;
                let pslot = final(self).world@[final(self).player.idx as int];
                let post = final(self).run_state;
                let aimable = old(self).world.valid(old(self).player) && w0[old(
                    self,
                ).player.idx as int].viewshed is Some;
                (old(self).run_state matches RunState::ShowTargeting { .. }) ==> {
                    &&& (forall|pt: Point| #![trigger crate::gui::player_sees(w0, old(self).player, pt)]
                        input == Some(InputEvent::Target(pt)) && aimable ==> if crate::gui::player_sees(
                            w0,
                            old(self).player,
                            pt,
                        ) && crate::gui::within_aim_range(old(self).player_pos, pt, range as int) {
                            (post == RunState::PlayerTurn || post == RunState::GameOver)
                                && pslot.wants_to_use_item == Some(
                                WantsToUseItem { item, target: Some(pt) },
                            )
                        } else {
                            post == RunState::AwaitingInput || post == RunState::GameOver
                        })
                    &&& (input == Some(InputEvent::Escape) && aimable) ==> (post
                        == RunState::AwaitingInput || post == RunState::GameOver)
                }
            }),
            ({
                let pre = old(self).run_state;
                let post = final(self).run_state;
                let died = post == RunState::GameOver && exists|i: int|
                    0 <= i < final(self).world@.len() && crate::damage_system::player_down(
                        #[trigger] final(self).world@[i],
                    );
                match pre {
                    RunState::PreRun => post == RunState::AwaitingInput || died,
                    RunState::AwaitingInput => post == RunState::AwaitingInput || post
                        == RunState::PlayerTurn || post == RunState::ShowInventory || post
                        == RunState::SaveGame || post == RunState::NextLevel || died,
                    RunState::PlayerTurn => post == RunState::MonsterTurn || died,
                    RunState::MonsterTurn => post == RunState::AwaitingInput || died,
                    RunState::ShowInventory => post == RunState::ShowInventory || post
                        == RunState::AwaitingInput || (post matches RunState::ShowItemActions {
                        ..
                    }) || died,
                    RunState::ShowItemActions { .. } => (post matches RunState::ShowItemActions {
                        ..
                    }) || (post matches RunState::ShowTargeting { .. }) || post
                        == RunState::PlayerTurn || post == RunState::ShowInventory || died,
                    RunState::ShowTargeting { .. } => (post matches RunState::ShowTargeting {
                        ..
                    }) || post == RunState::AwaitingInput || post == RunState::PlayerTurn || died,
                    RunState::MainMenu { .. } => (post matches RunState::MainMenu { .. }) || post
                        == RunState::PreRun || died,
                    RunState::SaveGame => (post matches RunState::MainMenu { .. }) || died,
                    RunState::NextLevel => post == RunState::PreRun || died,
                    RunState::GameOver => post == RunState::GameOver || (post
                        matches RunState::MainMenu { .. }) || died,
                }
            }),
    {
        let mut keep_running = true;
        let mut new_runstate = self.run_state;

        match new_runstate {
            RunState::PreRun => {
                self.run_systems();
                new_runstate = RunState::AwaitingInput;
            },
            RunState::AwaitingInput => {
                new_runstate = crate::player::player_input(self, input);
            },
            RunState::PlayerTurn => {
                self.run_systems();
                new_runstate = RunState::MonsterTurn;
            },
            RunState::MonsterTurn => {
                self.run_systems();
                new_runstate = RunState::AwaitingInput;
            },
            RunState::ShowInventory => {
                let player = self.player;
                let result = crate::gui::show_inventory(&mut self.world, player, input);
                match result.0 {
                    ItemMenuResult::NoResponse => {},
                    ItemMenuResult::Cancel => {
                        new_runstate = RunState::AwaitingInput;
                    },
                    ItemMenuResult::Selected => {
                        new_runstate = RunState::ShowItemActions { item: result.1.unwrap() };
                    },
                }
            },
            RunState::ShowItemActions { item } => {
                let result = crate::gui::show_item_actions(&mut self.world, item, input);
                match result {
                    ItemActionSelection::NoSelection => {},
                    ItemActionSelection::Used => {
                        let ranged = if self.world.is_valid(item) {
                            self.world.slots[item.idx].ranged
                        } else {
                            None
                        };
                        match ranged {
                            Some(rg) => {
                                new_runstate = RunState::ShowTargeting { range: rg.range, item };
                            },
                            None => {
                                let player = self.player;
                                self.world.slots[player.idx].wants_to_use_item = Some(
                                    WantsToUseItem { item, target: None },
                                );
                                new_runstate = RunState::PlayerTurn;
                            },
                        }
                    },
                    ItemActionSelection::Dropped => {
                        let player = self.player;
                        self.world.slots[player.idx].wants_to_drop_item = Some(
                            WantsToDropItem { item },
                        );
                        new_runstate = RunState::PlayerTurn;
                    },
                    ItemActionSelection::Unequipped => {
                        let player = self.player;
                        self.world.slots[player.idx].wants_to_unequip_item = Some(
                            WantsToUnequipItem { item },
                        );
                        new_runstate = RunState::PlayerTurn;
                    },
                    ItemActionSelection::Cancel => {
                        new_runstate = RunState::ShowInventory;
                    },
                }
            },
            RunState::ShowTargeting { range, item } => {
                let player = self.player;
                let ppos = self.player_pos;
                let res = crate::gui::ranged_target(&mut self.world, player, ppos, range, input);
                match res.0 {
                    ItemMenuResult::Cancel => {
                        new_runstate = RunState::AwaitingInput;
                    },
                    ItemMenuResult::NoResponse => {},
                    ItemMenuResult::Selected => {
                        self.world.slots[player.idx].wants_to_use_item = Some(
                            WantsToUseItem { item, target: res.1 },
                        );
                        new_runstate = RunState::PlayerTurn;
                    },
                }
            },
            RunState::MainMenu { menu_selection } => {
                let result = crate::gui::main_menu(menu_selection, input);
                match result {
                    MainMenuResult::NoSelection { selected } => {
                        new_runstate = RunState::MainMenu { menu_selection: selected };
                    },
                    MainMenuResult::Selection { selected } => match selected {
                        MainMenuSelection::NewGame => {
                            new_runstate = RunState::PreRun;
                        },
                        MainMenuSelection::LoadGame => {
                            new_runstate = RunState::PreRun;
                        },
                        MainMenuSelection::Exit => {
                            keep_running = false;
                        },
                    },
                }
            },
            RunState::SaveGame => {
                // Persistence is an external collaborator; nothing is
                // written from the core.
                new_runstate = RunState::MainMenu {
                    menu_selection: MainMenuSelection::LoadGame,
                };
            },
            RunState::NextLevel => {
                self.next_level();
                new_runstate = RunState::PreRun;
            },
            RunState::GameOver => {
                let result = crate::gui::game_over(input);
                match result {
                    GameOverResult::NoSelection => {},
                    GameOverResult::QuitToMenu => {
                        self.game_over_cleanup();
                        new_runstate = RunState::MainMenu {
                            menu_selection: MainMenuSelection::NewGame,
                        };
                    },
                }
            },
        }

        self.run_state = new_runstate;

        // The death sweep runs unconditionally, every tick.
        let ghost w_pre = self.world@;
        let player_died = crate::damage_system::delete_the_dead(&mut self.world, &mut self.log);
        if player_died {
            self.run_state = RunState::GameOver;
            proof {
                let i = choose|i: int|
                    0 <= i < w_pre.len() && crate::damage_system::player_down(w_pre[i]);
                assert(!crate::damage_system::doomed(w_pre[i]));
                assert(self.world@[i] == w_pre[i]);
                assert(crate::damage_system::player_down(self.world@[i]));
            }
        }
        keep_running
    }
}

} // verus!
