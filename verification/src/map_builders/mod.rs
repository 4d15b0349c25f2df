//! Map-generation strategies behind a common builder interface.
//!
//! A strategy is prepared with a depth, asked to build, then queried for
//! the finished map and the player's starting position. The interface is
//! swappable: the contract every strategy must meet is stated on the
//! trait itself, so callers depend only on it.
pub mod common;
pub mod simple_map;

use vstd::prelude::*;
use crate::components::Position;
use crate::map::GameMap;
use crate::rng::Rng;
use crate::item_use_system::{item_exclusive, unique_equipped};
use crate::world::{World, live_slots_preserved};
use self::simple_map::SimpleMapBuilder;

verus! {

pub trait MapBuilder: Sized {
    /// The strategy holds a fresh, unbuilt level.
    spec fn builder_ready(&self) -> bool;

    /// The strategy's own guarantee about the level it produced; for
    /// every strategy it implies a well-formed map with at least one
    /// room reachable from the starting position.
    spec fn built(&self) -> bool;

    /// The finished map as the builder currently holds it.
    spec fn spec_map(&self) -> GameMap;

    /// Where the player should enter the level.
    spec fn spec_starting_position(&self) -> Position;

    fn build_map(&mut self, rng: &mut Rng)
        requires
            old(self).builder_ready(),
        ensures
            final(self).built(),
            final(self).spec_map().depth == old(self).spec_map().depth,
    ;

    /// Populates the built level with monsters and items.
    fn spawn_entities(&mut self, world: &mut World, rng: &mut Rng)
        requires
            old(self).built(),
            old(world).wf(),
        ensures
            final(world).wf(),
            live_slots_preserved(*old(world), *final(world)),
            // Whatever was rolled: anything newly alive is a monster or
            // an item standing inside one of the level's rooms.
            forall|i: int| 0 <= i < final(world)@.len() && (#[trigger] final(world)@[i]).alive
                ==> (i < old(world)@.len() && old(world)@[i].alive && final(world)@[i] == old(
                world,
            )@[i]) || exists|k: int|
                1 <= k < old(self).spec_map().rooms@.len() && crate::spawner::room_spawn_ok(
                    final(world)@[i],
                    old(self).spec_map().rooms@[k],
                ),
            item_exclusive(old(world)@) ==> item_exclusive(final(world)@),
            unique_equipped(old(world)@) ==> unique_equipped(final(world)@),
            *final(self) == *old(self),
    ;

    /// Takes the finished map out of the builder.
    fn get_map(&mut self) -> (m: GameMap)
        requires
            old(self).built(),
        ensures
            m == old(self).spec_map(),
            m.wf(),
    ;

    fn get_starting_position(&mut self) -> (p: Position)
        ensures
            p == old(self).spec_starting_position(),
            *final(self) == *old(self),
    ;

    /// The intermediate snapshots recorded for the reveal animation.
    fn get_map_history(&self) -> Vec<GameMap>;
}

/// The generation strategy used for a new level at `new_depth`.
pub fn random_builder(new_depth: i32) -> (b: SimpleMapBuilder)
    requires
        1 <= new_depth <= 0x0100_0000,
    ensures
        b.builder_ready(),
        b.depth == new_depth,
        b.map.depth == new_depth,
{
    SimpleMapBuilder::new(new_depth)
}

} // verus!
