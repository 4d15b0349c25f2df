//! Item dropping: moves an item from a backpack onto the dropper's tile.
use vstd::prelude::*;
use crate::components::Position;
use crate::damage_system::log_extended;
use crate::gamelog::{GameLog, LogEntry};
use crate::item_use_system::{item_exclusive, unique_equipped};
use crate::world::{Slot, World};

verus! {

/// Where the item in slot `k` lands after the drop intents of the first
/// `n` slots are processed: the position of the last dropper whose
/// intent names a live item in slot `k` and who has a position to drop
/// at.
pub open spec fn dropped_at(w: Seq<Slot>, k: int, n: int) -> Option<Position>
    decreases n,
{
    if n <= 0 {
        None
    } else {
        let s = w[n - 1];
        if s.alive && s.position is Some && (s.wants_to_drop_item matches Some(d) && d.item.idx
            == k && d.item.idx < w.len() && w[d.item.idx as int].alive && w[d.item.idx as int].gen
            == d.item.gen) {
            Some(s.position->Some_0)
        } else {
            dropped_at(w, k, n - 1)
        }
    }
}

/// Processes every drop intent: the item leaves the dropper's backpack
/// and takes the dropper's current position; intents are removed.
pub fn drop_item(world: &mut World, log: &mut GameLog, player: crate::world::Entity)
    ensures
        final(world)@.len() == old(world)@.len(),
        forall|k: int| #![trigger final(world)@[k]] 0 <= k < old(world)@.len()
            ==> final(world)@[k] == (Slot {
            wants_to_drop_item: if old(world)@[k].alive {
                None
            } else {
                old(world)@[k].wants_to_drop_item
            },
            in_backpack: if dropped_at(old(world)@, k, old(world)@.len() as int) is Some {
                None
            } else {
                old(world)@[k].in_backpack
            },
            position: match dropped_at(old(world)@, k, old(world)@.len() as int) {
                Some(p) => Some(p),
                None => old(world)@[k].position,
            },
            equipped: if dropped_at(old(world)@, k, old(world)@.len() as int) is Some {
                None
            } else {
                old(world)@[k].equipped
            },
            ..old(world)@[k]
        }),
        item_exclusive(old(world)@) ==> item_exclusive(final(world)@),
        unique_equipped(old(world)@) ==> unique_equipped(final(world)@),
        log_extended(*old(log), *final(log)),
{
    let ghost w0 = old(world)@;
    let n = world.slots.len();
    // Positions as they stand when the pass begins; every drop lands at
    // the dropper's position from this snapshot.
    let mut positions: Vec<Option<Position>> = Vec::new();
    let mut i: usize = 0;
    while i < n
        invariant
            n == world@.len(),
            n == w0.len(),
            w0 == old(world)@,
            *world == *old(world),
            i <= n,
            positions@.len() == i,
            forall|k: int| 0 <= k < i ==> positions@[k] == w0[k].position,
        decreases n - i,
    {
        positions.push(world.slots[i].position);
        i += 1;
    }
    let mut i: usize = 0;
    while i < n
        invariant
            n == world@.len(),
            n == w0.len(),
            w0 == old(world)@,
            i <= n,
            positions@.len() == n,
            forall|k: int| 0 <= k < n ==> positions@[k] == w0[k].position,
            forall|k: int| #![trigger world@[k]] 0 <= k < n ==> world@[k] == (Slot {
                wants_to_drop_item: if k < i && w0[k].alive {
                    None
                } else {
                    w0[k].wants_to_drop_item
                },
                in_backpack: if dropped_at(w0, k, i as int) is Some {
                    None
                } else {
                    w0[k].in_backpack
                },
                position: match dropped_at(w0, k, i as int) {
                    Some(p) => Some(p),
                    None => w0[k].position,
                },
                equipped: if dropped_at(w0, k, i as int) is Some {
                    None
                } else {
                    w0[k].equipped
                },
                ..w0[k]
            }),
            log_extended(*old(log), *log),
        decreases n - i,
    {
        let s = &world.slots[i];
        let intent = if s.alive {
            s.wants_to_drop_item
        } else {
            None
        };
        let dropper_pos = positions[i];
        match intent {
            None => {},
            Some(d) => {
                let item = d.item;
                match dropper_pos {
                    None => {},
                    Some(pos) => {
                        if item.idx < n && world.slots[item.idx].alive && world.slots[item.idx].gen
                            == item.gen {
                            world.slots[item.idx].in_backpack = None;
                            world.slots[item.idx].position = Some(pos);
                            world.slots[item.idx].equipped = None;
                            if i == player.idx && world.slots[i].gen == player.gen {
                                match &world.slots[item.idx].name {
                                    Some(nm) => {
                                        let text = nm.name.clone();
                                        log.push(LogEntry::Dropped { item: text });
                                    },
                                    None => {},
                                }
                            }
                        }
                    },
                }
                world.slots[i].wants_to_drop_item = None;
            },
        }
        i += 1;
    }
}

} // verus!
