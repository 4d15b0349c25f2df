//! Item pickup: moves an item from the world into a collector's backpack.
use vstd::prelude::*;
use crate::components::InBackpack;
use crate::damage_system::log_extended;
use crate::gamelog::{GameLog, LogEntry};
use crate::item_use_system::{item_exclusive, unique_equipped};
use crate::world::{Entity, Slot, World};

verus! {

/// Who ends up carrying the item in slot `k` after the intents of the
/// first `n` slots are processed: the last collector whose intent names
/// a live item in slot `k`.
pub open spec fn picked_by(w: Seq<Slot>, k: int, n: int) -> Option<Entity>
    decreases n,
{
    if n <= 0 {
        None
    } else {
        let s = w[n - 1];
        if s.alive && (s.wants_to_pickup_item matches Some(p) && p.item.idx == k && p.item.idx
            < w.len() && w[p.item.idx as int].alive && w[p.item.idx as int].gen == p.item.gen) {
            Some(s.wants_to_pickup_item->Some_0.collected_by)
        } else {
            picked_by(w, k, n - 1)
        }
    }
}

/// Processes every pickup intent: the item loses its world position and
/// gains a backpack relation to its collector; intents are removed.
pub fn inventory(world: &mut World, log: &mut GameLog, player: Entity)
    ensures
        final(world)@.len() == old(world)@.len(),
        forall|k: int| #![trigger final(world)@[k]] 0 <= k < old(world)@.len()
            ==> final(world)@[k] == (Slot {
            wants_to_pickup_item: if old(world)@[k].alive {
                None
            } else {
                old(world)@[k].wants_to_pickup_item
            },
            in_backpack: match picked_by(old(world)@, k, old(world)@.len() as int) {
                Some(c) => Some(InBackpack { owner: c }),
                None => old(world)@[k].in_backpack,
            },
            position: if picked_by(old(world)@, k, old(world)@.len() as int) is Some {
                None
            } else {
                old(world)@[k].position
            },
            equipped: if picked_by(old(world)@, k, old(world)@.len() as int) is Some {
                None
            } else {
                old(world)@[k].equipped
            },
            ..old(world)@[k]
        }),
        item_exclusive(old(world)@) ==> item_exclusive(final(world)@),
        unique_equipped(old(world)@) ==> unique_equipped(final(world)@),
        log_extended(*old(log), *final(log)),
{
    let ghost w0 = old(world)@;
    let n = world.slots.len();
    let mut i: usize = 0;
    while i < n
        invariant
            n == world@.len(),
            n == w0.len(),
            w0 == old(world)@,
            i <= n,
            forall|k: int| #![trigger world@[k]] 0 <= k < n ==> world@[k] == (Slot {
                wants_to_pickup_item: if k < i && w0[k].alive {
                    None
                } else {
                    w0[k].wants_to_pickup_item
                },
                in_backpack: match picked_by(w0, k, i as int) {
                    Some(c) => Some(InBackpack { owner: c }),
                    None => w0[k].in_backpack,
                },
                position: if picked_by(w0, k, i as int) is Some {
                    None
                } else {
                    w0[k].position
                },
                equipped: if picked_by(w0, k, i as int) is Some {
                    None
                } else {
                    w0[k].equipped
                },
                ..w0[k]
            }),
            log_extended(*old(log), *log),
        decreases n - i,
    {
        let s = &world.slots[i];
        let intent = if s.alive {
            s.wants_to_pickup_item
        } else {
            None
        };
        match intent {
            None => {},
            Some(p) => {
                let item = p.item;
                if item.idx < n && world.slots[item.idx].alive && world.slots[item.idx].gen
                    == item.gen {
                    world.slots[item.idx].in_backpack = Some(InBackpack { owner: p.collected_by });
                    world.slots[item.idx].position = None;
                    world.slots[item.idx].equipped = None;
                    if p.collected_by == player {
                        match &world.slots[item.idx].name {
                            Some(nm) => {
                                let text = nm.name.clone();
                                log.push(LogEntry::PickedUp { item: text });
                            },
                            None => {},
                        }
                    }
                }
                world.slots[i].wants_to_pickup_item = None;
            },
        }
        i += 1;
    }
}

} // verus!
