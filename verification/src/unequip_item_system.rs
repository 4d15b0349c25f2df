//! Unequipping: moves an item from an equipment slot back to the
//! backpack of whoever wore it.
use vstd::prelude::*;
use crate::components::InBackpack;
use crate::damage_system::log_extended;
use crate::gamelog::{GameLog, LogEntry};
use crate::item_use_system::{item_exclusive, unique_equipped};
use crate::world::{Entity, Slot, World};

verus! {

/// Some live entity among the first `n` slots intends to unequip the
/// live item in slot `k`.
pub open spec fn unequip_hit(w: Seq<Slot>, k: int, n: int) -> bool
    decreases n,
{
    if n <= 0 {
        false
    } else {
        let s = w[n - 1];
        (s.alive && (s.wants_to_unequip_item matches Some(u) && u.item.idx == k && u.item.idx
            < w.len() && w[u.item.idx as int].alive && w[u.item.idx as int].gen == u.item.gen))
            || unequip_hit(w, k, n - 1)
    }
}

/// Processes every unequip intent: the named item loses its equipped
/// relation and lands in the backpack of its previous owner; intents are
/// removed.
pub fn unequip_item(world: &mut World, log: &mut GameLog, player: Entity)
    ensures
        final(world)@.len() == old(world)@.len(),
        forall|k: int| #![trigger final(world)@[k]] 0 <= k < old(world)@.len()
            ==> final(world)@[k] == (Slot {
            wants_to_unequip_item: if old(world)@[k].alive {
                None
            } else {
                old(world)@[k].wants_to_unequip_item
            },
            equipped: if unequip_hit(old(world)@, k, old(world)@.len() as int) {
                None
            } else {
                old(world)@[k].equipped
            },
            in_backpack: if unequip_hit(old(world)@, k, old(world)@.len() as int) && old(
                world,
            )@[k].equipped is Some {
                Some(InBackpack { owner: old(world)@[k].equipped->Some_0.owner })
            } else {
                old(world)@[k].in_backpack
            },
            ..old(world)@[k]
        }),
        item_exclusive(old(world)@) ==> item_exclusive(final(world)@),
        unique_equipped(old(world)@) ==> unique_equipped(final(world)@),
        log_extended(*old(log), *final(log)),
{
    let ghost w0 = old(world)@;
    let n = world.slots.len();
    let mut i: usize = 0;
    while i < n
        invariant
            n == world@.len(),
            n == w0.len(),
            w0 == old(world)@,
            i <= n,
            forall|k: int| #![trigger world@[k]] 0 <= k < n ==> world@[k] == (Slot {
                wants_to_unequip_item: if k < i && w0[k].alive {
                    None
                } else {
                    w0[k].wants_to_unequip_item
                },
                equipped: if unequip_hit(w0, k, i as int) {
                    None
                } else {
                    w0[k].equipped
                },
                in_backpack: if unequip_hit(w0, k, i as int) && w0[k].equipped is Some {
                    Some(InBackpack { owner: w0[k].equipped->Some_0.owner })
                } else {
                    w0[k].in_backpack
                },
                ..w0[k]
            }),
            log_extended(*old(log), *log),
        decreases n - i,
    {
        let s = &world.slots[i];
        let intent = if s.alive {
            s.wants_to_unequip_item
        } else {
            None
        };
        match intent {
            None => {},
            Some(u) => {
                let item = u.item;
                if item.idx < n && world.slots[item.idx].alive && world.slots[item.idx].gen
                    == item.gen {
                    match world.slots[item.idx].equipped {
                        None => {},
                        Some(eq) => {
                            world.slots[item.idx].equipped = None;
                            world.slots[item.idx].in_backpack = Some(
                                InBackpack { owner: eq.owner },
                            );
                            if eq.owner == player {
                                match &world.slots[item.idx].name {
                                    Some(nm) => {
                                        let text = nm.name.clone();
                                        log.push(LogEntry::Unequipped { item: text });
                                    },
                                    None => {},
                                }
                            }
                        },
                    }
                }
                world.slots[i].wants_to_unequip_item = None;
            },
        }
        i += 1;
    }
}

} // verus!
