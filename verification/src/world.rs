//! The entity/component store: an arena of slots addressed by recyclable
//! (index, generation) handles.
//!
//! A handle is valid while its slot is alive and the generations agree;
//! despawning bumps the slot's generation, so stale handles are detectable
//! rather than silently aliasing a later entity.
use vstd::prelude::*;
use crate::components::{
    AreaOfEffect, BlocksTile, CombatStats, Confusion, Consumable, DealsDamage, Equippable,
    Equipped, InBackpack, Item, MeleeDefenseBonus, MeleePowerBonus, Monster, Name, Player,
    Position, ProvidesHealing, Ranged, Renderable, SerializeMe, TakeDamage, Viewshed,
    WantsToAttack, WantsToDropItem, WantsToPickupItem, WantsToUnequipItem, WantsToUseItem,
};

verus! {

/// Upper bound on the number of slots the store will allocate.
pub const MAX_ENTITIES: usize = 0x0100_0000;

/// An opaque, recyclable entity handle; identity only, no inherent data.
#[derive(Clone, Copy, PartialEq, Eq, Structural, Debug)]
pub struct Entity {
    pub idx: usize,
    pub gen: u64,
}

/// One slot of the arena: liveness, generation, and one optional value
/// per component type.
#[derive(Clone, PartialEq, Eq, Debug)]
pub struct Slot {
    pub gen: u64,
    pub alive: bool,
    pub position: Option<Position>,
    pub renderable: Option<Renderable>,
    pub player: Option<Player>,
    pub monster: Option<Monster>,
    pub name: Option<Name>,
    pub blocks_tile: Option<BlocksTile>,
    pub combat_stats: Option<CombatStats>,
    pub viewshed: Option<Viewshed>,
    pub item: Option<Item>,
    pub consumable: Option<Consumable>,
    pub equippable: Option<Equippable>,
    pub equipped: Option<Equipped>,
    pub in_backpack: Option<InBackpack>,
    pub provides_healing: Option<ProvidesHealing>,
    pub deals_damage: Option<DealsDamage>,
    pub ranged: Option<Ranged>,
    pub area_of_effect: Option<AreaOfEffect>,
    pub confusion: Option<Confusion>,
    pub melee_power_bonus: Option<MeleePowerBonus>,
    pub melee_defense_bonus: Option<MeleeDefenseBonus>,
    pub wants_to_attack: Option<WantsToAttack>,
    pub wants_to_use_item: Option<WantsToUseItem>,
    pub wants_to_pickup_item: Option<WantsToPickupItem>,
    pub wants_to_drop_item: Option<WantsToDropItem>,
    pub wants_to_unequip_item: Option<WantsToUnequipItem>,
    pub take_damage: Option<TakeDamage>,
    pub serialize_me: Option<SerializeMe>,
}

/// A slot carrying no components at all.
pub open spec fn empty_slot(gen: u64, alive: bool) -> Slot {
    Slot {
        gen: gen,
        alive: alive,
        position: None,
        renderable: None,
        player: None,
        monster: None,
        name: None,
        blocks_tile: None,
        combat_stats: None,
        viewshed: None,
        item: None,
        consumable: None,
        equippable: None,
        equipped: None,
        in_backpack: None,
        provides_healing: None,
        deals_damage: None,
        ranged: None,
        area_of_effect: None,
        confusion: None,
        melee_power_bonus: None,
        melee_defense_bonus: None,
        wants_to_attack: None,
        wants_to_use_item: None,
        wants_to_pickup_item: None,
        wants_to_drop_item: None,
        wants_to_unequip_item: None,
        take_damage: None,
        serialize_me: None,
    }
}

fn make_empty_slot(gen: u64, alive: bool) -> (s: Slot)
    ensures
        s == empty_slot(gen, alive),
{
    Slot {
        gen: gen,
        alive: alive,
        position: None,
        renderable: None,
        player: None,
        monster: None,
        name: None,
        blocks_tile: None,
        combat_stats: None,
        viewshed: None,
        item: None,
        consumable: None,
        equippable: None,
        equipped: None,
        in_backpack: None,
        provides_healing: None,
        deals_damage: None,
        ranged: None,
        area_of_effect: None,
        confusion: None,
        melee_power_bonus: None,
        melee_defense_bonus: None,
        wants_to_attack: None,
        wants_to_use_item: None,
        wants_to_pickup_item: None,
        wants_to_drop_item: None,
        wants_to_unequip_item: None,
        take_damage: None,
        serialize_me: None,
    }
}

/// The generation a slot takes when its entity is despawned; a slot whose
/// generation can no longer grow is retired rather than recycled.
pub open spec fn bump_gen(g: u64) -> u64 {
    if g < u64::MAX {
        (g + 1) as u64
    } else {
        u64::MAX
    }
}

/// The pending damage queued on a slot, the empty sequence when none.
pub open spec fn pending_damage(s: Slot) -> Seq<i32> {
    match s.take_damage {
        Some(td) => td.amount@,
        None => Seq::empty(),
    }
}

/// The handle that addresses slot `i` of `w`.
pub open spec fn slot_handle(w: Seq<Slot>, i: int) -> Entity {
    Entity { idx: i as usize, gen: w[i].gen }
}

/// Every slot that was alive keeps its index and its whole contents;
/// the store has only reused dead slots or grown, and no existing
/// slot's generation moved, so stale handles stay stale.
pub open spec fn live_slots_preserved(pre: World, post: World) -> bool {
    &&& post@.len() >= pre@.len()
    &&& forall|i: int| 0 <= i < pre@.len() && (#[trigger] pre@[i]).alive ==> post@[i] == pre@[i]
    &&& forall|i: int| 0 <= i < pre@.len() ==> (#[trigger] post@[i]).gen == pre@[i].gen
}

/// The heterogeneous container mapping entity handles to component sets.
pub struct World {
    pub slots: Vec<Slot>,
}

impl View for World {
    type V = Seq<Slot>;

    open spec fn view(&self) -> Seq<Slot> {
        self.slots@
    }
}

impl World {
    /// The store never allocates more than `MAX_ENTITIES` slots.
    pub open spec fn wf(self) -> bool {
        self@.len() <= MAX_ENTITIES
    }

    /// A handle is valid while its slot is alive with a matching generation.
    pub open spec fn valid(self, e: Entity) -> bool {
        &&& e.idx < self@.len()
        &&& self@[e.idx as int].alive
        &&& self@[e.idx as int].gen == e.gen
    }

    pub fn new() -> (w: World)
        ensures
            w@ == Seq::<Slot>::empty(),
            w.wf(),
    {
        World { slots: Vec::new() }
    }

    pub fn len(&self) -> (n: usize)
        ensures
            n == self@.len(),
    {
        self.slots.len()
    }

    pub fn is_valid(&self, e: Entity) -> (r: bool)
        ensures
            r == self.valid(e),
    {
        e.idx < self.slots.len() && self.slots[e.idx].alive && self.slots[e.idx].gen == e.gen
    }

    /// A new entity can be made: the arena can still grow, or some slot
    /// is free for reuse.
    pub open spec fn can_spawn(self) -> bool {
        self@.len() < MAX_ENTITIES || exists|i: int|
            0 <= i < self@.len() && !(#[trigger] self@[i]).alive
    }

    /// Spawns a fresh entity with no components, recycling the first dead
    /// slot or growing the arena. Returns `None` only when the arena is
    /// full of live entities.
    pub fn spawn(&mut self) -> (r: Option<Entity>)
        requires
            old(self).wf(),
        ensures
            final(self).wf(),
            final(self)@.len() >= old(self)@.len(),
            r is None ==> *final(self) == *old(self),
            old(self).can_spawn() ==> r is Some,
            r matches Some(e) ==> {
                &&& final(self).valid(e)
                &&& final(self)@[e.idx as int] == empty_slot(e.gen, true)
                &&& e.idx < old(self)@.len() ==> {
                    &&& final(self)@ == old(self)@.update(e.idx as int, empty_slot(e.gen, true))
                    &&& !old(self)@[e.idx as int].alive
                    &&& e.gen == old(self)@[e.idx as int].gen
                }
                &&& e.idx >= old(self)@.len() ==> {
                    &&& e.idx == old(self)@.len()
                    &&& final(self)@ == old(self)@.push(empty_slot(e.gen, true))
                }
            },
    {
        let n = self.slots.len();
        let mut i: usize = 0;
        while i < n
            invariant
                n == self@.len(),
                n <= MAX_ENTITIES,
                i <= n,
                *self == *old(self),
                forall|j: int| 0 <= j < i ==> (#[trigger] self@[j]).alive,
            decreases n - i,
        {
            if !self.slots[i].alive {
                let gen = self.slots[i].gen;
                self.slots.set(i, make_empty_slot(gen, true));
                return Some(Entity { idx: i, gen });
            }
            i += 1;
        }
        if n < MAX_ENTITIES {
            self.slots.push(make_empty_slot(0, true));
            Some(Entity { idx: n, gen: 0 })
        } else {
            None
        }
    }

    /// Removes a live entity and everything attached to it; stale or
    /// invalid handles are ignored.
    pub fn despawn(&mut self, e: Entity)
        ensures
            old(self).valid(e) ==> final(self)@ == old(self)@.update(
                e.idx as int,
                empty_slot(bump_gen(e.gen), false),
            ),
            !old(self).valid(e) ==> *final(self) == *old(self),
            final(self)@.len() == old(self)@.len(),
    {
        if self.is_valid(e) {
            let new_gen: u64 = if e.gen < u64::MAX { e.gen + 1 } else { u64::MAX };
            self.slots.set(e.idx, make_empty_slot(new_gen, false));
        }
    }
}

impl TakeDamage {
    /// Enqueues one pending damage amount on `victim`, to be applied as
    /// part of the next damage-application pass. Ignored for a stale or
    /// invalid handle.
    pub fn add_damage(world: &mut World, victim: Entity, amount: i32)
        ensures
            old(world).valid(victim) ==> final(world)@ == old(world)@.update(
                victim.idx as int,
                Slot {
                    take_damage: Some(
                        TakeDamage {
                            amount: final(world)@[victim.idx as int].take_damage->Some_0.amount,
                        },
                    ),
                    ..old(world)@[victim.idx as int]
                },
            ),
            old(world).valid(victim) ==> pending_damage(final(world)@[victim.idx as int])
                == pending_damage(old(world)@[victim.idx as int]).push(amount),
            !old(world).valid(victim) ==> *final(world) == *old(world),
    {
        if world.is_valid(victim) {
            let slot = &mut world.slots[victim.idx];
            match &mut slot.take_damage {
                Some(td) => {
                    td.amount.push(amount);
                }
                None => {
                    let mut v: Vec<i32> = Vec::new();
                    v.push(amount);
                    slot.take_damage = Some(TakeDamage { amount: v });
                }
            }
        }
    }
}

} // verus!
