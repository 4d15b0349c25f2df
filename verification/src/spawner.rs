//! Entity archetypes: the player, monsters and items, and the random
//! per-room population driven by a depth-dependent spawn table.
use vstd::prelude::*;
use crate::components::{
    AreaOfEffect, BlocksTile, CombatStats, Confusion, Consumable, DealsDamage, EquipmentSlot,
    Equippable, Item, MeleeDefenseBonus, MeleePowerBonus, Monster, Name, Player, Position,
    ProvidesHealing, Ranged, Renderable, RenderOrder, Rgb, SerializeMe, Viewshed,
};
use crate::rect::Rect;
use crate::rng::Rng;
use crate::weighted_table::{SpawnKind, WeightedTable};
use crate::item_use_system::{item_exclusive, unique_equipped};
use crate::world::{Entity, Slot, World, empty_slot, live_slots_preserved};

verus! {

/// A slot freshly populated by the room spawner: a monster or an item
/// standing inside the room's carved rectangle.
pub open spec fn room_spawn_ok(s: Slot, room: Rect) -> bool {
    &&& s.position matches Some(p) && room.x1 <= p.x < room.x2 && room.y1 <= p.y < room.y2
    &&& s.monster is Some || s.item is Some
}

/// Only the returned slot became live; everything else is as it was.
pub open spec fn spawned_one(pre: World, post: World, r: Option<Entity>) -> bool {
    match r {
        None => post == pre,
        Some(e) => forall|i: int|
            0 <= i < post@.len() && (#[trigger] post@[i]).alive && i != e.idx ==> i < pre@.len()
                && pre@[i].alive && post@[i] == pre@[i],
    }
}

/// The most spawns one room can host before the depth bonus.
pub const MAX_SPAWNS: i32 = 8;

/// How often a blocked spawn tile is re-sampled before giving up on one
/// spawn; bounds room population so generation can never loop forever.
pub const SPAWN_ATTEMPTS: u32 = 100;

fn items_renderable(glyph: u16, fg: Rgb) -> (r: Renderable)
    ensures
        r.order == RenderOrder::Items,
        r.render,
{
    Renderable {
        glyph,
        fg,
        bg: Rgb { r: 0, g: 0, b: 0 },
        render: true,
        always_render: false,
        order: RenderOrder::Items,
    }
}

/// Spawns the designated player entity with its full component set.
pub fn player(world: &mut World, pos: (i32, i32)) -> (r: Entity)
    requires
        old(world).wf(),
        old(world).can_spawn(),
    ensures
        final(world).wf(),
        live_slots_preserved(*old(world), *final(world)),
        item_exclusive(old(world)@) ==> item_exclusive(final(world)@),
        unique_equipped(old(world)@) ==> unique_equipped(final(world)@),
        final(world).valid(r),
        ({
            let s = final(world)@[r.idx as int];
            &&& s == (Slot {
                position: s.position,
                renderable: s.renderable,
                player: s.player,
                viewshed: s.viewshed,
                name: s.name,
                combat_stats: s.combat_stats,
                serialize_me: s.serialize_me,
                ..empty_slot(r.gen, true)
            })
            &&& s.position == Some(Position { x: pos.0, y: pos.1 })
            &&& s.player == Some(Player {  })
            &&& s.combat_stats == Some(
                CombatStats { max_hp: 30, hp: 30, defense: 2, power: 5, regen_rate: 1 },
            )
            &&& s.viewshed matches Some(v) && v.range == 20 && v.dirty && v.visible_tiles@.len()
                == 0
            &&& s.name matches Some(n) && n.name@ == "Blabinou"@
            &&& s.serialize_me == Some(SerializeMe {  })
            &&& s.renderable is Some
        }),
{
    let e = world.spawn().unwrap();
    let slot = &mut world.slots[e.idx];
    slot.serialize_me = Some(SerializeMe {  });
    slot.position = Some(Position { x: pos.0, y: pos.1 });
    slot.renderable = Some(
        Renderable {
            glyph: 147,
            fg: Rgb { r: 255, g: 0, b: 255 },
            bg: Rgb { r: 0, g: 0, b: 0 },
            render: true,
            always_render: false,
            order: RenderOrder::Player,
        },
    );
    slot.player = Some(Player {  });
    slot.viewshed = Some(Viewshed { visible_tiles: Vec::new(), range: 20, dirty: true });
    slot.name = Some(Name { name: String::from_str("Blabinou") });
    slot.combat_stats = Some(
        CombatStats { max_hp: 30, hp: 30, defense: 2, power: 5, regen_rate: 1 },
    );
    e
}

/// Spawns one monster archetype: blocking, hostile, with its own sight.
pub fn monster(world: &mut World, x: i32, y: i32, glyph: u16, name: &str) -> (r: Option<Entity>)
    requires
        old(world).wf(),
    ensures
        final(world).wf(),
        live_slots_preserved(*old(world), *final(world)),
        spawned_one(*old(world), *final(world), r),
        item_exclusive(old(world)@) ==> item_exclusive(final(world)@),
        unique_equipped(old(world)@) ==> unique_equipped(final(world)@),
        old(world).can_spawn() ==> r is Some,
        r matches Some(e) ==> final(world).valid(e) && ({
            let s = final(world)@[e.idx as int];
            &&& s == (Slot {
                position: s.position,
                renderable: s.renderable,
                viewshed: s.viewshed,
                monster: s.monster,
                name: s.name,
                blocks_tile: s.blocks_tile,
                combat_stats: s.combat_stats,
                ..empty_slot(e.gen, true)
            })
            &&& s.position == Some(Position { x: x, y: y })
            &&& s.monster == Some(Monster {  })
            &&& s.blocks_tile == Some(BlocksTile {  })
            &&& s.combat_stats == Some(
                CombatStats { max_hp: 8, hp: 8, defense: 1, power: 4, regen_rate: 0 },
            )
            &&& s.viewshed matches Some(v) && v.range == 8 && v.dirty && v.visible_tiles@.len()
                == 0
            &&& s.name matches Some(n) && n.name@ == name@
            &&& s.renderable is Some
        }),
{
    let e = match world.spawn() {
        Some(e) => e,
        None => {
            return None;
        },
    };
    let slot = &mut world.slots[e.idx];
    slot.position = Some(Position { x, y });
    slot.renderable = Some(
        Renderable {
            glyph,
            fg: Rgb { r: 255, g: 0, b: 0 },
            bg: Rgb { r: 0, g: 0, b: 0 },
            render: true,
            always_render: false,
            order: RenderOrder::NPC,
        },
    );
    slot.viewshed = Some(Viewshed { visible_tiles: Vec::new(), range: 8, dirty: true });
    slot.monster = Some(Monster {  });
    slot.name = Some(Name { name: String::from_str(name) });
    slot.blocks_tile = Some(BlocksTile {  });
    slot.combat_stats = Some(
        CombatStats { max_hp: 8, hp: 8, defense: 1, power: 4, regen_rate: 0 },
    );
    Some(e)
}

pub fn orc(world: &mut World, x: i32, y: i32) -> (r: Option<Entity>)
    requires
        old(world).wf(),
    ensures
        final(world).wf(),
        live_slots_preserved(*old(world), *final(world)),
        spawned_one(*old(world), *final(world), r),
        item_exclusive(old(world)@) ==> item_exclusive(final(world)@),
        unique_equipped(old(world)@) ==> unique_equipped(final(world)@),
        old(world).can_spawn() ==> r is Some,
        r matches Some(e) ==> final(world).valid(e) && final(world)@[e.idx as int].position
            == Some(Position { x: x, y: y }) && final(world)@[e.idx as int].monster is Some,
{
    monster(world, x, y, 111, "Orc")
}

pub fn goblin(world: &mut World, x: i32, y: i32) -> (r: Option<Entity>)
    requires
        old(world).wf(),
    ensures
        final(world).wf(),
        live_slots_preserved(*old(world), *final(world)),
        spawned_one(*old(world), *final(world), r),
        item_exclusive(old(world)@) ==> item_exclusive(final(world)@),
        unique_equipped(old(world)@) ==> unique_equipped(final(world)@),
        old(world).can_spawn() ==> r is Some,
        r matches Some(e) ==> final(world).valid(e) && final(world)@[e.idx as int].position
            == Some(Position { x: x, y: y }) && final(world)@[e.idx as int].monster is Some,
{
    monster(world, x, y, 103, "Goblin")
}

/// Spawns a consumable that heals 8 hit points.
pub fn health_potion(world: &mut World, x: i32, y: i32) -> (r: Option<Entity>)
    requires
        old(world).wf(),
    ensures
        final(world).wf(),
        live_slots_preserved(*old(world), *final(world)),
        spawned_one(*old(world), *final(world), r),
        item_exclusive(old(world)@) ==> item_exclusive(final(world)@),
        unique_equipped(old(world)@) ==> unique_equipped(final(world)@),
        old(world).can_spawn() ==> r is Some,
        r matches Some(e) ==> final(world).valid(e) && ({
            let s = final(world)@[e.idx as int];
            &&& s == (Slot {
                position: s.position,
                renderable: s.renderable,
                name: s.name,
                item: s.item,
                provides_healing: s.provides_healing,
                consumable: s.consumable,
                ..empty_slot(e.gen, true)
            })
            &&& s.position == Some(Position { x: x, y: y })
            &&& s.item == Some(Item {  })
            &&& s.provides_healing == Some(ProvidesHealing { heal: 8 })
            &&& s.consumable == Some(Consumable {  })
            &&& s.name matches Some(n) && n.name@ == "Health potion"@
        }),
{
    let e = match world.spawn() {
        Some(e) => e,
        None => {
            return None;
        },
    };
    let slot = &mut world.slots[e.idx];
    slot.position = Some(Position { x, y });
    slot.renderable = Some(items_renderable(112, Rgb { r: 178, g: 178, b: 0 }));
    slot.name = Some(Name { name: String::from_str("Health potion") });
    slot.item = Some(Item {  });
    slot.provides_healing = Some(ProvidesHealing { heal: 8 });
    slot.consumable = Some(Consumable {  });
    Some(e)
}

/// Spawns a single-target damage scroll.
pub fn magic_missile_scroll(world: &mut World, x: i32, y: i32) -> (r: Option<Entity>)
    requires
        old(world).wf(),
    ensures
        final(world).wf(),
        live_slots_preserved(*old(world), *final(world)),
        spawned_one(*old(world), *final(world), r),
        item_exclusive(old(world)@) ==> item_exclusive(final(world)@),
        unique_equipped(old(world)@) ==> unique_equipped(final(world)@),
        old(world).can_spawn() ==> r is Some,
        r matches Some(e) ==> final(world).valid(e) && ({
            let s = final(world)@[e.idx as int];
            &&& s == (Slot {
                position: s.position,
                renderable: s.renderable,
                name: s.name,
                item: s.item,
                consumable: s.consumable,
                deals_damage: s.deals_damage,
                ranged: s.ranged,
                ..empty_slot(e.gen, true)
            })
            &&& s.position == Some(Position { x: x, y: y })
            &&& s.item == Some(Item {  })
            &&& s.consumable == Some(Consumable {  })
            &&& s.deals_damage == Some(DealsDamage { damage: 8 })
            &&& s.ranged == Some(Ranged { range: 6 })
            &&& s.name matches Some(n) && n.name@ == "Magic missile scroll"@
        }),
{
    let e = match world.spawn() {
        Some(e) => e,
        None => {
            return None;
        },
    };
    let slot = &mut world.slots[e.idx];
    slot.position = Some(Position { x, y });
    slot.renderable = Some(items_renderable(40, Rgb { r: 178, g: 178, b: 0 }));
    slot.name = Some(Name { name: String::from_str("Magic missile scroll") });
    slot.item = Some(Item {  });
    slot.consumable = Some(Consumable {  });
    slot.deals_damage = Some(DealsDamage { damage: 8 });
    slot.ranged = Some(Ranged { range: 6 });
    Some(e)
}

/// Spawns the area-of-effect damage scroll.
pub fn fireball_scroll(world: &mut World, x: i32, y: i32) -> (r: Option<Entity>)
    requires
        old(world).wf(),
    ensures
        final(world).wf(),
        live_slots_preserved(*old(world), *final(world)),
        spawned_one(*old(world), *final(world), r),
        item_exclusive(old(world)@) ==> item_exclusive(final(world)@),
        unique_equipped(old(world)@) ==> unique_equipped(final(world)@),
        old(world).can_spawn() ==> r is Some,
        r matches Some(e) ==> final(world).valid(e) && ({
            let s = final(world)@[e.idx as int];
            &&& s == (Slot {
                position: s.position,
                renderable: s.renderable,
                name: s.name,
                item: s.item,
                consumable: s.consumable,
                deals_damage: s.deals_damage,
                ranged: s.ranged,
                area_of_effect: s.area_of_effect,
                ..empty_slot(e.gen, true)
            })
            &&& s.position == Some(Position { x: x, y: y })
            &&& s.item == Some(Item {  })
            &&& s.consumable == Some(Consumable {  })
            &&& s.deals_damage == Some(DealsDamage { damage: 20 })
            &&& s.ranged == Some(Ranged { range: 6 })
            &&& s.area_of_effect == Some(AreaOfEffect { radius: 3 })
            &&& s.name matches Some(n) && n.name@ == "Fireball scroll"@
        }),
{
    let e = match world.spawn() {
        Some(e) => e,
        None => {
            return None;
        },
    };
    let slot = &mut world.slots[e.idx];
    slot.position = Some(Position { x, y });
    slot.renderable = Some(items_renderable(42, Rgb { r: 178, g: 178, b: 0 }));
    slot.name = Some(Name { name: String::from_str("Fireball scroll") });
    slot.item = Some(Item {  });
    slot.consumable = Some(Consumable {  });
    slot.deals_damage = Some(DealsDamage { damage: 20 });
    slot.ranged = Some(Ranged { range: 6 });
    slot.area_of_effect = Some(AreaOfEffect { radius: 3 });
    Some(e)
}

/// Spawns the scroll that confuses its target for four turns.
pub fn confusion_scroll(world: &mut World, x: i32, y: i32) -> (r: Option<Entity>)
    requires
        old(world).wf(),
    ensures
        final(world).wf(),
        live_slots_preserved(*old(world), *final(world)),
        spawned_one(*old(world), *final(world), r),
        item_exclusive(old(world)@) ==> item_exclusive(final(world)@),
        unique_equipped(old(world)@) ==> unique_equipped(final(world)@),
        old(world).can_spawn() ==> r is Some,
        r matches Some(e) ==> final(world).valid(e) && ({
            let s = final(world)@[e.idx as int];
            &&& s == (Slot {
                position: s.position,
                renderable: s.renderable,
                name: s.name,
                item: s.item,
                consumable: s.consumable,
                ranged: s.ranged,
                confusion: s.confusion,
                ..empty_slot(e.gen, true)
            })
            &&& s.position == Some(Position { x: x, y: y })
            &&& s.item == Some(Item {  })
            &&& s.consumable == Some(Consumable {  })
            &&& s.ranged == Some(Ranged { range: 6 })
            &&& s.confusion == Some(Confusion { turns: 4 })
            &&& s.name matches Some(n) && n.name@ == "Confusion scroll"@
        }),
{
    let e = match world.spawn() {
        Some(e) => e,
        None => {
            return None;
        },
    };
    let slot = &mut world.slots[e.idx];
    slot.position = Some(Position { x, y });
    slot.renderable = Some(items_renderable(38, Rgb { r: 178, g: 178, b: 0 }));
    slot.name = Some(Name { name: String::from_str("Confusion scroll") });
    slot.item = Some(Item {  });
    slot.consumable = Some(Consumable {  });
    slot.ranged = Some(Ranged { range: 6 });
    slot.confusion = Some(Confusion { turns: 4 });
    Some(e)
}

fn equippable_item(
    world: &mut World,
    x: i32,
    y: i32,
    glyph: u16,
    name: &str,
    slot_kind: EquipmentSlot,
    power: Option<MeleePowerBonus>,
    defense: Option<MeleeDefenseBonus>,
) -> (r: Option<Entity>)
    requires
        old(world).wf(),
    ensures
        final(world).wf(),
        live_slots_preserved(*old(world), *final(world)),
        spawned_one(*old(world), *final(world), r),
        item_exclusive(old(world)@) ==> item_exclusive(final(world)@),
        unique_equipped(old(world)@) ==> unique_equipped(final(world)@),
        old(world).can_spawn() ==> r is Some,
        r matches Some(e) ==> final(world).valid(e) && ({
            let s = final(world)@[e.idx as int];
            &&& s == (Slot {
                position: s.position,
                renderable: s.renderable,
                name: s.name,
                item: s.item,
                equippable: s.equippable,
                melee_power_bonus: s.melee_power_bonus,
                melee_defense_bonus: s.melee_defense_bonus,
                ..empty_slot(e.gen, true)
            })
            &&& s.position == Some(Position { x: x, y: y })
            &&& s.item == Some(Item {  })
            &&& s.equippable == Some(Equippable { slot: slot_kind })
            &&& s.melee_power_bonus == power
            &&& s.melee_defense_bonus == defense
            &&& s.name matches Some(n) && n.name@ == name@
        }),
{
    let e = match world.spawn() {
        Some(e) => e,
        None => {
            return None;
        },
    };
    let slot = &mut world.slots[e.idx];
    slot.position = Some(Position { x, y });
    slot.renderable = Some(items_renderable(glyph, Rgb { r: 178, g: 51, b: 51 }));
    slot.name = Some(Name { name: String::from_str(name) });
    slot.item = Some(Item {  });
    slot.equippable = Some(Equippable { slot: slot_kind });
    slot.melee_power_bonus = power;
    slot.melee_defense_bonus = defense;
    Some(e)
}

pub fn dagger(world: &mut World, x: i32, y: i32) -> (r: Option<Entity>)
    requires
        old(world).wf(),
    ensures
        final(world).wf(),
        live_slots_preserved(*old(world), *final(world)),
        spawned_one(*old(world), *final(world), r),
        item_exclusive(old(world)@) ==> item_exclusive(final(world)@),
        unique_equipped(old(world)@) ==> unique_equipped(final(world)@),
        old(world).can_spawn() ==> r is Some,
        r matches Some(e) ==> final(world).valid(e) && final(world)@[e.idx as int].position
            == Some(Position { x: x, y: y })
            && final(world)@[e.idx as int].melee_power_bonus == Some(MeleePowerBonus { power: 4 })
            && final(world)@[e.idx as int].equippable == Some(
            Equippable { slot: EquipmentSlot::RightHand },
        ) && final(world)@[e.idx as int].item == Some(Item {  }),
{
    equippable_item(
        world,
        x,
        y,
        179,
        "Dagger",
        EquipmentSlot::RightHand,
        Some(MeleePowerBonus { power: 4 }),
        None,
    )
}

pub fn longsword(world: &mut World, x: i32, y: i32) -> (r: Option<Entity>)
    requires
        old(world).wf(),
    ensures
        final(world).wf(),
        live_slots_preserved(*old(world), *final(world)),
        spawned_one(*old(world), *final(world), r),
        item_exclusive(old(world)@) ==> item_exclusive(final(world)@),
        unique_equipped(old(world)@) ==> unique_equipped(final(world)@),
        old(world).can_spawn() ==> r is Some,
        r matches Some(e) ==> final(world).valid(e) && final(world)@[e.idx as int].position
            == Some(Position { x: x, y: y })
            && final(world)@[e.idx as int].melee_power_bonus == Some(MeleePowerBonus { power: 8 })
            && final(world)@[e.idx as int].equippable == Some(
            Equippable { slot: EquipmentSlot::RightHand },
        ) && final(world)@[e.idx as int].item == Some(Item {  }),
{
    equippable_item(
        world,
        x,
        y,
        179,
        "Longsword",
        EquipmentSlot::RightHand,
        Some(MeleePowerBonus { power: 8 }),
        None,
    )
}

pub fn shield(world: &mut World, x: i32, y: i32) -> (r: Option<Entity>)
    requires
        old(world).wf(),
    ensures
        final(world).wf(),
        live_slots_preserved(*old(world), *final(world)),
        spawned_one(*old(world), *final(world), r),
        item_exclusive(old(world)@) ==> item_exclusive(final(world)@),
        unique_equipped(old(world)@) ==> unique_equipped(final(world)@),
        old(world).can_spawn() ==> r is Some,
        r matches Some(e) ==> final(world).valid(e) && final(world)@[e.idx as int].position
            == Some(Position { x: x, y: y }) && final(world)@[e.idx as int].melee_defense_bonus
            == Some(MeleeDefenseBonus { defense: 4 }) && final(world)@[e.idx as int].equippable == Some(
            Equippable { slot: EquipmentSlot::LeftHand },
        ) && final(world)@[e.idx as int].item == Some(Item {  }),
{
    equippable_item(
        world,
        x,
        y,
        248,
        "Shield",
        EquipmentSlot::LeftHand,
        None,
        Some(MeleeDefenseBonus { defense: 4 }),
    )
}

pub fn tower_shield(world: &mut World, x: i32, y: i32) -> (r: Option<Entity>)
    requires
        old(world).wf(),
    ensures
        final(world).wf(),
        live_slots_preserved(*old(world), *final(world)),
        spawned_one(*old(world), *final(world), r),
        item_exclusive(old(world)@) ==> item_exclusive(final(world)@),
        unique_equipped(old(world)@) ==> unique_equipped(final(world)@),
        old(world).can_spawn() ==> r is Some,
        r matches Some(e) ==> final(world).valid(e) && final(world)@[e.idx as int].position
            == Some(Position { x: x, y: y }) && final(world)@[e.idx as int].melee_defense_bonus
            == Some(MeleeDefenseBonus { defense: 8 }) && final(world)@[e.idx as int].equippable == Some(
            Equippable { slot: EquipmentSlot::LeftHand },
        ) && final(world)@[e.idx as int].item == Some(Item {  }),
{
    equippable_item(
        world,
        x,
        y,
        248,
        "Tower shield",
        EquipmentSlot::LeftHand,
        None,
        Some(MeleeDefenseBonus { defense: 8 }),
    )
}

/// Places one rolled archetype at the sampled tile.
fn spawn_one(world: &mut World, kind: SpawnKind, x: i32, y: i32)
    requires
        old(world).wf(),
    ensures
        final(world).wf(),
        live_slots_preserved(*old(world), *final(world)),
        item_exclusive(old(world)@) ==> item_exclusive(final(world)@),
        unique_equipped(old(world)@) ==> unique_equipped(final(world)@),
        forall|i: int| 0 <= i < final(world)@.len() && (#[trigger] final(world)@[i]).alive ==> (i
            < old(world)@.len() && old(world)@[i].alive && final(world)@[i] == old(world)@[i]) || (
        final(world)@[i].position == Some(Position { x: x, y: y }) && (final(world)@[i].monster
            is Some || final(world)@[i].item is Some)),
{
    let spawned: Option<Entity> = match kind {
        SpawnKind::Goblin => goblin(world, x, y),
        SpawnKind::Orc => orc(world, x, y),
        SpawnKind::HealthPotion => health_potion(world, x, y),
        SpawnKind::FireballScroll => fireball_scroll(world, x, y),
        SpawnKind::ConfusionScroll => confusion_scroll(world, x, y),
        SpawnKind::MagicMissileScroll => magic_missile_scroll(world, x, y),
        SpawnKind::Dagger => dagger(world, x, y),
        SpawnKind::Shield => shield(world, x, y),
        SpawnKind::Longsword => longsword(world, x, y),
        SpawnKind::TowerShield => tower_shield(world, x, y),
    };
    proof {
        assert(spawned_one(*old(world), *world, spawned));
    }
}

/// The depth-dependent spawn table: deeper levels favor orcs, heavy
/// weaponry and stronger scrolls.
pub fn room_table(depth: i32) -> (t: WeightedTable)
    requires
        1 <= depth <= 0x0100_0000,
    ensures
        0 < t.spec_total() <= 30 + 5 * depth,
        t.spec_total() <= i32::MAX,
        t.entries@ == seq![
            (SpawnKind::Goblin, 10i32),
            (SpawnKind::Orc, (1 + depth) as i32),
            (SpawnKind::HealthPotion, 7i32),
            (SpawnKind::FireballScroll, (2 + depth) as i32),
            (SpawnKind::ConfusionScroll, (2 + depth) as i32),
            (SpawnKind::MagicMissileScroll, 4i32),
            (SpawnKind::Dagger, 2i32),
            (SpawnKind::Shield, 2i32),
            (SpawnKind::Longsword, (depth - 1) as i32),
            (SpawnKind::TowerShield, (depth - 1) as i32),
        ],
{
    let t = WeightedTable::new()
        .add(SpawnKind::Goblin, 10)
        .add(SpawnKind::Orc, 1 + depth)
        .add(SpawnKind::HealthPotion, 7)
        .add(SpawnKind::FireballScroll, 2 + depth)
        .add(SpawnKind::ConfusionScroll, 2 + depth)
        .add(SpawnKind::MagicMissileScroll, 4)
        .add(SpawnKind::Dagger, 2)
        .add(SpawnKind::Shield, 2)
        .add(SpawnKind::Longsword, depth - 1)
        .add(SpawnKind::TowerShield, depth - 1);
    proof {
        reveal_with_fuel(crate::weighted_table::total_weight, 12);
        assert(t.entries@ =~= seq![
            (SpawnKind::Goblin, 10i32),
            (SpawnKind::Orc, (1 + depth) as i32),
            (SpawnKind::HealthPotion, 7i32),
            (SpawnKind::FireballScroll, (2 + depth) as i32),
            (SpawnKind::ConfusionScroll, (2 + depth) as i32),
            (SpawnKind::MagicMissileScroll, 4i32),
            (SpawnKind::Dagger, 2i32),
            (SpawnKind::Shield, 2i32),
            (SpawnKind::Longsword, (depth - 1) as i32),
            (SpawnKind::TowerShield, (depth - 1) as i32),
        ]);
    }
    t
}

/// Populates one room: draws a random number of spawns, samples distinct
/// tiles inside the room (bounded retries guard against full rooms), and
/// places what the spawn table rolls.
pub fn fill_room(world: &mut World, rng: &mut Rng, room: &Rect, depth: i32)
    requires
        old(world).wf(),
        1 <= depth <= 0x0100_0000,
        0 <= room.x1 < room.x2,
        0 <= room.y1 < room.y2,
    ensures
        final(world).wf(),
        live_slots_preserved(*old(world), *final(world)),
        // Whatever the dice said: anything newly alive is a monster or
        // an item standing inside this room.
        forall|i: int| 0 <= i < final(world)@.len() && (#[trigger] final(world)@[i]).alive
            ==> (i < old(world)@.len() && old(world)@[i].alive && final(world)@[i] == old(
            world,
        )@[i]) || room_spawn_ok(final(world)@[i], *room),
        item_exclusive(old(world)@) ==> item_exclusive(final(world)@),
        unique_equipped(old(world)@) ==> unique_equipped(final(world)@),
{
    let spawn_table = room_table(depth);
    let mut spawn_points: Vec<(i32, i32, SpawnKind)> = Vec::new();

    let nb_spawns = rng.range(-2, MAX_SPAWNS + depth);
    let mut spawned: i32 = 0;
    while spawned < nb_spawns
        invariant
            0 <= room.x1 < room.x2,
            0 <= room.y1 < room.y2,
            spawn_table.spec_total() <= i32::MAX,
            spawn_table.spec_total() > 0,
            forall|q: int| 0 <= q < spawn_points@.len() ==> room.x1 <= (
            #[trigger] spawn_points@[q]).0 < room.x2 && room.y1 <= spawn_points@[q].1 < room.y2,
        decreases nb_spawns - spawned,
    {
        let mut attempt: u32 = 0;
        let mut added = false;
        while attempt < SPAWN_ATTEMPTS && !added
            invariant
                0 <= room.x1 < room.x2,
                0 <= room.y1 < room.y2,
                spawn_table.spec_total() <= i32::MAX,
                spawn_table.spec_total() > 0,
                forall|q: int| 0 <= q < spawn_points@.len() ==> room.x1 <= (
                #[trigger] spawn_points@[q]).0 < room.x2 && room.y1 <= spawn_points@[q].1
                    < room.y2,
            decreases SPAWN_ATTEMPTS - attempt,
        {
            let x = rng.range(room.x1, room.x2);
            let y = rng.range(room.y1, room.y2);
            let mut occupied = false;
            let mut k: usize = 0;
            while k < spawn_points.len()
                invariant
                    forall|q: int| 0 <= q < spawn_points@.len() ==> room.x1 <= (
                    #[trigger] spawn_points@[q]).0 < room.x2 && room.y1 <= spawn_points@[q].1
                        < room.y2,
                decreases spawn_points.len() - k,
            {
                let p = spawn_points[k];
                if p.0 == x && p.1 == y {
                    occupied = true;
                }
                k += 1;
            }
            if !occupied {
                let kind = spawn_table.roll(rng).unwrap();
                spawn_points.push((x, y, kind));
                added = true;
            }
            attempt += 1;
        }
        spawned += 1;
    }

    let mut k: usize = 0;
    while k < spawn_points.len()
        invariant
            world.wf(),
            live_slots_preserved(*old(world), *world),
            forall|q: int| 0 <= q < spawn_points@.len() ==> room.x1 <= (
            #[trigger] spawn_points@[q]).0 < room.x2 && room.y1 <= spawn_points@[q].1 < room.y2,
            0 <= room.x1 < room.x2,
            0 <= room.y1 < room.y2,
            forall|i: int| 0 <= i < world@.len() && (#[trigger] world@[i]).alive ==> (i < old(
                world,
            )@.len() && old(world)@[i].alive && world@[i] == old(world)@[i]) || room_spawn_ok(
                world@[i],
                *room,
            ),
            item_exclusive(old(world)@) ==> item_exclusive(world@),
            unique_equipped(old(world)@) ==> unique_equipped(world@),
        decreases spawn_points.len() - k,
    {
        let (x, y, kind) = spawn_points[k];
        spawn_one(world, kind, x, y);
        k += 1;
    }
}

} // verus!
