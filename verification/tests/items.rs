//! Item scenarios: potions, fireballs, confusion, pickup, drop, equip and
//! unequip, and the one-place-at-a-time rule for items.
use roguelike::components::{
    CombatStats, EquipmentSlot, InBackpack, Name, Player, Point, Position, WantsToDropItem,
    WantsToPickupItem, WantsToUnequipItem, WantsToUseItem,
};
use roguelike::damage_system::damage;
use roguelike::drop_item_system::drop_item;
use roguelike::gamelog::GameLog;
use roguelike::inventory_system::inventory;
use roguelike::item_use_system::item_use;
use roguelike::map::{GameMap, TileType};
use roguelike::map_indexing_system::map_indexing;
use roguelike::spawner;
use roguelike::unequip_item_system::unequip_item;
use roguelike::world::{Entity, World};

fn player_at(world: &mut World, x: i32, y: i32) -> Entity {
    spawner::player(world, (x, y))
}

fn open_map() -> GameMap {
    let mut map = GameMap::new(1);
    let mut y = 1;
    while y < 39 {
        let mut x = 1;
        while x < 79 {
            map.set_tile(x, y, TileType::Floor);
            x += 1;
        }
        y += 1;
    }
    map
}

#[test]
fn health_potion_heals_to_max_and_is_spent() {
    // Heal 8 on hp 5 of max 10 clamps to 10, and the consumable potion
    // disappears.
    let mut world = World::new();
    let mut log = GameLog::new();
    let map = open_map();
    let player = player_at(&mut world, 5, 5);
    world.slots[player.idx].combat_stats = Some(CombatStats {
        max_hp: 10,
        hp: 5,
        defense: 2,
        power: 5,
        regen_rate: 1,
    });
    let potion = spawner::health_potion(&mut world, 5, 5).unwrap();
    world.slots[potion.idx].position = None;
    world.slots[potion.idx].in_backpack = Some(InBackpack { owner: player });
    world.slots[player.idx].wants_to_use_item = Some(WantsToUseItem {
        item: potion,
        target: None,
    });

    item_use(&mut world, &map, &mut log, player);

    assert_eq!(world.slots[player.idx].combat_stats.unwrap().hp, 10);
    assert!(!world.slots[potion.idx].alive);
    assert!(world.slots[player.idx].wants_to_use_item.is_none());
}

#[test]
fn fireball_damages_every_occupant_in_radius() {
    // A fireball of radius 3 dealing 20 at point P: every entity on a
    // tile within sight and radius of P carries pending damage 20.
    let mut world = World::new();
    let mut log = GameLog::new();
    let mut map = open_map();
    let player = player_at(&mut world, 30, 20);
    let near = spawner::goblin(&mut world, 11, 10).unwrap();
    let close = spawner::orc(&mut world, 9, 9).unwrap();
    let far = spawner::goblin(&mut world, 20, 30).unwrap();
    map_indexing(&world, &mut map);

    let scroll = spawner::fireball_scroll(&mut world, 30, 20).unwrap();
    world.slots[scroll.idx].position = None;
    world.slots[scroll.idx].in_backpack = Some(InBackpack { owner: player });
    world.slots[player.idx].wants_to_use_item = Some(WantsToUseItem {
        item: scroll,
        target: Some(Point { x: 10, y: 10 }),
    });

    item_use(&mut world, &map, &mut log, player);

    assert_eq!(
        world.slots[near.idx].take_damage.as_ref().unwrap().amount,
        vec![20]
    );
    assert_eq!(
        world.slots[close.idx].take_damage.as_ref().unwrap().amount,
        vec![20]
    );
    assert!(world.slots[far.idx].take_damage.is_none());
    assert!(!world.slots[scroll.idx].alive);

    damage(&mut world);
    assert_eq!(world.slots[near.idx].combat_stats.unwrap().hp, 8 - 20);
}

#[test]
fn confusion_scroll_stuns_target_tile() {
    let mut world = World::new();
    let mut log = GameLog::new();
    let mut map = open_map();
    let player = player_at(&mut world, 30, 20);
    let victim = spawner::goblin(&mut world, 10, 10).unwrap();
    map_indexing(&world, &mut map);

    let scroll = spawner::confusion_scroll(&mut world, 30, 20).unwrap();
    world.slots[scroll.idx].position = None;
    world.slots[scroll.idx].in_backpack = Some(InBackpack { owner: player });
    world.slots[player.idx].wants_to_use_item = Some(WantsToUseItem {
        item: scroll,
        target: Some(Point { x: 10, y: 10 }),
    });

    item_use(&mut world, &map, &mut log, player);

    assert_eq!(world.slots[victim.idx].confusion.unwrap().turns, 4);
    assert!(!world.slots[scroll.idx].alive);
}

#[test]
fn pickup_moves_item_into_backpack() {
    // After a pickup the item sits in the backpack and nowhere else.
    let mut world = World::new();
    let mut log = GameLog::new();
    let player = player_at(&mut world, 5, 5);
    let potion = spawner::health_potion(&mut world, 5, 5).unwrap();
    world.slots[player.idx].wants_to_pickup_item = Some(WantsToPickupItem {
        collected_by: player,
        item: potion,
    });

    inventory(&mut world, &mut log, player);

    let slot = &world.slots[potion.idx];
    assert_eq!(slot.in_backpack.as_ref().unwrap().owner, player);
    assert!(slot.position.is_none());
    assert!(slot.equipped.is_none());
    assert!(world.slots[player.idx].wants_to_pickup_item.is_none());
}

#[test]
fn get_item_reports_empty_tile() {
    let mut world = World::new();
    let mut log = GameLog::new();
    let player = player_at(&mut world, 5, 5);
    roguelike::player::get_item(&mut world, &mut log, player, Point { x: 5, y: 5 });
    assert!(world.slots[player.idx].wants_to_pickup_item.is_none());
    assert_eq!(
        log.messages.last(),
        Some(&roguelike::gamelog::LogEntry::NothingToPickUp)
    );
}

#[test]
fn drop_lands_at_dropper_position() {
    let mut world = World::new();
    let mut log = GameLog::new();
    let player = player_at(&mut world, 7, 9);
    let potion = spawner::health_potion(&mut world, 1, 1).unwrap();
    world.slots[potion.idx].position = None;
    world.slots[potion.idx].in_backpack = Some(InBackpack { owner: player });
    world.slots[player.idx].wants_to_drop_item = Some(WantsToDropItem { item: potion });

    drop_item(&mut world, &mut log, player);

    let slot = &world.slots[potion.idx];
    assert_eq!(slot.position, Some(Position { x: 7, y: 9 }));
    assert!(slot.in_backpack.is_none());
}

#[test]
fn equipping_swaps_out_the_occupied_slot() {
    // Equipping into an occupied hand moves the old item back into the
    // backpack; never two items in one slot of one owner.
    let mut world = World::new();
    let mut log = GameLog::new();
    let map = open_map();
    let player = player_at(&mut world, 5, 5);

    let dagger = spawner::dagger(&mut world, 1, 1).unwrap();
    world.slots[dagger.idx].position = None;
    world.slots[dagger.idx].in_backpack = Some(InBackpack { owner: player });
    world.slots[player.idx].wants_to_use_item = Some(WantsToUseItem {
        item: dagger,
        target: None,
    });
    item_use(&mut world, &map, &mut log, player);
    assert!(world.slots[dagger.idx].equipped.is_some());
    assert!(world.slots[dagger.idx].in_backpack.is_none());

    let sword = spawner::longsword(&mut world, 1, 1).unwrap();
    world.slots[sword.idx].position = None;
    world.slots[sword.idx].in_backpack = Some(InBackpack { owner: player });
    world.slots[player.idx].wants_to_use_item = Some(WantsToUseItem {
        item: sword,
        target: None,
    });
    item_use(&mut world, &map, &mut log, player);

    let sword_slot = &world.slots[sword.idx];
    assert_eq!(sword_slot.equipped.as_ref().unwrap().owner, player);
    assert_eq!(sword_slot.equipped.as_ref().unwrap().slot, EquipmentSlot::RightHand);
    let dagger_slot = &world.slots[dagger.idx];
    assert!(dagger_slot.equipped.is_none());
    assert_eq!(dagger_slot.in_backpack.as_ref().unwrap().owner, player);

    // At most one of backpack, equipped and position per item.
    for s in world.slots.iter() {
        if s.alive && s.item.is_some() {
            let mut places = 0;
            if s.in_backpack.is_some() {
                places += 1;
            }
            if s.equipped.is_some() {
                places += 1;
            }
            if s.position.is_some() {
                places += 1;
            }
            assert!(places <= 1);
        }
    }
}

#[test]
fn unequip_returns_item_to_backpack() {
    let mut world = World::new();
    let mut log = GameLog::new();
    let player = player_at(&mut world, 5, 5);
    let dagger = spawner::dagger(&mut world, 1, 1).unwrap();
    world.slots[dagger.idx].position = None;
    world.slots[dagger.idx].equipped = Some(roguelike::components::Equipped {
        owner: player,
        slot: EquipmentSlot::RightHand,
    });
    world.slots[player.idx].wants_to_unequip_item = Some(WantsToUnequipItem { item: dagger });

    unequip_item(&mut world, &mut log, player);

    let slot = &world.slots[dagger.idx];
    assert!(slot.equipped.is_none());
    assert_eq!(slot.in_backpack.as_ref().unwrap().owner, player);
}

#[test]
fn self_target_heals_the_actor_not_the_player() {
    // With no target point the item affects its user: a goblin drinking
    // its own potion heals itself and leaves the player alone.
    let mut world = World::new();
    let mut log = GameLog::new();
    let map = open_map();
    let player = player_at(&mut world, 5, 5);
    let goblin = spawner::goblin(&mut world, 10, 10).unwrap();
    world.slots[goblin.idx].combat_stats = Some(CombatStats {
        max_hp: 8,
        hp: 2,
        defense: 1,
        power: 4,
        regen_rate: 0,
    });
    world.slots[player.idx].combat_stats = Some(CombatStats {
        max_hp: 30,
        hp: 10,
        defense: 2,
        power: 5,
        regen_rate: 1,
    });
    let potion = spawner::health_potion(&mut world, 10, 10).unwrap();
    world.slots[potion.idx].position = None;
    world.slots[potion.idx].in_backpack = Some(InBackpack { owner: goblin });
    world.slots[goblin.idx].wants_to_use_item = Some(WantsToUseItem {
        item: potion,
        target: None,
    });

    item_use(&mut world, &map, &mut log, player);

    assert_eq!(world.slots[goblin.idx].combat_stats.unwrap().hp, 8);
    assert_eq!(world.slots[player.idx].combat_stats.unwrap().hp, 10);
    assert!(!world.slots[potion.idx].alive);
}
