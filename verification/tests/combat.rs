//! Combat pipeline scenarios: melee resolution, damage accumulation and
//! the death sweep.
use roguelike::components::{CombatStats, Name, Player, TakeDamage, WantsToAttack};
use roguelike::damage_system::{damage, delete_the_dead};
use roguelike::gamelog::GameLog;
use roguelike::melee_combat_system::melee_combat;
use roguelike::world::{Entity, World};

fn combatant(world: &mut World, name: &str, max_hp: i32, hp: i32, defense: i32, power: i32) -> Entity {
    let e = world.spawn().unwrap();
    world.slots[e.idx].name = Some(Name { name: name.to_string() });
    world.slots[e.idx].combat_stats = Some(CombatStats {
        max_hp,
        hp,
        defense,
        power,
        regen_rate: 0,
    });
    e
}

#[test]
fn melee_enqueues_power_minus_defense() {
    // Attacker power 5 against defense 2 and 8 hp: one pending hit of 3,
    // and 5 hp after application.
    let mut world = World::new();
    let mut log = GameLog::new();
    let attacker = combatant(&mut world, "Attacker", 30, 30, 0, 5);
    let target = combatant(&mut world, "Target", 8, 8, 2, 0);
    world.slots[attacker.idx].wants_to_attack = Some(WantsToAttack { target });

    melee_combat(&mut world, &mut log);

    assert!(world.slots[attacker.idx].wants_to_attack.is_none());
    let pending = world.slots[target.idx].take_damage.as_ref().unwrap();
    assert_eq!(pending.amount, vec![3]);

    damage(&mut world);
    assert_eq!(world.slots[target.idx].combat_stats.unwrap().hp, 5);
}

#[test]
fn two_attacks_apply_as_one_sum() {
    // Two attackers for 3 and 4 damage: the target loses exactly 7 hp in
    // one application.
    let mut world = World::new();
    let mut log = GameLog::new();
    let a1 = combatant(&mut world, "First", 30, 30, 0, 3);
    let a2 = combatant(&mut world, "Second", 30, 30, 0, 4);
    let target = combatant(&mut world, "Target", 20, 20, 0, 0);
    world.slots[a1.idx].wants_to_attack = Some(WantsToAttack { target });
    world.slots[a2.idx].wants_to_attack = Some(WantsToAttack { target });

    melee_combat(&mut world, &mut log);
    let pending = world.slots[target.idx].take_damage.as_ref().unwrap();
    assert_eq!(pending.amount, vec![3, 4]);

    damage(&mut world);
    assert_eq!(world.slots[target.idx].combat_stats.unwrap().hp, 13);
    assert_eq!(
        world.slots[target.idx].take_damage.as_ref().unwrap().amount.len(),
        0
    );
}

#[test]
fn enqueue_order_cannot_matter() {
    // The same amounts in either order leave the same hit points.
    let mut world = World::new();
    let t1 = combatant(&mut world, "One", 20, 20, 0, 0);
    let t2 = combatant(&mut world, "Two", 20, 20, 0, 0);
    TakeDamage::add_damage(&mut world, t1, 3);
    TakeDamage::add_damage(&mut world, t1, 4);
    TakeDamage::add_damage(&mut world, t2, 4);
    TakeDamage::add_damage(&mut world, t2, 3);
    damage(&mut world);
    assert_eq!(
        world.slots[t1.idx].combat_stats.unwrap().hp,
        world.slots[t2.idx].combat_stats.unwrap().hp
    );
    assert_eq!(world.slots[t1.idx].combat_stats.unwrap().hp, 13);
}

#[test]
fn blocked_attack_enqueues_nothing() {
    // Defense at or above offense deals no hit at all.
    let mut world = World::new();
    let mut log = GameLog::new();
    let attacker = combatant(&mut world, "Weak", 30, 30, 0, 2);
    let target = combatant(&mut world, "Armored", 8, 8, 5, 0);
    world.slots[attacker.idx].wants_to_attack = Some(WantsToAttack { target });

    melee_combat(&mut world, &mut log);
    assert!(world.slots[target.idx].take_damage.is_none());
    damage(&mut world);
    assert_eq!(world.slots[target.idx].combat_stats.unwrap().hp, 8);
}

#[test]
fn equipment_bonuses_count() {
    // A +4 weapon on the attacker and a +4 shield on the target shift
    // offense and defense: (5 + 4) - (2 + 4) = 3.
    let mut world = World::new();
    let mut log = GameLog::new();
    let attacker = combatant(&mut world, "Armed", 30, 30, 0, 5);
    let target = combatant(&mut world, "Shielded", 12, 12, 2, 0);

    let weapon = roguelike::spawner::dagger(&mut world, 1, 1).unwrap();
    world.slots[weapon.idx].position = None;
    world.slots[weapon.idx].equipped = Some(roguelike::components::Equipped {
        owner: attacker,
        slot: roguelike::components::EquipmentSlot::RightHand,
    });
    let shield = roguelike::spawner::shield(&mut world, 1, 2).unwrap();
    world.slots[shield.idx].position = None;
    world.slots[shield.idx].equipped = Some(roguelike::components::Equipped {
        owner: target,
        slot: roguelike::components::EquipmentSlot::LeftHand,
    });

    world.slots[attacker.idx].wants_to_attack = Some(WantsToAttack { target });
    melee_combat(&mut world, &mut log);
    damage(&mut world);
    assert_eq!(world.slots[target.idx].combat_stats.unwrap().hp, 9);
}

#[test]
fn death_sweep_removes_monsters_not_player() {
    // A monster at zero hp disappears from the store; the player at zero
    // hp survives and only the flag reports the death.
    let mut world = World::new();
    let mut log = GameLog::new();
    let monster = combatant(&mut world, "Goner", 8, 0, 0, 0);
    let player = combatant(&mut world, "Hero", 30, 0, 0, 0);
    world.slots[player.idx].player = Some(Player {});

    let player_died = delete_the_dead(&mut world, &mut log);
    assert!(player_died);
    assert!(!world.slots[monster.idx].alive);
    assert!(!world.is_valid(monster));
    assert!(world.slots[player.idx].alive);
    assert!(world.is_valid(player));
}

#[test]
fn regeneration_waits_clamp_at_max() {
    // Skipping a turn heals by the regeneration rate, clamped at max hp.
    let mut world = World::new();
    let player = combatant(&mut world, "Hero", 10, 9, 0, 0);
    world.slots[player.idx].player = Some(Player {});
    world.slots[player.idx].combat_stats = Some(CombatStats {
        max_hp: 10,
        hp: 9,
        defense: 0,
        power: 0,
        regen_rate: 3,
    });
    let next = roguelike::player::skip_turn(&mut world, player);
    assert_eq!(next, roguelike::RunState::PlayerTurn);
    assert_eq!(world.slots[player.idx].combat_stats.unwrap().hp, 10);
}
