//! Melee resolution: attack intents become pending damage, weighed by
//! the power and defense bonuses of equipped items.
use vstd::prelude::*;
use crate::components::{CombatStats, TakeDamage, WantsToAttack};
use crate::damage_system::{clamp_i32, log_extended};
use crate::gamelog::{GameLog, LogEntry};
use crate::world::{Entity, Slot, World, pending_damage, slot_handle};

verus! {

/// The summed melee power bonus of the first `n` slots' items equipped
/// by `owner`.
pub open spec fn offense_bonus(w: Seq<Slot>, owner: Entity, n: int) -> int
    decreases n,
{
    if n <= 0 {
        0
    } else {
        offense_bonus(w, owner, n - 1) + ({
            let s = w[n - 1];
            if s.alive && s.melee_power_bonus is Some && (s.equipped matches Some(eq)
                && eq.owner == owner) {
                s.melee_power_bonus->Some_0.power as int
            } else {
                0
            }
        })
    }
}

/// The summed melee defense bonus of the first `n` slots' items equipped
/// by `owner`.
pub open spec fn defense_bonus(w: Seq<Slot>, owner: Entity, n: int) -> int
    decreases n,
{
    if n <= 0 {
        0
    } else {
        defense_bonus(w, owner, n - 1) + ({
            let s = w[n - 1];
            if s.alive && s.melee_defense_bonus is Some && (s.equipped matches Some(eq)
                && eq.owner == owner) {
                s.melee_defense_bonus->Some_0.defense as int
            } else {
                0
            }
        })
    }
}

/// Slot `i` holds a melee attacker: alive with an attack intent, a name
/// and combat statistics. Its intent is consumed this pass.
pub open spec fn melee_attacker(w: Seq<Slot>, i: int) -> bool {
    let s = w[i];
    s.alive && s.wants_to_attack is Some && s.name is Some && s.combat_stats is Some
}

/// The attack of slot `i` resolves: the attacker still stands, and the
/// intent's target is a live named combatant with hit points left.
pub open spec fn melee_lands(w: Seq<Slot>, i: int) -> bool {
    let s = w[i];
    let t = s.wants_to_attack->Some_0.target;
    &&& melee_attacker(w, i)
    &&& s.combat_stats->Some_0.hp > 0
    &&& t.idx < w.len()
    &&& w[t.idx as int].alive
    &&& w[t.idx as int].gen == t.gen
    &&& w[t.idx as int].combat_stats is Some
    &&& w[t.idx as int].combat_stats->Some_0.hp > 0
    &&& w[t.idx as int].name is Some
}

/// Offense minus defense, both with equipment bonuses, floored at zero.
pub open spec fn melee_damage(w: Seq<Slot>, i: int) -> int {
    let s = w[i];
    let t = s.wants_to_attack->Some_0.target;
    let ts = w[t.idx as int];
    let off = s.combat_stats->Some_0.power + offense_bonus(w, slot_handle(w, i), w.len() as int);
    let def = ts.combat_stats->Some_0.defense + defense_bonus(w, t, w.len() as int);
    if off - def > 0 {
        off - def
    } else {
        0
    }
}

/// The damage amounts enqueued on the entity in slot `tgt` by the
/// attackers among the first `n` slots, in slot order.
pub open spec fn melee_additions(w: Seq<Slot>, tgt: int, n: int) -> Seq<i32>
    decreases n,
{
    if n <= 0 {
        Seq::empty()
    } else {
        let rest = melee_additions(w, tgt, n - 1);
        let i = n - 1;
        if melee_lands(w, i) && w[i].wants_to_attack->Some_0.target.idx == tgt && melee_damage(
            w,
            i,
        ) > 0 {
            rest.push(clamp_i32(melee_damage(w, i)) as i32)
        } else {
            rest
        }
    }
}

proof fn lemma_bonus_bound(w: Seq<Slot>, owner: Entity, n: int)
    requires
        0 <= n <= w.len(),
    ensures
        -(n * 0x8000_0000) <= offense_bonus(w, owner, n) <= n * 0x8000_0000,
        -(n * 0x8000_0000) <= defense_bonus(w, owner, n) <= n * 0x8000_0000,
    decreases n,
{
    if n > 0 {
        lemma_bonus_bound(w, owner, n - 1);
    }
}

/// One melee pass. Every attacker's intent is removed; every resolving
/// attack with positive damage enqueues exactly that damage on its
/// target, in slot order; nothing else about any entity changes.
#[verifier::rlimit(60)]
pub fn melee_combat(world: &mut World, log: &mut GameLog)
    ensures
        final(world)@.len() == old(world)@.len(),
        forall|k: int| #![trigger final(world)@[k]] 0 <= k < old(world)@.len()
            ==> final(world)@[k] == (Slot {
            wants_to_attack: if melee_attacker(old(world)@, k) {
                None
            } else {
                old(world)@[k].wants_to_attack
            },
            take_damage: final(world)@[k].take_damage,
            ..old(world)@[k]
        }),
        forall|k: int| #![trigger final(world)@[k]] 0 <= k < old(world)@.len() ==> pending_damage(
            final(world)@[k],
        ) == pending_damage(old(world)@[k]) + melee_additions(
            old(world)@,
            k,
            old(world)@.len() as int,
        ),
        log_extended(*old(log), *final(log)),
{
    let n = world.slots.len();
    let mut i: usize = 0;
    while i < n
        invariant
            n == world@.len(),
            n == old(world)@.len(),
            i <= n,
            forall|k: int| #![trigger world@[k]] 0 <= k < n ==> world@[k] == (Slot {
                wants_to_attack: if k < i && melee_attacker(old(world)@, k) {
                    None
                } else {
                    old(world)@[k].wants_to_attack
                },
                take_damage: world@[k].take_damage,
                ..old(world)@[k]
            }),
            forall|k: int| #![trigger world@[k]] 0 <= k < n ==> pending_damage(world@[k])
                == pending_damage(old(world)@[k]) + melee_additions(old(world)@, k, i as int),
            log_extended(*old(log), *log),
        decreases n - i,
    {
        let ghost w0 = old(world)@;
        let attacker_slot = &world.slots[i];
        let qualifies: bool = attacker_slot.alive && attacker_slot.wants_to_attack.is_some()
            && attacker_slot.name.is_some() && attacker_slot.combat_stats.is_some();
        proof {
            assert(qualifies == melee_attacker(w0, i as int));
        }
        if qualifies {
            let wa: WantsToAttack = world.slots[i].wants_to_attack.unwrap();
            let attacker_stats: CombatStats = world.slots[i].combat_stats.unwrap();
            let attacker_gen: u64 = world.slots[i].gen;
            let att_handle = Entity { idx: i, gen: attacker_gen };
            let t = wa.target;
            let target_ok: bool = attacker_stats.hp > 0 && t.idx < n && world.slots[t.idx].alive
                && world.slots[t.idx].gen == t.gen && world.slots[t.idx].combat_stats.is_some()
                && match &world.slots[t.idx].combat_stats {
                Some(cs) => cs.hp > 0,
                None => false,
            } && world.slots[t.idx].name.is_some();
            proof {
                assert(target_ok == melee_lands(w0, i as int));
            }
            if target_ok {
                let target_stats: CombatStats = world.slots[t.idx].combat_stats.unwrap();
                // Offense and defense with equipment bonuses.
                let mut off_acc: i128 = 0;
                let mut def_acc: i128 = 0;
                let mut j: usize = 0;
                while j < n
                    invariant
                        n == world@.len(),
                        n == w0.len(),
                        j <= n,
                        forall|k: int| #![trigger world@[k]] 0 <= k < n ==> world@[k] == (Slot {
                            wants_to_attack: world@[k].wants_to_attack,
                            take_damage: world@[k].take_damage,
                            ..w0[k]
                        }),
                        off_acc == offense_bonus(w0, att_handle, j as int),
                        def_acc == defense_bonus(w0, t, j as int),
                        -((j as int) * 0x8000_0000) <= off_acc <= (j as int) * 0x8000_0000,
                        -((j as int) * 0x8000_0000) <= def_acc <= (j as int) * 0x8000_0000,
                    decreases n - j,
                {
                    proof {
                        assert((j as int + 1) * 0x8000_0000 == (j as int) * 0x8000_0000
                            + 0x8000_0000);
                    }
                    let item = &world.slots[j];
                    if item.alive && item.melee_power_bonus.is_some() && match &item.equipped {
                        Some(eq) => eq.owner == att_handle,
                        None => false,
                    } {
                        off_acc = off_acc + item.melee_power_bonus.unwrap().power as i128;
                    }
                    if item.alive && item.melee_defense_bonus.is_some() && match &item.equipped {
                        Some(eq) => eq.owner == t,
                        None => false,
                    } {
                        def_acc = def_acc + item.melee_defense_bonus.unwrap().defense as i128;
                    }
                    j += 1;
                }
                let offense: i128 = attacker_stats.power as i128 + off_acc;
                let defense: i128 = target_stats.defense as i128 + def_acc;
                let damage_wide: i128 = if offense - defense > 0 {
                    offense - defense
                } else {
                    0
                };
                proof {
                    assert(damage_wide == melee_damage(w0, i as int));
                }
                let attacker_name = world.slots[i].name.as_ref().unwrap().name.clone();
                let target_name = world.slots[t.idx].name.as_ref().unwrap().name.clone();
                if damage_wide == 0 {
                    log.push(
                        LogEntry::UnableToHurt { attacker: attacker_name, target: target_name },
                    );
                } else {
                    let dmg: i32 = if damage_wide > i32::MAX as i128 {
                        i32::MAX
                    } else {
                        damage_wide as i32
                    };
                    proof {
                        assert(dmg as int == clamp_i32(melee_damage(w0, i as int)));
                    }
                    log.push(
                        LogEntry::Melee {
                            attacker: attacker_name,
                            target: target_name,
                            damage: dmg,
                        },
                    );
                    TakeDamage::add_damage(world, t, dmg);
                }
            }
            world.slots[i].wants_to_attack = None;
        }
        proof {
            assert forall|k: int| 0 <= k < n implies pending_damage(#[trigger] world@[k])
                == pending_damage(w0[k]) + melee_additions(w0, k, i as int + 1) by {
                assert(melee_additions(w0, k, i as int + 1) == if melee_lands(w0, i as int)
                    && w0[i as int].wants_to_attack->Some_0.target.idx == k && melee_damage(
                    w0,
                    i as int,
                ) > 0 {
                    melee_additions(w0, k, i as int).push(
                        clamp_i32(melee_damage(w0, i as int)) as i32,
                    )
                } else {
                    melee_additions(w0, k, i as int)
                });
            }
        }
        i += 1;
    }
}

} // verus!
