//! Deferred damage application and the end-of-tick death sweep.
use vstd::prelude::*;
use crate::components::{CombatStats, TakeDamage};
use crate::gamelog::{GameLog, LogEntry};
use crate::world::{Entity, Slot, World, bump_gen, empty_slot, pending_damage};

verus! {

/// The sum of the first `n` pending amounts.
pub open spec fn sum_prefix(s: Seq<i32>, n: int) -> int
    decreases n,
{
    if n <= 0 {
        0
    } else {
        sum_prefix(s, n - 1) + s[n - 1]
    }
}

/// The sum of a whole damage queue.
pub open spec fn sum_i32(s: Seq<i32>) -> int {
    sum_prefix(s, s.len() as int)
}

/// The nearest representable `i32` value.
pub open spec fn clamp_i32(x: int) -> int {
    if x > i32::MAX {
        i32::MAX as int
    } else if x < i32::MIN {
        i32::MIN as int
    } else {
        x
    }
}

pub proof fn lemma_sum_prefix_bound(s: Seq<i32>, n: int)
    requires
        0 <= n <= s.len(),
    ensures
        -(n * 0x8000_0000) <= sum_prefix(s, n) <= n * 0x8000_0000,
    decreases n,
{
    if n > 0 {
        lemma_sum_prefix_bound(s, n - 1);
    }
}

/// What one slot's hit points become when its queue is applied.
pub open spec fn hp_after_damage(s: Slot) -> int {
    clamp_i32(s.combat_stats->Some_0.hp - sum_i32(pending_damage(s)))
}

/// A slot is due for damage application: alive, fighting, with a
/// non-empty queue.
pub open spec fn damage_pending(s: Slot) -> bool {
    s.alive && s.combat_stats is Some && s.take_damage is Some && pending_damage(s).len() > 0
}

/// Sums each entity's queued damage amounts, subtracts the sum from its
/// hit points in one step, and clears the queue. Amounts are summed
/// exactly, so the order in which hits were enqueued cannot matter.
pub fn damage(world: &mut World)
    ensures
        final(world)@.len() == old(world)@.len(),
        forall|i: int| #![trigger final(world)@[i]] 0 <= i < old(world)@.len() ==> {
            let s = old(world)@[i];
            let s2 = final(world)@[i];
            if damage_pending(s) {
                &&& s2 == (Slot { combat_stats: s2.combat_stats, take_damage: s2.take_damage, ..s })
                &&& s2.combat_stats == Some(
                    CombatStats { hp: hp_after_damage(s) as i32, ..s.combat_stats->Some_0 },
                )
                &&& s2.take_damage is Some
                &&& pending_damage(s2).len() == 0
            } else {
                s2 == s
            }
        },
{
    let n = world.slots.len();
    let mut i: usize = 0;
    while i < n
        invariant
            n == world@.len(),
            i <= n,
            forall|k: int| #![trigger world@[k]] 0 <= k < i ==> {
                let s = old(world)@[k];
                let s2 = world@[k];
                if damage_pending(s) {
                    &&& s2 == (Slot {
                        combat_stats: s2.combat_stats,
                        take_damage: s2.take_damage,
                        ..s
                    })
                    &&& s2.combat_stats == Some(
                        CombatStats { hp: hp_after_damage(s) as i32, ..s.combat_stats->Some_0 },
                    )
                    &&& s2.take_damage is Some
                    &&& pending_damage(s2).len() == 0
                } else {
                    s2 == s
                }
            },
            forall|k: int| #![trigger world@[k]] i <= k < n ==> world@[k] == old(world)@[k],
        decreases n - i,
    {
        let slot = &mut world.slots[i];
        let process: bool = slot.alive && slot.combat_stats.is_some() && match &slot.take_damage {
            Some(td) => td.amount.len() > 0,
            None => false,
        };
        if process {
            let amounts_len: usize = match &slot.take_damage {
                Some(td) => td.amount.len(),
                None => 0,
            };
            let mut total: i128 = 0;
            let mut k: usize = 0;
            while k < amounts_len
                invariant
                    slot.take_damage is Some,
                    amounts_len == pending_damage(*slot).len(),
                    k <= amounts_len,
                    total == sum_prefix(pending_damage(*slot), k as int),
                    -((k as int) * 0x8000_0000) <= total <= (k as int) * 0x8000_0000,
                decreases amounts_len - k,
            {
                let amt: i32 = match &slot.take_damage {
                    Some(td) => td.amount[k],
                    None => 0,
                };
                proof {
                    assert((k as int + 1) * 0x8000_0000 == (k as int) * 0x8000_0000
                        + 0x8000_0000);
                }
                total = total + amt as i128;
                k += 1;
            }
            let stats = slot.combat_stats.unwrap();
            let new_hp_wide: i128 = stats.hp as i128 - total;
            let new_hp: i32 = if new_hp_wide > i32::MAX as i128 {
                i32::MAX
            } else if new_hp_wide < i32::MIN as i128 {
                i32::MIN
            } else {
                new_hp_wide as i32
            };
            slot.combat_stats = Some(CombatStats { hp: new_hp, ..stats });
            slot.take_damage = Some(TakeDamage { amount: Vec::new() });
        }
        i += 1;
    }
}

/// A slot holds a live non-player combatant with no hit points left.
pub open spec fn doomed(s: Slot) -> bool {
    s.alive && (s.combat_stats matches Some(cs) && cs.hp <= 0) && s.player is None
}

/// A slot holds the live player with no hit points left.
pub open spec fn player_down(s: Slot) -> bool {
    s.alive && (s.combat_stats matches Some(cs) && cs.hp <= 0) && s.player is Some
}

/// The log so far is kept; new entries may follow it.
pub open spec fn log_extended(pre: GameLog, post: GameLog) -> bool {
    &&& post.messages@.len() >= pre.messages@.len()
    &&& forall|k: int| 0 <= k < pre.messages@.len() ==> post.messages@[k] == pre.messages@[k]
}

/// The death sweep: despawns every non-player entity whose hit points
/// have run out, logging each death. The player entity is never
/// despawned; its death is reported to the caller, which moves the
/// run-state controller to the game-over state instead.
pub fn delete_the_dead(world: &mut World, log: &mut GameLog) -> (player_died: bool)
    ensures
        final(world)@.len() == old(world)@.len(),
        forall|i: int| #![trigger final(world)@[i]] 0 <= i < old(world)@.len() ==> {
            let s = old(world)@[i];
            let s2 = final(world)@[i];
            if doomed(s) {
                s2 == empty_slot(bump_gen(s.gen), false)
            } else {
                s2 == s
            }
        },
        player_died == exists|i: int|
            0 <= i < old(world)@.len() && player_down(#[trigger] old(world)@[i]),
        log_extended(*old(log), *final(log)),
{
    let n = world.slots.len();
    let mut player_died = false;
    let mut i: usize = 0;
    while i < n
        invariant
            n == world@.len(),
            i <= n,
            forall|k: int| #![trigger world@[k]] 0 <= k < i ==> {
                let s = old(world)@[k];
                let s2 = world@[k];
                if doomed(s) {
                    s2 == empty_slot(bump_gen(s.gen), false)
                } else {
                    s2 == s
                }
            },
            forall|k: int| #![trigger world@[k]] i <= k < n ==> world@[k] == old(world)@[k],
            player_died == exists|k: int|
                0 <= k < i && player_down(#[trigger] old(world)@[k]),
            log_extended(*old(log), *log),
        decreases n - i,
    {
        let slot = &self_slot(world, i);
        let hp_gone: bool = slot.alive && match &slot.combat_stats {
            Some(cs) => cs.hp <= 0,
            None => false,
        };
        if hp_gone {
            if slot.player.is_some() {
                player_died = true;
                log.push(LogEntry::PlayerDied);
            } else {
                match &slot.name {
                    Some(nm) => {
                        let name_text = nm.name.clone();
                        log.push(LogEntry::Dead { name: name_text });
                    },
                    None => {},
                }
                let gen = slot.gen;
                world.despawn(Entity { idx: i, gen });
            }
        }
        i += 1;
    }
    player_died
}

fn self_slot(world: &World, i: usize) -> (s: &Slot)
    requires
        i < world@.len(),
    ensures
        *s == world@[i as int],
{
    &world.slots[i]
}

} // verus!
