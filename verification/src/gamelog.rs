//! The append-only game log: an ordered sequence of structured events.
//!
//! The simulation records events as data; the front end renders them to
//! human-readable text.
use vstd::prelude::*;

verus! {

/// One event worth reporting to the player.
#[derive(Clone, PartialEq, Eq, Debug)]
pub enum LogEntry {
    Welcome,
    Melee { attacker: String, target: String, damage: i32 },
    UnableToHurt { attacker: String, target: String },
    Dead { name: String },
    PlayerDied,
    PickedUp { item: String },
    NothingToPickUp,
    Dropped { item: String },
    UsedHealing { item: String, heal: i32 },
    UsedDamage { item: String, damage: i32 },
    UsedConfusion { item: String },
    Equipped { item: String },
    Unequipped { item: String },
    NoStairsHere,
    Descended,
}

/// The ordered log; systems only ever append to it.
pub struct GameLog {
    pub messages: Vec<LogEntry>,
}

impl GameLog {
    pub fn new() -> (log: GameLog)
        ensures
            log.messages@ == Seq::<LogEntry>::empty(),
    {
        GameLog { messages: Vec::new() }
    }

    pub fn push(&mut self, entry: LogEntry)
        ensures
            final(self).messages@ == old(self).messages@.push(entry),
    {
        self.messages.push(entry);
    }
}

} // verus!
