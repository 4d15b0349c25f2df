//! Component types attachable to entities, and the data they carry.
//!
//! Components are plain data. Marker components (no fields) tag an entity
//! with a role; relational components hold an entity handle as a plain
//! foreign-key-style reference.
use vstd::prelude::*;
use crate::world::Entity;

verus! {

/// A tile coordinate pair, used for targeting and visibility sets.
#[derive(Clone, Copy, PartialEq, Eq, Structural, Debug)]
pub struct Point {
    pub x: i32,
    pub y: i32,
}

/// Location of an entity on the map.
#[derive(Clone, Copy, PartialEq, Eq, Structural, Debug)]
pub struct Position {
    pub x: i32,
    pub y: i32,
}

/// A color channel triple for the renderer; not gameplay-relevant.
#[derive(Clone, Copy, PartialEq, Eq, Structural, Debug)]
pub struct Rgb {
    pub r: u8,
    pub g: u8,
    pub b: u8,
}

/// Draw-order layer, lowest drawn first; not gameplay-relevant.
#[derive(Clone, Copy, PartialEq, Eq, Structural, Debug, PartialOrd, Ord)]
pub enum RenderOrder {
    Items,
    NPC,
    Player,
    Particle,
}

/// How the external renderer should draw an entity; not gameplay-relevant.
#[derive(Clone, Copy, PartialEq, Eq, Structural, Debug)]
pub struct Renderable {
    pub glyph: u16,
    pub fg: Rgb,
    pub bg: Rgb,
    pub render: bool,
    pub always_render: bool,
    pub order: RenderOrder,
}

impl Default for Renderable {
    /// A blank white-on-black glyph on the player layer, drawn when visible.
    fn default() -> (r: Renderable)
        ensures
            r == (Renderable {
                glyph: 32u16,
                fg: Rgb { r: 255u8, g: 255u8, b: 255u8 },
                bg: Rgb { r: 0u8, g: 0u8, b: 0u8 },
                render: true,
                always_render: false,
                order: RenderOrder::Player,
            }),
    {
        Renderable {
            glyph: 32,
            fg: Rgb { r: 255, g: 255, b: 255 },
            bg: Rgb { r: 0, g: 0, b: 0 },
            render: true,
            always_render: false,
            order: RenderOrder::Player,
        }
    }
}

/// Marker: the designated player entity.
#[derive(Clone, Copy, PartialEq, Eq, Structural, Debug)]
pub struct Player {}

/// Marker: a monster driven by the per-turn decision system.
#[derive(Clone, Copy, PartialEq, Eq, Structural, Debug)]
pub struct Monster {}

/// Display name of an entity, used by the game log.
#[derive(Clone, PartialEq, Eq, Debug)]
pub struct Name {
    pub name: String,
}

/// Marker: the entity blocks movement through its tile.
#[derive(Clone, Copy, PartialEq, Eq, Structural, Debug)]
pub struct BlocksTile {}

/// Hit points and melee statistics.
#[derive(Clone, Copy, PartialEq, Eq, Structural, Debug)]
pub struct CombatStats {
    pub max_hp: i32,
    pub hp: i32,
    pub defense: i32,
    pub power: i32,
    pub regen_rate: i32,
}

/// The set of tiles an entity can currently see.
///
/// `dirty` is set on movement and consumed by the visibility service,
/// which clears it after recomputation.
#[derive(Clone, PartialEq, Eq, Debug)]
pub struct Viewshed {
    pub visible_tiles: Vec<Point>,
    pub range: i32,
    pub dirty: bool,
}

/// Intent: attack `target` in melee this turn.
#[derive(Clone, Copy, PartialEq, Eq, Structural, Debug)]
pub struct WantsToAttack {
    pub target: Entity,
}

/// Intent: pick an item up from the collector's tile this turn.
#[derive(Clone, Copy, PartialEq, Eq, Structural, Debug)]
pub struct WantsToPickupItem {
    pub collected_by: Entity,
    pub item: Entity,
}

/// Intent: drop `item` at the dropper's position this turn.
#[derive(Clone, Copy, PartialEq, Eq, Structural, Debug)]
pub struct WantsToDropItem {
    pub item: Entity,
}

/// Intent: move `item` from an equipment slot back to the backpack.
#[derive(Clone, Copy, PartialEq, Eq, Structural, Debug)]
pub struct WantsToUnequipItem {
    pub item: Entity,
}

/// Intent: use `item`, optionally aimed at a target point.
#[derive(Clone, Copy, PartialEq, Eq, Structural, Debug)]
pub struct WantsToUseItem {
    pub item: Entity,
    pub target: Option<Point>,
}

/// Pending damage amounts accumulated during a tick, applied as one sum.
#[derive(Clone, PartialEq, Eq, Debug)]
pub struct TakeDamage {
    pub amount: Vec<i32>,
}

/// Marker: the entity is an item.
#[derive(Clone, Copy, PartialEq, Eq, Structural, Debug)]
pub struct Item {}

/// Which hand an equippable item occupies.
#[derive(Clone, Copy, PartialEq, Eq, Structural, Debug)]
pub enum EquipmentSlot {
    RightHand,
    LeftHand,
}

/// The item can be equipped into `slot`.
#[derive(Clone, Copy, PartialEq, Eq, Structural, Debug)]
pub struct Equippable {
    pub slot: EquipmentSlot,
}

/// The item is currently worn or wielded by `owner` in `slot`.
#[derive(Clone, Copy, PartialEq, Eq, Structural, Debug)]
pub struct Equipped {
    pub owner: Entity,
    pub slot: EquipmentSlot,
}

/// The item is carried in `owner`'s backpack.
#[derive(Clone, Copy, PartialEq, Eq, Structural, Debug)]
pub struct InBackpack {
    pub owner: Entity,
}

/// Marker: the item is despawned after a successful use.
#[derive(Clone, Copy, PartialEq, Eq, Structural, Debug)]
pub struct Consumable {}

/// Added to the wielder's melee power while equipped.
#[derive(Clone, Copy, PartialEq, Eq, Structural, Debug)]
pub struct MeleePowerBonus {
    pub power: i32,
}

/// Added to the wearer's melee defense while equipped.
#[derive(Clone, Copy, PartialEq, Eq, Structural, Debug)]
pub struct MeleeDefenseBonus {
    pub defense: i32,
}

/// Using the item restores up to `heal` hit points, clamped at max hp.
#[derive(Clone, Copy, PartialEq, Eq, Structural, Debug)]
pub struct ProvidesHealing {
    pub heal: i32,
}

/// The item is aimed at a point within `range` when used.
#[derive(Clone, Copy, PartialEq, Eq, Structural, Debug)]
pub struct Ranged {
    pub range: i32,
}

/// Using the item enqueues `damage` pending damage on each target.
#[derive(Clone, Copy, PartialEq, Eq, Structural, Debug)]
pub struct DealsDamage {
    pub damage: i32,
}

/// On an item: using it confuses each target for `turns` turns.
/// On a creature: it skips its turn while `turns` remain.
#[derive(Clone, Copy, PartialEq, Eq, Structural, Debug)]
pub struct Confusion {
    pub turns: i32,
}

/// The item affects every occupant within `radius` of the target point.
#[derive(Clone, Copy, PartialEq, Eq, Structural, Debug)]
pub struct AreaOfEffect {
    pub radius: i32,
}

/// Marker: the entity should be included in a saved game.
#[derive(Clone, Copy, PartialEq, Eq, Structural, Debug)]
pub struct SerializeMe {}

} // verus!
