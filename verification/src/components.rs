//! The kinds of data that an entity can carry.
use vstd::prelude::*;

pub mod combat;
pub mod position;
pub mod viewshed;

pub use combat::{CombatStats, IncomingDamage, MeleeAttackIntent};
pub use position::Position;
pub use viewshed::Viewshed;

verus! {

/// Marks an entity that drifts to the left.
#[derive(Clone, Copy, Debug)]
pub struct LeftMover {}

/// Marks the entity that the player steers.
#[derive(Clone, Copy, Debug)]
pub struct PlayerChar {}

/// Marks an entity that acts on its own in the monsters' turn.
#[derive(Clone, Copy, Debug)]
pub struct MonsterChar {}

/// The name under which an entity appears in reports.
#[derive(Debug)]
pub struct GameplayName {
    pub name: String,
}

/// Marks an entity that can be picked up.
#[derive(Clone, Copy, Debug)]
pub struct Item {}

/// Restores hit points to whoever uses it.
#[derive(PartialEq, Eq, Structural, Clone, Copy, Debug)]
pub struct Healer {
    pub heal_amount: i32,
}

/// Marks an entity that nothing else can share a tile with.
#[derive(Clone, Copy, Debug)]
pub struct TileBlocker {}

} // verus!
