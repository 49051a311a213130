//! The transient messages that pass between the subsystems within a frame.

use crate::entity::EntityId;
use vstd::prelude::*;

verus! {

/// Two entities reported as newly overlapping this frame.
#[derive(Clone, Copy, Debug, PartialEq, Eq)]
pub struct CollisionPair {
    /// The entity reported first. Only it can deal damage for this pair.
    pub first: EntityId,
    /// The entity reported second. Only it can be picked up for this pair.
    pub second: EntityId,
}

/// A request to reduce the receiver's health.
#[derive(Clone, Copy, Debug, PartialEq, Eq)]
pub struct DamageEvent {
    /// The entity that deals the damage.
    pub giver: EntityId,
    /// The entity that takes it.
    pub receiver: EntityId,
    /// How much health is taken off.
    pub amount: u32,
}

/// A request to add a gem's value to the player's mana.
#[derive(Clone, Copy, Debug, PartialEq, Eq)]
pub struct ManaGainEvent {
    /// The entity that collects the mana.
    pub player: EntityId,
    /// The gem that is picked up.
    pub gem: EntityId,
    /// How much mana the gem grants.
    pub amount: u32,
}

/// A request to place one minion of a burst.
#[derive(Clone, Copy, Debug, PartialEq, Eq)]
pub struct SpawnMinionRequest {
    /// The minion's place in its burst, counted from one.
    pub offset_index: u32,
}

/// A sound to be played, fire and forget.
#[derive(Clone, Copy, Debug, PartialEq, Eq, Hash, Structural)]
pub enum AudioCue {
    /// A burst of minions was paid for.
    MinionSpawned,
    /// A burst was asked for without the mana to pay for it.
    OutOfMana,
    /// A minion dealt its damage and detonated.
    MinionExplosion,
    /// The player was destroyed.
    PlayerDeath,
    /// The enemy was destroyed.
    EnemyDeath,
    /// A gem was picked up.
    ManaPickup,
}

} // verus!
