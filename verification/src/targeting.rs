//! Targeting: which entity each kind of chaser pursues on a frame.

use crate::entity::{EntityId, Kind};
use crate::registry::Registry;
use crate::world::{sole_of, World};
use vstd::prelude::*;

verus! {

/// The kind of entity that a chaser of `kind` pursues: enemies pursue the
/// player, minions pursue the enemy, and nothing else pursues anything.
pub open spec fn prey_of(kind: Kind) -> Option<Kind> {
    match kind {
        Kind::Enemy => Some(Kind::Player),
        Kind::Minion => Some(Kind::Enemy),
        _ => None,
    }
}

/// The entity that chasers of `kind` pursue in `world`: the one live entity
/// of their prey's kind. With no such entity, or more than one, they pursue
/// nothing on this frame.
pub open spec fn target_of(world: World, kind: Kind) -> Option<EntityId> {
    match prey_of(kind) {
        Some(prey) => sole_of(world, prey),
        None => None,
    }
}

/// Finds the entity that chasers of `kind` pursue on this frame, if any.
pub fn chase_target(registry: &Registry, kind: Kind) -> (target: Option<EntityId>)
    requires
        registry.wf(),
    ensures
        target == target_of(registry@, kind),
{
    match kind {
        Kind::Enemy => registry.sole(Kind::Player),
        Kind::Minion => registry.sole(Kind::Enemy),
        _ => None,
    }
}

} // verus!
