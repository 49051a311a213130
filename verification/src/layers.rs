//! Collision layers: which kinds of entity the physics step lets touch.

use crate::entity::Kind;
use vstd::prelude::*;

verus! {

/// Whether a collider of `kind` is set to collide with colliders of `other`.
/// The player meets the enemy and the gems, minions meet each other and the
/// enemy, the enemy meets the player and the minions, and gems meet the
/// player alone. Labels have no collider.
pub open spec fn touches(kind: Kind, other: Kind) -> bool {
    match kind {
        Kind::Player => other == Kind::Enemy || other == Kind::ManaGem,
        Kind::Minion => other == Kind::Minion || other == Kind::Enemy,
        Kind::Enemy => other == Kind::Player || other == Kind::Minion,
        Kind::ManaGem => other == Kind::Player,
        Kind::Label => false,
    }
}

/// Tells whether a collider of `kind` is set to collide with colliders of
/// `other`.
pub fn may_touch(kind: Kind, other: Kind) -> (allowed: bool)
    ensures
        allowed == touches(kind, other),
{
    match kind {
        Kind::Player => match other {
            Kind::Enemy | Kind::ManaGem => true,
            _ => false,
        },
        Kind::Minion => match other {
            Kind::Minion | Kind::Enemy => true,
            _ => false,
        },
        Kind::Enemy => match other {
            Kind::Player | Kind::Minion => true,
            _ => false,
        },
        Kind::ManaGem => match other {
            Kind::Player => true,
            _ => false,
        },
        Kind::Label => false,
    }
}

/// The layers pair up: whenever one kind is set to collide with another,
/// the other is set to collide with it.
pub proof fn lemma_touching_is_mutual(kind: Kind, other: Kind)
    ensures
        touches(kind, other) == touches(other, kind),
{
}

/// Nothing but the player is set to collide with a gem, so under these
/// layers the other party of a contact with a gem is the player.
pub proof fn lemma_only_the_player_meets_gems(kind: Kind)
    ensures
        touches(kind, Kind::ManaGem) <==> kind == Kind::Player,
        touches(Kind::ManaGem, kind) <==> kind == Kind::Player,
{
}

} // verus!
