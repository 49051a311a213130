//! The simulated entities and what each of them carries.

use crate::vitals::{Health, Mana};
use vstd::prelude::*;

verus! {

/// An opaque handle to an entity. Handles are issued by the registry.
pub type EntityId = u64;

/// A handle that the registry never issues. It stands for whatever takes
/// part in a collision without being a simulated entity, such as a wall.
pub const NO_ENTITY: EntityId = u64::MAX;

/// What an entity is, without its attributes.
#[derive(Clone, Copy, Debug, PartialEq, Eq, Structural)]
pub enum Kind {
    /// The player.
    Player,
    /// The pursuing enemy.
    Enemy,
    /// A disposable, self-detonating minion.
    Minion,
    /// A mana pickup.
    ManaGem,
    /// A display label parented to another entity.
    Label,
}

/// A simulated entity with the attributes of its kind.
#[derive(Clone, Copy, Debug, PartialEq, Eq)]
pub enum Entity {
    /// The player: a health pool and a mana pool.
    Player { health: Health, mana: Mana },
    /// The pursuing enemy: a health pool and the damage it deals on contact.
    Enemy { health: Health, damage: u32 },
    /// A disposable minion: the damage it deals when it detonates.
    Minion { damage: u32 },
    /// A pickup: the mana it grants.
    ManaGem { value: u32 },
    /// A display label that follows the entity it is parented to.
    Label,
}

impl Entity {
    /// Every pool the entity carries is within its bounds.
    pub open spec fn wf(self) -> bool {
        match self {
            Entity::Player { health, mana } => health.wf() && mana.wf(),
            Entity::Enemy { health, .. } => health.wf(),
            _ => true,
        }
    }

    /// The entity's kind.
    pub open spec fn spec_kind(self) -> Kind {
        match self {
            Entity::Player { .. } => Kind::Player,
            Entity::Enemy { .. } => Kind::Enemy,
            Entity::Minion { .. } => Kind::Minion,
            Entity::ManaGem { .. } => Kind::ManaGem,
            Entity::Label => Kind::Label,
        }
    }

    /// The damage the entity deals on contact; zero when it deals none.
    pub open spec fn spec_contact_damage(self) -> u32 {
        match self {
            Entity::Enemy { damage, .. } => damage,
            Entity::Minion { damage } => damage,
            _ => 0,
        }
    }

    /// The entity's health pool, if it has one.
    pub open spec fn spec_health(self) -> Option<Health> {
        match self {
            Entity::Player { health, .. } => Some(health),
            Entity::Enemy { health, .. } => Some(health),
            _ => None,
        }
    }

    /// The entity's mana pool, if it has one.
    pub open spec fn spec_mana(self) -> Option<Mana> {
        match self {
            Entity::Player { mana, .. } => Some(mana),
            _ => None,
        }
    }

    /// The mana a gem grants; nothing for any other entity.
    pub open spec fn spec_gem_value(self) -> Option<u32> {
        match self {
            Entity::ManaGem { value } => Some(value),
            _ => None,
        }
    }

    /// The same entity with its health pool replaced; unchanged when it has
    /// no health pool.
    pub open spec fn spec_with_health(self, health: Health) -> Entity {
        match self {
            Entity::Player { mana, .. } => Entity::Player { health, mana },
            Entity::Enemy { damage, .. } => Entity::Enemy { health, damage },
            _ => self,
        }
    }

    /// The same entity with its mana pool replaced; unchanged when it has no
    /// mana pool.
    pub open spec fn spec_with_mana(self, mana: Mana) -> Entity {
        match self {
            Entity::Player { health, .. } => Entity::Player { health, mana },
            _ => self,
        }
    }

    /// The entity's kind.
    #[verifier::when_used_as_spec(spec_kind)]
    pub fn kind(self) -> (kind: Kind)
        ensures
            kind == self.spec_kind(),
    {
        match self {
            Entity::Player { .. } => Kind::Player,
            Entity::Enemy { .. } => Kind::Enemy,
            Entity::Minion { .. } => Kind::Minion,
            Entity::ManaGem { .. } => Kind::ManaGem,
            Entity::Label => Kind::Label,
        }
    }

    /// The damage the entity deals on contact; zero when it deals none.
    #[verifier::when_used_as_spec(spec_contact_damage)]
    pub fn contact_damage(self) -> (damage: u32)
        ensures
            damage == self.spec_contact_damage(),
    {
        match self {
            Entity::Enemy { damage, .. } => damage,
            Entity::Minion { damage } => damage,
            _ => 0,
        }
    }

    /// The entity's health pool, if it has one.
    #[verifier::when_used_as_spec(spec_health)]
    pub fn health(self) -> (health: Option<Health>)
        ensures
            health == self.spec_health(),
    {
        match self {
            Entity::Player { health, .. } => Some(health),
            Entity::Enemy { health, .. } => Some(health),
            _ => None,
        }
    }

    /// The entity's mana pool, if it has one.
    #[verifier::when_used_as_spec(spec_mana)]
    pub fn mana(self) -> (mana: Option<Mana>)
        ensures
            mana == self.spec_mana(),
    {
        match self {
            Entity::Player { mana, .. } => Some(mana),
            _ => None,
        }
    }

    /// The mana a gem grants; nothing for any other entity.
    #[verifier::when_used_as_spec(spec_gem_value)]
    pub fn gem_value(self) -> (value: Option<u32>)
        ensures
            value == self.spec_gem_value(),
    {
        match self {
            Entity::ManaGem { value } => Some(value),
            _ => None,
        }
    }

    /// The same entity with its health pool replaced; unchanged when it has
    /// no health pool.
    #[verifier::when_used_as_spec(spec_with_health)]
    pub fn with_health(self, health: Health) -> (entity: Entity)
        ensures
            entity == self.spec_with_health(health),
    {
        match self {
            Entity::Player { mana, .. } => Entity::Player { health, mana },
            Entity::Enemy { damage, .. } => Entity::Enemy { health, damage },
            _ => self,
        }
    }

    /// The same entity with its mana pool replaced; unchanged when it has no
    /// mana pool.
    #[verifier::when_used_as_spec(spec_with_mana)]
    pub fn with_mana(self, mana: Mana) -> (entity: Entity)
        ensures
            entity == self.spec_with_mana(mana),
    {
        match self {
            Entity::Player { health, .. } => Entity::Player { health, mana },
            _ => self,
        }
    }

    /// Whether every pool the entity carries is within its bounds.
    pub fn is_valid(self) -> (ok: bool)
        ensures
            ok == self.wf(),
    {
        match self {
            Entity::Player { health, mana } => health.is_valid() && mana.is_valid(),
            Entity::Enemy { health, .. } => health.is_valid(),
            _ => true,
        }
    }
}

/// What the registry keeps for one entity.
#[derive(Clone, Copy, Debug, PartialEq, Eq)]
pub struct Record {
    /// The entity's attributes.
    pub entity: Entity,
    /// The entity this one is parented to, if any.
    pub parent: Option<EntityId>,
}

} // verus!
