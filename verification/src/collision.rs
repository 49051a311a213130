//! Collision resolution: from the pairs that started to overlap this frame
//! to the damage and mana-gain events they stand for.

use crate::entity::Kind;
use crate::events::{CollisionPair, DamageEvent, ManaGainEvent};
use crate::registry::Registry;
use crate::world::{is_kind, World};
use vstd::prelude::*;

verus! {

/// The mana-gain event of a pair: one whenever the second entity is a live
/// mana gem, granting that gem's value to the first.
pub open spec fn gain_from(world: World, pair: CollisionPair) -> Option<ManaGainEvent> {
    if world.contains_key(pair.second) {
        match world[pair.second].entity.gem_value() {
            Some(value) => Some(
                ManaGainEvent { player: pair.first, gem: pair.second, amount: value },
            ),
            None => None,
        }
    } else {
        None
    }
}

/// The damage event of a pair: one whenever the first entity is live and
/// deals damage on contact, unless both entities are minions.
pub open spec fn damage_from(world: World, pair: CollisionPair) -> Option<DamageEvent> {
    if !world.contains_key(pair.first) {
        None
    } else if world[pair.first].entity.contact_damage() == 0 {
        None
    } else if is_kind(world, pair.first, Kind::Minion) && is_kind(
        world,
        pair.second,
        Kind::Minion,
    ) {
        None
    } else {
        Some(
            DamageEvent {
                giver: pair.first,
                receiver: pair.second,
                amount: world[pair.first].entity.contact_damage(),
            },
        )
    }
}

/// The mana-gain events of a frame's pairs, in the order of the pairs.
pub open spec fn gains_from(world: World, pairs: Seq<CollisionPair>) -> Seq<ManaGainEvent>
    decreases pairs.len(),
{
    if pairs.len() == 0 {
        Seq::empty()
    } else {
        let earlier = gains_from(world, pairs.drop_last());
        match gain_from(world, pairs.last()) {
            Some(event) => earlier.push(event),
            None => earlier,
        }
    }
}

/// The damage events of a frame's pairs, in the order of the pairs.
pub open spec fn damages_from(world: World, pairs: Seq<CollisionPair>) -> Seq<DamageEvent>
    decreases pairs.len(),
{
    if pairs.len() == 0 {
        Seq::empty()
    } else {
        let earlier = damages_from(world, pairs.drop_last());
        match damage_from(world, pairs.last()) {
            Some(event) => earlier.push(event),
            None => earlier,
        }
    }
}

/// The events that one frame's collisions gave rise to.
pub struct CollisionEvents {
    /// The damage events, in the order of the pairs.
    pub damage: Vec<DamageEvent>,
    /// The mana-gain events, in the order of the pairs.
    pub mana: Vec<ManaGainEvent>,
}

/// Resolves one pair into its mana-gain event and its damage event. The two
/// are decided independently: a pair may yield both, either, or neither.
pub fn resolve_pair(registry: &Registry, pair: CollisionPair) -> (events: (
    Option<ManaGainEvent>,
    Option<DamageEvent>,
))
    requires
        registry.wf(),
    ensures
        events.0 == gain_from(registry@, pair),
        events.1 == damage_from(registry@, pair),
{
    let first = registry.entity(pair.first);
    let second = registry.entity(pair.second);
    let gain = match second {
        Some(entity) => match entity.gem_value() {
            Some(value) => Some(
                ManaGainEvent { player: pair.first, gem: pair.second, amount: value },
            ),
            None => None,
        },
        None => None,
    };
    let damage = match first {
        Some(giver) => {
            let amount: u32 = giver.contact_damage();
            let both_minions = giver.kind() == Kind::Minion && match second {
                Some(receiver) => receiver.kind() == Kind::Minion,
                None => false,
            };
            if amount == 0 || both_minions {
                None
            } else {
                Some(DamageEvent { giver: pair.first, receiver: pair.second, amount })
            }
        },
        None => None,
    };
    (gain, damage)
}

/// Resolves the pairs that started to overlap this frame, in order, against
/// the registry as it stands.
pub fn resolve_collisions(registry: &Registry, pairs: &Vec<CollisionPair>) -> (events:
    CollisionEvents)
    requires
        registry.wf(),
    ensures
        events.damage@ == damages_from(registry@, pairs@),
        events.mana@ == gains_from(registry@, pairs@),
{
    let mut damage: Vec<DamageEvent> = Vec::new();
    let mut mana: Vec<ManaGainEvent> = Vec::new();
    let mut i: usize = 0;
    while i < pairs.len()
        invariant
            registry.wf(),
            i <= pairs@.len(),
            damage@ == damages_from(registry@, pairs@.take(i as int)),
            mana@ == gains_from(registry@, pairs@.take(i as int)),
        decreases pairs@.len() - i,
    {
        let (gain, hit) = resolve_pair(registry, pairs[i]);
        proof {
            assert(pairs@.take(i + 1).drop_last() =~= pairs@.take(i as int));
        }
        match gain {
            Some(event) => {
                mana.push(event);
            },
            None => {},
        }
        match hit {
            Some(event) => {
                damage.push(event);
            },
            None => {},
        }
        i += 1;
    }
    proof {
        assert(pairs@.take(pairs@.len() as int) =~= pairs@);
    }
    CollisionEvents { damage, mana }
}

/// No damage event is ever emitted for a pair of minions: every event that
/// collision resolution emits has a live giver that deals the event's
/// nonzero amount, and giver and receiver are not both minions.
pub proof fn lemma_no_friendly_fire(world: World, pairs: Seq<CollisionPair>)
    ensures
        forall|k: int|
            0 <= k < damages_from(world, pairs).len() ==> {
                let event = #[trigger] damages_from(world, pairs)[k];
                &&& world.contains_key(event.giver)
                &&& event.amount == world[event.giver].entity.contact_damage()
                &&& event.amount > 0
                &&& !(is_kind(world, event.giver, Kind::Minion) && is_kind(
                    world,
                    event.receiver,
                    Kind::Minion,
                ))
            },
    decreases pairs.len(),
{
    if pairs.len() > 0 {
        lemma_no_friendly_fire(world, pairs.drop_last());
    }
}

/// A pair of two minions yields no damage event, whatever the minions carry.
pub proof fn lemma_minion_pair_is_harmless(world: World, pair: CollisionPair)
    requires
        is_kind(world, pair.first, Kind::Minion),
        is_kind(world, pair.second, Kind::Minion),
    ensures
        damage_from(world, pair) is None,
{
}

/// Every mana-gain event that collision resolution emits names a live gem
/// and carries that gem's value.
pub proof fn lemma_gains_name_gems(world: World, pairs: Seq<CollisionPair>)
    ensures
        forall|k: int|
            0 <= k < gains_from(world, pairs).len() ==> {
                let event = #[trigger] gains_from(world, pairs)[k];
                &&& is_kind(world, event.gem, Kind::ManaGem)
                &&& world[event.gem].entity.gem_value() == Some(event.amount)
            },
    decreases pairs.len(),
{
    if pairs.len() > 0 {
        lemma_gains_name_gems(world, pairs.drop_last());
    }
}

} // verus!
