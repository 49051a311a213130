//! The world: the live entities as a map from handle to record, and what
//! can be said of such a map.

use crate::entity::{EntityId, Kind, Record};
use crate::vitals::{Health, Mana};
use vstd::prelude::*;

verus! {

/// The live entities, by handle.
pub type World = Map<EntityId, Record>;

/// Whether every live entity of `world` is within the bounds of its pools.
pub open spec fn bounded(world: World) -> bool {
    forall|id: EntityId| #[trigger] world.contains_key(id) ==> world[id].entity.wf()
}

/// Finitely many entities, each within the bounds of its pools.
pub open spec fn world_wf(world: World) -> bool {
    &&& world.dom().finite()
    &&& bounded(world)
}

/// The handles of the live entities of one kind.
pub open spec fn ids_of(world: World, kind: Kind) -> Set<EntityId> {
    Set::new(|id: EntityId| world.contains_key(id) && world[id].entity.kind() == kind)
}

/// How many entities of one kind are live.
pub open spec fn count_of(world: World, kind: Kind) -> nat {
    ids_of(world, kind).len()
}

/// The one live entity of a kind, or nothing when there is none or more than
/// one.
pub open spec fn sole_of(world: World, kind: Kind) -> Option<EntityId> {
    if ids_of(world, kind).len() == 1 {
        Some(ids_of(world, kind).choose())
    } else {
        None
    }
}

/// Whether `id` is live and of the given kind.
pub open spec fn is_kind(world: World, id: EntityId, kind: Kind) -> bool {
    world.contains_key(id) && world[id].entity.kind() == kind
}

/// The handles of the live entities parented to `parent`.
pub open spec fn children_of(world: World, parent: EntityId) -> Set<EntityId> {
    Set::new(|id: EntityId| world.contains_key(id) && world[id].parent == Some(parent))
}

/// The world without the entities parented to `parent`.
pub open spec fn without_children(world: World, parent: EntityId) -> World {
    world.remove_keys(children_of(world, parent))
}

/// The world without `root` and without the entities parented to it.
pub open spec fn without_family(world: World, root: EntityId) -> World {
    without_children(world.remove(root), root)
}

/// The health pool of `id`, if it is live and has one.
pub open spec fn health_in(world: World, id: EntityId) -> Option<Health> {
    if world.contains_key(id) {
        world[id].entity.health()
    } else {
        None
    }
}

/// The mana pool of `id`, if it is live and has one.
pub open spec fn mana_in(world: World, id: EntityId) -> Option<Mana> {
    if world.contains_key(id) {
        world[id].entity.mana()
    } else {
        None
    }
}

/// The world with the health pool of `id` replaced.
pub open spec fn with_health_in(world: World, id: EntityId, health: Health) -> World {
    world.insert(
        id,
        Record { entity: world[id].entity.with_health(health), parent: world[id].parent },
    )
}

/// The world with the mana pool of `id` replaced.
pub open spec fn with_mana_in(world: World, id: EntityId, mana: Mana) -> World {
    world.insert(id, Record { entity: world[id].entity.with_mana(mana), parent: world[id].parent })
}

/// Spawning under a fresh handle adds that handle to the entities of the
/// record's kind and to no other kind.
pub proof fn lemma_ids_after_spawn(world: World, id: EntityId, record: Record, kind: Kind)
    requires
        world.dom().finite(),
        !world.contains_key(id),
    ensures
        ids_of(world, kind).finite(),
        ids_of(world.insert(id, record), kind) == if record.entity.kind() == kind {
            ids_of(world, kind).insert(id)
        } else {
            ids_of(world, kind)
        },
        count_of(world.insert(id, record), kind) == count_of(world, kind) + if record.entity.kind()
            == kind {
            1nat
        } else {
            0nat
        },
{
    assert(ids_of(world, kind).subset_of(world.dom()));
    vstd::set_lib::lemma_len_subset(ids_of(world, kind), world.dom());
    if record.entity.kind() == kind {
        assert(ids_of(world.insert(id, record), kind) =~= ids_of(world, kind).insert(id));
    } else {
        assert(ids_of(world.insert(id, record), kind) =~= ids_of(world, kind));
    }
}

/// Replacing a pool of a live entity moves no entity from one kind to
/// another.
pub proof fn lemma_ids_after_pool_change(world: World, id: EntityId, kind: Kind)
    requires
        world.contains_key(id),
    ensures
        forall|health: Health| #[trigger]
            ids_of(with_health_in(world, id, health), kind) == ids_of(world, kind),
        forall|mana: Mana| #[trigger]
            ids_of(with_mana_in(world, id, mana), kind) == ids_of(world, kind),
{
    assert forall|health: Health| #[trigger]
        ids_of(with_health_in(world, id, health), kind) == ids_of(world, kind) by {
        assert(ids_of(with_health_in(world, id, health), kind) =~= ids_of(world, kind));
    }
    assert forall|mana: Mana| #[trigger]
        ids_of(with_mana_in(world, id, mana), kind) == ids_of(world, kind) by {
        assert(ids_of(with_mana_in(world, id, mana), kind) =~= ids_of(world, kind));
    }
}

/// Whether `now` holds only entities that `then` held, each of the kind and
/// under the parent it had then.
pub open spec fn shrunk_from(now: World, then: World) -> bool {
    forall|id: EntityId| #[trigger]
        now.contains_key(id) ==> {
            &&& then.contains_key(id)
            &&& now[id].entity.kind() == then[id].entity.kind()
            &&& now[id].parent == then[id].parent
        }
}

/// A world that has only shrunk has no more entities of any kind than it
/// had.
pub proof fn lemma_shrunk_counts(now: World, then: World, kind: Kind)
    requires
        then.dom().finite(),
        shrunk_from(now, then),
    ensures
        now.dom().finite(),
        ids_of(then, kind).finite(),
        ids_of(now, kind).subset_of(ids_of(then, kind)),
        count_of(now, kind) <= count_of(then, kind),
{
    assert(now.dom().subset_of(then.dom()));
    vstd::set_lib::lemma_len_subset(now.dom(), then.dom());
    assert(ids_of(then, kind).subset_of(then.dom()));
    vstd::set_lib::lemma_len_subset(ids_of(then, kind), then.dom());
    assert(ids_of(now, kind).subset_of(ids_of(then, kind)));
    vstd::set_lib::lemma_len_subset(ids_of(now, kind), ids_of(then, kind));
}

} // verus!
