//! The entity registry: every live entity and its attributes, by handle.
//!
//! The registry issues handles in increasing order and never hands the same
//! handle out twice between two calls of [`Registry::clear`], so a handle to
//! a despawned entity is simply absent.

use crate::entity::{Entity, EntityId, Kind, Record, NO_ENTITY};
use crate::vitals::{Health, Mana};
use crate::world::{
    children_of, count_of, health_in, ids_of, is_kind, mana_in, sole_of, with_health_in,
    with_mana_in, without_children, without_family, world_wf, World,
};
use vstd::prelude::*;

verus! {

#[derive(Clone, Copy)]
struct Slot {
    id: EntityId,
    record: Record,
}

spec fn has_id(slots: Seq<Slot>, id: EntityId) -> bool {
    exists|i: int| 0 <= i < slots.len() && (#[trigger] slots[i]).id == id
}

spec fn index_of(slots: Seq<Slot>, id: EntityId) -> int {
    choose|i: int| 0 <= i < slots.len() && (#[trigger] slots[i]).id == id
}

spec fn as_world(slots: Seq<Slot>) -> World {
    Map::new(|id: EntityId| has_id(slots, id), |id: EntityId| slots[index_of(slots, id)].record)
}

spec fn ascending(slots: Seq<Slot>) -> bool {
    forall|i: int, j: int|
        0 <= i < j < slots.len() ==> (#[trigger] slots[i]).id < (#[trigger] slots[j]).id
}

spec fn below(slots: Seq<Slot>, bound: int) -> bool {
    forall|i: int| 0 <= i < slots.len() ==> (#[trigger] slots[i]).id < bound
}

proof fn lemma_world_at(slots: Seq<Slot>, i: int)
    requires
        ascending(slots),
        0 <= i < slots.len(),
    ensures
        as_world(slots).contains_key(slots[i].id),
        as_world(slots)[slots[i].id] == slots[i].record,
        index_of(slots, slots[i].id) == i,
{
    let id = slots[i].id;
    assert(has_id(slots, id));
    let j = index_of(slots, id);
    if j < i {
        assert(slots[j].id < slots[i].id);
    }
    if i < j {
        assert(slots[i].id < slots[j].id);
    }
}

proof fn lemma_world_push(slots: Seq<Slot>, slot: Slot)
    requires
        ascending(slots),
        below(slots, slot.id as int),
    ensures
        ascending(slots.push(slot)),
        as_world(slots.push(slot)) == as_world(slots).insert(slot.id, slot.record),
        !as_world(slots).contains_key(slot.id),
{
    let pushed = slots.push(slot);
    if has_id(slots, slot.id) {
        let j = index_of(slots, slot.id);
        assert(slots[j].id < slot.id);
    }
    assert forall|id: EntityId| as_world(pushed).contains_key(id) <==> #[trigger] as_world(
        slots,
    ).insert(slot.id, slot.record).contains_key(id) by {
        if has_id(pushed, id) {
            let j = index_of(pushed, id);
            if j < slots.len() {
                assert(slots[j].id == id);
            }
        }
        if has_id(slots, id) {
            let j = index_of(slots, id);
            assert(pushed[j].id == id);
        }
        if id == slot.id {
            assert(pushed[slots.len() as int].id == id);
        }
    }
    assert forall|id: EntityId| as_world(pushed).contains_key(id) implies #[trigger] as_world(
        pushed,
    )[id] == as_world(slots).insert(slot.id, slot.record)[id] by {
        let j = index_of(pushed, id);
        lemma_world_at(pushed, j);
        if j < slots.len() {
            lemma_world_at(slots, j);
        }
    }
    assert(as_world(pushed) =~= as_world(slots).insert(slot.id, slot.record));
}

proof fn lemma_world_remove(slots: Seq<Slot>, i: int)
    requires
        ascending(slots),
        0 <= i < slots.len(),
    ensures
        ascending(slots.remove(i)),
        as_world(slots.remove(i)) == as_world(slots).remove(slots[i].id),
{
    let rest = slots.remove(i);
    let gone = slots[i].id;
    // `rest[k]` is `slots[k]` before the gap and `slots[k + 1]` after it.
    assert forall|a: int, b: int| 0 <= a < b < rest.len() implies (#[trigger] rest[a]).id < (
    #[trigger] rest[b]).id by {
        let a0 = if a < i {
            a
        } else {
            a + 1
        };
        let b0 = if b < i {
            b
        } else {
            b + 1
        };
        assert(rest[a] == slots[a0] && rest[b] == slots[b0]);
    }
    assert forall|id: EntityId| as_world(rest).contains_key(id) <==> #[trigger] as_world(
        slots,
    ).remove(gone).contains_key(id) by {
        if has_id(rest, id) {
            let j = index_of(rest, id);
            let j0 = if j < i {
                j
            } else {
                j + 1
            };
            assert(slots[j0].id == id);
            assert(j0 != i);
        }
        if has_id(slots, id) && id != gone {
            let j = index_of(slots, id);
            let j1 = if j < i {
                j
            } else {
                j - 1
            };
            assert(rest[j1].id == id);
        }
    }
    assert forall|id: EntityId| as_world(rest).contains_key(id) implies #[trigger] as_world(
        rest,
    )[id] == as_world(slots).remove(gone)[id] by {
        let j = index_of(rest, id);
        let j0 = if j < i {
            j
        } else {
            j + 1
        };
        lemma_world_at(rest, j);
        lemma_world_at(slots, j0);
    }
    assert(as_world(rest) =~= as_world(slots).remove(gone));
}

proof fn lemma_world_update(slots: Seq<Slot>, i: int, record: Record)
    requires
        ascending(slots),
        0 <= i < slots.len(),
    ensures
        ascending(slots.update(i, Slot { id: slots[i].id, record })),
        as_world(slots.update(i, Slot { id: slots[i].id, record })) == as_world(slots).insert(
            slots[i].id,
            record,
        ),
{
    let id0 = slots[i].id;
    let changed = slots.update(i, Slot { id: id0, record });
    assert forall|a: int, b: int| 0 <= a < b < changed.len() implies (#[trigger] changed[a]).id < (
    #[trigger] changed[b]).id by {
        assert(changed[a].id == slots[a].id && changed[b].id == slots[b].id);
    }
    assert forall|id: EntityId| as_world(changed).contains_key(id) <==> #[trigger] as_world(
        slots,
    ).insert(id0, record).contains_key(id) by {
        if has_id(changed, id) {
            let j = index_of(changed, id);
            assert(slots[j].id == id);
        }
        if has_id(slots, id) {
            let j = index_of(slots, id);
            assert(changed[j].id == id);
        }
    }
    assert forall|id: EntityId| as_world(changed).contains_key(id) implies #[trigger] as_world(
        changed,
    )[id] == as_world(slots).insert(id0, record)[id] by {
        let j = index_of(changed, id);
        lemma_world_at(changed, j);
        lemma_world_at(slots, j);
    }
    assert(as_world(changed) =~= as_world(slots).insert(id0, record));
}

proof fn lemma_front_ascending(slots: Seq<Slot>)
    requires
        ascending(slots),
        slots.len() > 0,
    ensures
        ascending(slots.drop_last()),
        below(slots.drop_last(), slots.last().id as int),
        slots.drop_last().push(slots.last()) == slots,
{
    let front = slots.drop_last();
    assert forall|i: int, j: int| 0 <= i < j < front.len() implies (#[trigger] front[i]).id < (
    #[trigger] front[j]).id by {
        assert(front[i] == slots[i] && front[j] == slots[j]);
    }
    assert forall|i: int| 0 <= i < front.len() implies (#[trigger] front[i]).id
        < slots.last().id as int by {
        assert(front[i] == slots[i]);
        assert(slots[i].id < slots[slots.len() - 1].id);
    }
    assert(front.push(slots.last()) =~= slots);
}

proof fn lemma_world_len(slots: Seq<Slot>)
    requires
        ascending(slots),
    ensures
        as_world(slots).dom().finite(),
        as_world(slots).dom().len() == slots.len(),
    decreases slots.len(),
{
    if slots.len() == 0 {
        assert(as_world(slots).dom() =~= Set::<EntityId>::empty());
    } else {
        lemma_front_ascending(slots);
        lemma_world_len(slots.drop_last());
        lemma_world_push(slots.drop_last(), slots.last());
        assert(as_world(slots).dom() =~= as_world(slots.drop_last()).dom().insert(
            slots.last().id,
        ));
    }
}

/// The registry of live entities.
pub struct Registry {
    slots: Vec<Slot>,
    next_id: u64,
}

impl View for Registry {
    type V = World;

    closed spec fn view(&self) -> World {
        as_world(self.slots@)
    }
}

impl Registry {
    /// The handle the next spawned entity will get.
    pub closed spec fn next_id(&self) -> u64 {
        self.next_id
    }

    /// The stored entities are in the order their handles were issued.
    pub closed spec fn ordered(&self) -> bool {
        ascending(self.slots@) && below(self.slots@, self.next_id as int)
    }

    /// The registry is well formed: its entities are stored in the order
    /// their handles were issued, every entity is within its bounds, and no
    /// live handle is one that has yet to be issued.
    pub open spec fn wf(&self) -> bool {
        &&& self.ordered()
        &&& world_wf(self@)
        &&& forall|id: EntityId| #[trigger] self@.contains_key(id) ==> id < self.next_id()
    }

    /// The handle that is never issued is never live.
    pub proof fn lemma_no_entity_is_absent(&self)
        requires
            self.wf(),
        ensures
            !self@.contains_key(NO_ENTITY),
    {
    }

    proof fn lemma_wf_from_order(&self)
        requires
            self.ordered(),
            forall|i: int|
                0 <= i < self.slots@.len() ==> (#[trigger] self.slots@[i]).record.entity.wf(),
        ensures
            self.wf(),
    {
        lemma_world_len(self.slots@);
        assert forall|id: EntityId| #[trigger] self@.contains_key(id) implies self@[id].entity.wf()
            && id < self.next_id() by {
            let j = index_of(self.slots@, id);
            lemma_world_at(self.slots@, j);
        }
    }

    proof fn lemma_slots_wf(&self)
        requires
            self.wf(),
        ensures
            forall|i: int|
                0 <= i < self.slots@.len() ==> (#[trigger] self.slots@[i]).record.entity.wf(),
    {
        assert forall|i: int| 0 <= i < self.slots@.len() implies (
        #[trigger] self.slots@[i]).record.entity.wf() by {
            lemma_world_at(self.slots@, i);
        }
    }

    /// An empty registry.
    pub fn new() -> (registry: Registry)
        ensures
            registry.wf(),
            registry@ == World::empty(),
            registry.next_id() == 0,
    {
        let registry = Registry { slots: Vec::new(), next_id: 0 };
        proof {
            registry.lemma_wf_from_order();
        }
        registry
    }

    fn find(&self, id: EntityId) -> (found: Option<usize>)
        requires
            self.ordered(),
        ensures
            match found {
                Some(i) => i < self.slots@.len() && self.slots@[i as int].id == id
                    && self@.contains_key(id) && self@[id] == self.slots@[i as int].record,
                None => !self@.contains_key(id),
            },
    {
        let mut i: usize = 0;
        while i < self.slots.len()
            invariant
                self.ordered(),
                i <= self.slots@.len(),
                forall|j: int| 0 <= j < i ==> (#[trigger] self.slots@[j]).id != id,
            decreases self.slots@.len() - i,
        {
            if self.slots[i].id == id {
                proof {
                    lemma_world_at(self.slots@, i as int);
                }
                return Some(i);
            }
            i += 1;
        }
        None
    }

    /// How many entities are live.
    pub fn len(&self) -> (n: usize)
        requires
            self.wf(),
        ensures
            n == self@.dom().len(),
    {
        proof {
            lemma_world_len(self.slots@);
        }
        self.slots.len()
    }

    /// Whether `id` is live.
    pub fn contains(&self, id: EntityId) -> (live: bool)
        requires
            self.wf(),
        ensures
            live == self@.contains_key(id),
    {
        self.find(id).is_some()
    }

    /// The record of `id`, if it is live.
    pub fn get(&self, id: EntityId) -> (record: Option<Record>)
        requires
            self.wf(),
        ensures
            record == if self@.contains_key(id) {
                Some(self@[id])
            } else {
                None
            },
    {
        match self.find(id) {
            Some(i) => Some(self.slots[i].record),
            None => None,
        }
    }

    fn insert(&mut self, record: Record) -> (id: EntityId)
        requires
            old(self).wf(),
            record.entity.wf(),
            old(self).next_id() < u64::MAX,
        ensures
            final(self).wf(),
            id == old(self).next_id(),
            final(self).next_id() == id + 1,
            !old(self)@.contains_key(id),
            final(self)@ == old(self)@.insert(id, record),
    {
        let id: u64 = self.next_id;
        proof {
            self.lemma_slots_wf();
            lemma_world_push(self.slots@, Slot { id, record });
        }
        self.slots.push(Slot { id, record });
        self.next_id = id + 1;
        proof {
            self.lemma_wf_from_order();
        }
        id
    }

    /// Adds a parentless entity and returns its handle. Nothing is added
    /// when the entity is out of its bounds or the handles have run out.
    pub fn spawn(&mut self, entity: Entity) -> (id: Option<EntityId>)
        requires
            old(self).wf(),
        ensures
            final(self).wf(),
            id is Some <==> entity.wf() && old(self).next_id() < u64::MAX,
            match id {
                Some(id) => {
                    &&& id == old(self).next_id()
                    &&& !old(self)@.contains_key(id)
                    &&& final(self).next_id() == id + 1
                    &&& final(self)@ == old(self)@.insert(id, Record { entity, parent: None })
                },
                None => final(self)@ == old(self)@ && final(self).next_id() == old(self).next_id(),
            },
    {
        if entity.is_valid() && self.next_id < u64::MAX {
            Some(self.insert(Record { entity, parent: None }))
        } else {
            None
        }
    }

    /// Adds an entity parented to the live entity `parent` and returns its
    /// handle. Nothing is added when `parent` is not live, the entity is out
    /// of its bounds, or the handles have run out.
    pub fn spawn_child(&mut self, entity: Entity, parent: EntityId) -> (id: Option<EntityId>)
        requires
            old(self).wf(),
        ensures
            final(self).wf(),
            id is Some <==> entity.wf() && old(self)@.contains_key(parent) && old(self).next_id()
                < u64::MAX,
            match id {
                Some(id) => {
                    &&& id == old(self).next_id()
                    &&& !old(self)@.contains_key(id)
                    &&& final(self).next_id() == id + 1
                    &&& final(self)@ == old(self)@.insert(
                        id,
                        Record { entity, parent: Some(parent) },
                    )
                },
                None => final(self)@ == old(self)@ && final(self).next_id() == old(self).next_id(),
            },
    {
        if entity.is_valid() && self.next_id < u64::MAX && self.contains(parent) {
            Some(self.insert(Record { entity, parent: Some(parent) }))
        } else {
            None
        }
    }

    fn remove_at(&mut self, i: usize)
        requires
            old(self).wf(),
            i < old(self).slots@.len(),
        ensures
            final(self).wf(),
            final(self).slots@ == old(self).slots@.remove(i as int),
            final(self)@ == old(self)@.remove(old(self).slots@[i as int].id),
            final(self).next_id() == old(self).next_id(),
    {
        proof {
            self.lemma_slots_wf();
            lemma_world_remove(self.slots@, i as int);
        }
        let ghost before = self.slots@;
        self.slots.remove(i);
        proof {
            assert forall|j: int| 0 <= j < self.slots@.len() implies (#[trigger] self.slots@[j]).id
                < self.next_id as int && self.slots@[j].record.entity.wf() by {
                let j0 = if j < i {
                    j
                } else {
                    j + 1
                };
                assert(self.slots@[j] == before[j0]);
            }
            self.lemma_wf_from_order();
        }
    }

    /// Removes `id` alone. Returns whether it was live.
    pub fn despawn(&mut self, id: EntityId) -> (removed: bool)
        requires
            old(self).wf(),
        ensures
            final(self).wf(),
            removed == old(self)@.contains_key(id),
            final(self)@ == old(self)@.remove(id),
            final(self).next_id() == old(self).next_id(),
    {
        match self.find(id) {
            Some(i) => {
                self.remove_at(i);
                true
            },
            None => false,
        }
    }

    /// Removes every entity parented to `parent`, and nothing else. Returns
    /// how many were removed.
    pub fn despawn_children(&mut self, parent: EntityId) -> (removed: usize)
        requires
            old(self).wf(),
        ensures
            final(self).wf(),
            final(self)@ == without_children(old(self)@, parent),
            removed == children_of(old(self)@, parent).len(),
            final(self).next_id() == old(self).next_id(),
    {
        let ghost start = self@;
        let ghost next = self.next_id();
        let total: usize = self.slots.len();
        let ghost mut gone: Set<EntityId> = Set::empty();
        let mut removed: usize = 0;
        let mut i: usize = 0;
        while i < self.slots.len()
            invariant
                self.wf(),
                self.next_id() == next,
                i <= self.slots@.len(),
                removed + self.slots@.len() == total,
                gone.finite(),
                removed == gone.len(),
                forall|id: EntityId|
                    gone.contains(id) ==> start.contains_key(id) && (#[trigger] start[id]).parent
                        == Some(parent),
                self@ == start.remove_keys(gone),
                forall|j: int|
                    0 <= j < i ==> (#[trigger] self.slots@[j]).record.parent != Some(parent),
            decreases self.slots@.len() - i,
        {
            let slot = self.slots[i];
            if is_child_of(slot.record, parent) {
                proof {
                    lemma_world_at(self.slots@, i as int);
                    assert(start.remove_keys(gone).remove(slot.id) =~= start.remove_keys(
                        gone.insert(slot.id),
                    ));
                }
                let ghost before = self.slots@;
                self.remove_at(i);
                proof {
                    gone = gone.insert(slot.id);
                    assert forall|j: int| 0 <= j < i implies (
                    #[trigger] self.slots@[j]).record.parent != Some(parent) by {
                        assert(self.slots@[j] == before[j]);
                    }
                }
                removed += 1;
            } else {
                i += 1;
            }
        }
        proof {
            assert forall|id: EntityId|
                children_of(start, parent).contains(id) implies gone.contains(id) by {
                if !gone.contains(id) {
                    assert(self@.contains_key(id));
                    let j = index_of(self.slots@, id);
                    lemma_world_at(self.slots@, j);
                }
            }
            assert(gone =~= children_of(start, parent));
        }
        removed
    }

    /// Removes `root` and every entity parented to it. Returns whether
    /// `root` was live.
    pub fn despawn_family(&mut self, root: EntityId) -> (removed: bool)
        requires
            old(self).wf(),
        ensures
            final(self).wf(),
            removed == old(self)@.contains_key(root),
            final(self)@ == without_family(old(self)@, root),
            final(self).next_id() == old(self).next_id(),
    {
        let removed = self.despawn(root);
        let _ = self.despawn_children(root);
        removed
    }

    /// Removes every entity and starts issuing handles afresh.
    pub fn clear(&mut self)
        ensures
            final(self).wf(),
            final(self)@ == World::empty(),
            final(self).next_id() == 0,
    {
        self.slots = Vec::new();
        self.next_id = 0;
        proof {
            self.lemma_wf_from_order();
        }
    }

    /// The attributes of `id`, if it is live.
    pub fn entity(&self, id: EntityId) -> (entity: Option<Entity>)
        requires
            self.wf(),
        ensures
            entity == if self@.contains_key(id) {
                Some(self@[id].entity)
            } else {
                None
            },
    {
        match self.find(id) {
            Some(i) => Some(self.slots[i].record.entity),
            None => None,
        }
    }

    /// The entity that `id` is parented to, if `id` is live and has one.
    pub fn parent(&self, id: EntityId) -> (parent: Option<EntityId>)
        requires
            self.wf(),
        ensures
            parent == if self@.contains_key(id) {
                self@[id].parent
            } else {
                None
            },
    {
        match self.find(id) {
            Some(i) => self.slots[i].record.parent,
            None => None,
        }
    }

    /// The health pool of `id`, if it is live and has one.
    pub fn health(&self, id: EntityId) -> (health: Option<Health>)
        requires
            self.wf(),
        ensures
            health == health_in(self@, id),
            health matches Some(h) ==> h.wf(),
    {
        match self.find(id) {
            Some(i) => self.slots[i].record.entity.health(),
            None => None,
        }
    }

    /// The mana pool of `id`, if it is live and has one.
    pub fn mana(&self, id: EntityId) -> (mana: Option<Mana>)
        requires
            self.wf(),
        ensures
            mana == mana_in(self@, id),
            mana matches Some(m) ==> m.wf(),
    {
        match self.find(id) {
            Some(i) => self.slots[i].record.entity.mana(),
            None => None,
        }
    }

    fn replace_entity(&mut self, i: usize, entity: Entity)
        requires
            old(self).wf(),
            i < old(self).slots@.len(),
            entity.wf(),
        ensures
            final(self).wf(),
            final(self)@ == old(self)@.insert(
                old(self).slots@[i as int].id,
                Record { entity, parent: old(self).slots@[i as int].record.parent },
            ),
            final(self).next_id() == old(self).next_id(),
    {
        let slot = self.slots[i];
        let record = Record { entity, parent: slot.record.parent };
        proof {
            self.lemma_slots_wf();
            lemma_world_update(self.slots@, i as int, record);
        }
        let ghost before = self.slots@;
        self.slots.set(i, Slot { id: slot.id, record });
        proof {
            assert forall|j: int| 0 <= j < self.slots@.len() implies (#[trigger] self.slots@[j]).id
                < self.next_id as int && self.slots@[j].record.entity.wf() by {
                assert(self.slots@[j].id == before[j].id);
            }
            self.lemma_wf_from_order();
        }
    }

    /// Replaces the health pool of `id`. Nothing changes when `id` is not
    /// live, has no health pool, or `health` is out of its bounds.
    pub fn set_health(&mut self, id: EntityId, health: Health) -> (changed: bool)
        requires
            old(self).wf(),
        ensures
            final(self).wf(),
            changed == (health.wf() && health_in(old(self)@, id) is Some),
            final(self)@ == if changed {
                with_health_in(old(self)@, id, health)
            } else {
                old(self)@
            },
            final(self).next_id() == old(self).next_id(),
    {
        if !health.is_valid() {
            return false;
        }
        match self.find(id) {
            Some(i) => {
                let entity = self.slots[i].record.entity;
                proof {
                    self.lemma_slots_wf();
                }
                if entity.health().is_some() {
                    self.replace_entity(i, entity.with_health(health));
                    true
                } else {
                    false
                }
            },
            None => false,
        }
    }

    /// Replaces the mana pool of `id`. Nothing changes when `id` is not
    /// live, has no mana pool, or `mana` is out of its bounds.
    pub fn set_mana(&mut self, id: EntityId, mana: Mana) -> (changed: bool)
        requires
            old(self).wf(),
        ensures
            final(self).wf(),
            changed == (mana.wf() && mana_in(old(self)@, id) is Some),
            final(self)@ == if changed {
                with_mana_in(old(self)@, id, mana)
            } else {
                old(self)@
            },
            final(self).next_id() == old(self).next_id(),
    {
        if !mana.is_valid() {
            return false;
        }
        match self.find(id) {
            Some(i) => {
                let entity = self.slots[i].record.entity;
                proof {
                    self.lemma_slots_wf();
                }
                if entity.mana().is_some() {
                    self.replace_entity(i, entity.with_mana(mana));
                    true
                } else {
                    false
                }
            },
            None => false,
        }
    }

    /// How many entities of `kind` are live.
    pub fn count(&self, kind: Kind) -> (n: usize)
        requires
            self.wf(),
        ensures
            n == count_of(self@, kind),
    {
        let mut n: usize = 0;
        let mut i: usize = 0;
        proof {
            assert(matches_before(self.slots@, 0, kind) =~= Set::<EntityId>::empty());
        }
        while i < self.slots.len()
            invariant
                self.ordered(),
                i <= self.slots@.len(),
                n <= i,
                matches_before(self.slots@, i as int, kind).finite(),
                n == matches_before(self.slots@, i as int, kind).len(),
            decreases self.slots@.len() - i,
        {
            proof {
                lemma_matches_step(self.slots@, i as int, kind);
            }
            if self.slots[i].record.entity.kind() == kind {
                n += 1;
            }
            i += 1;
        }
        proof {
            lemma_matches_all(self.slots@, kind);
        }
        n
    }

    /// The one live entity of `kind`, or nothing when there is none or more
    /// than one.
    pub fn sole(&self, kind: Kind) -> (only: Option<EntityId>)
        requires
            self.wf(),
        ensures
            only == sole_of(self@, kind),
            match only {
                Some(id) => ids_of(self@, kind) == set![id] && is_kind(self@, id, kind),
                None => count_of(self@, kind) != 1,
            },
    {
        if self.count(kind) != 1 {
            return None;
        }
        proof {
            lemma_matches_all(self.slots@, kind);
        }
        let mut i: usize = 0;
        while i < self.slots.len()
            invariant
                self.ordered(),
                i <= self.slots@.len(),
                ids_of(self@, kind).finite(),
                ids_of(self@, kind).len() == 1,
                forall|j: int|
                    0 <= j < i ==> (#[trigger] self.slots@[j]).record.entity.kind() != kind,
            decreases self.slots@.len() - i,
        {
            let slot = self.slots[i];
            if slot.record.entity.kind() == kind {
                proof {
                    lemma_world_at(self.slots@, i as int);
                    let ids = ids_of(self@, kind);
                    assert(ids.contains(slot.id));
                    Set::lemma_is_singleton(ids);
                }
                return Some(slot.id);
            }
            i += 1;
        }
        proof {
            // Exactly one entity of this kind is live, and it sits in some
            // slot, so the loop cannot have run past every slot.
            let id = ids_of(self@, kind).choose();
            assert(ids_of(self@, kind).contains(id));
            lemma_world_at(self.slots@, index_of(self.slots@, id));
            assert(false);
        }
        None
    }
}

fn is_child_of(record: Record, parent: EntityId) -> (child: bool)
    ensures
        child == (record.parent == Some(parent)),
{
    match record.parent {
        Some(p) => p == parent,
        None => false,
    }
}

spec fn matches_before(slots: Seq<Slot>, end: int, kind: Kind) -> Set<EntityId> {
    Set::new(
        |id: EntityId|
            exists|j: int|
                0 <= j < end && j < slots.len() && (#[trigger] slots[j]).id == id
                    && slots[j].record.entity.kind() == kind,
    )
}

proof fn lemma_matches_step(slots: Seq<Slot>, i: int, kind: Kind)
    requires
        ascending(slots),
        0 <= i < slots.len(),
        matches_before(slots, i, kind).finite(),
    ensures
        matches_before(slots, i + 1, kind).finite(),
        matches_before(slots, i + 1, kind).len() == matches_before(slots, i, kind).len()
            + if slots[i].record.entity.kind() == kind {
            1nat
        } else {
            0nat
        },
{
    let before = matches_before(slots, i, kind);
    let after = matches_before(slots, i + 1, kind);
    let id = slots[i].id;
    if before.contains(id) {
        let j = choose|j: int|
            0 <= j < i && j < slots.len() && (#[trigger] slots[j]).id == id
                && slots[j].record.entity.kind() == kind;
        assert(slots[j].id < slots[i].id);
    }
    assert forall|x: EntityId| before.contains(x) implies after.contains(x) by {
        let j = choose|j: int|
            0 <= j < i && j < slots.len() && (#[trigger] slots[j]).id == x
                && slots[j].record.entity.kind() == kind;
        assert(0 <= j < i + 1 && slots[j].id == x);
    }
    if slots[i].record.entity.kind() == kind {
        assert(after.contains(id)) by {
            assert(0 <= i < i + 1 && slots[i].id == id);
        }
        assert(after =~= before.insert(id));
    } else {
        assert(after =~= before);
    }
}

proof fn lemma_matches_all(slots: Seq<Slot>, kind: Kind)
    requires
        ascending(slots),
    ensures
        matches_before(slots, slots.len() as int, kind) == ids_of(as_world(slots), kind),
        ids_of(as_world(slots), kind).finite(),
{
    let all = matches_before(slots, slots.len() as int, kind);
    let ids = ids_of(as_world(slots), kind);
    assert forall|x: EntityId| all.contains(x) <==> ids.contains(x) by {
        if all.contains(x) {
            let j = choose|j: int|
                0 <= j < slots.len() && j < slots.len() && (#[trigger] slots[j]).id == x
                    && slots[j].record.entity.kind() == kind;
            lemma_world_at(slots, j);
        }
        if ids.contains(x) {
            let j = index_of(slots, x);
            lemma_world_at(slots, j);
        }
    }
    lemma_world_len(slots);
    vstd::set_lib::lemma_len_subset(ids, as_world(slots).dom());
}

} // verus!
