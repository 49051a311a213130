//! Combat resolution: damage events are applied one at a time, in the order
//! they were emitted, and each takes effect before the next is looked at.

use crate::entity::{Entity, EntityId, Kind};
use crate::events::{AudioCue, DamageEvent};
use crate::phase::GameResult;
use crate::registry::Registry;
use crate::vitals::{drain, lemma_drain_closed_form, Health};
use crate::world::{
    bounded, health_in, ids_of, is_kind, shrunk_from, with_health_in, without_family, World,
};
use vstd::prelude::*;

verus! {

/// Where a combat pass stands: the world as the events so far have left it,
/// and what they have caused.
#[verifier::ext_equal]
pub struct CombatState {
    /// The live entities.
    pub world: World,
    /// The entities that were despawned, in order. An entity that went with
    /// the one it was parented to is not listed apart from it.
    pub despawned: Seq<EntityId>,
    /// The sounds that were raised, in order.
    pub cues: Seq<AudioCue>,
    /// How the round was decided, if a death has decided it.
    pub result: GameResult,
}

/// The state before any event of a pass.
pub open spec fn combat_start(world: World) -> CombatState {
    CombatState {
        world,
        despawned: Seq::empty(),
        cues: Seq::empty(),
        result: GameResult::Undecided,
    }
}

/// A minion that deals damage detonates: it is despawned at once and an
/// explosion is heard. Any other giver stays as it is.
pub open spec fn detonate(state: CombatState, giver: EntityId) -> CombatState {
    if is_kind(state.world, giver, Kind::Minion) {
        CombatState {
            world: state.world.remove(giver),
            despawned: state.despawned.push(giver),
            cues: state.cues.push(AudioCue::MinionExplosion),
            result: state.result,
        }
    } else {
        state
    }
}

/// The receiver's death: it is despawned with everything parented to it, and
/// the death of the player or of the enemy decides the round.
pub open spec fn fell(state: CombatState, receiver: EntityId) -> CombatState {
    let world = without_family(state.world, receiver);
    let despawned = state.despawned.push(receiver);
    match state.world[receiver].entity {
        Entity::Player { .. } => CombatState {
            world,
            despawned,
            cues: state.cues.push(AudioCue::PlayerDeath),
            result: GameResult::Lose,
        },
        Entity::Enemy { .. } => CombatState {
            world,
            despawned,
            cues: state.cues.push(AudioCue::EnemyDeath),
            result: GameResult::Win,
        },
        _ => CombatState { world, despawned, cues: state.cues, result: state.result },
    }
}

/// The receiver takes the damage. A receiver that is no longer live, or has
/// no health pool, lets the event drop. One whose health reaches zero dies.
pub open spec fn strike(state: CombatState, receiver: EntityId, amount: u32) -> CombatState {
    match health_in(state.world, receiver) {
        None => state,
        Some(health) => {
            let left = health.after_damage(amount);
            if left.current == 0 {
                fell(state, receiver)
            } else {
                CombatState {
                    world: with_health_in(state.world, receiver, left),
                    despawned: state.despawned,
                    cues: state.cues,
                    result: state.result,
                }
            }
        },
    }
}

/// One damage event: the giver detonates if it is a minion, whether or not
/// the receiver can still be found, and then the receiver is struck.
pub open spec fn damage_step(state: CombatState, event: DamageEvent) -> CombatState {
    strike(detonate(state, event.giver), event.receiver, event.amount)
}

/// A whole queue of damage events, applied in order.
pub open spec fn damage_fold(state: CombatState, events: Seq<DamageEvent>) -> CombatState
    decreases events.len(),
{
    if events.len() == 0 {
        state
    } else {
        damage_step(damage_fold(state, events.drop_last()), events.last())
    }
}

/// What a combat pass caused, for the collaborators that act on it.
pub struct CombatReport {
    /// The entities that were despawned, in order. Whatever was parented to
    /// one of them went with it.
    pub despawned: Vec<EntityId>,
    /// The sounds to play, in order.
    pub cues: Vec<AudioCue>,
    /// How the round was decided, if a death decided it.
    pub result: GameResult,
}

impl CombatReport {
    /// The combat state that this report and a world make up.
    pub open spec fn state(&self, world: World) -> CombatState {
        CombatState {
            world,
            despawned: self.despawned@,
            cues: self.cues@,
            result: self.result,
        }
    }

    /// A report of nothing.
    pub fn new() -> (report: CombatReport)
        ensures
            forall|world: World| #[trigger] report.state(world) == combat_start(world),
    {
        CombatReport { despawned: Vec::new(), cues: Vec::new(), result: GameResult::Undecided }
    }
}

/// Applies one damage event to the registry and adds what it caused to the
/// report.
pub fn apply_damage(registry: &mut Registry, report: &mut CombatReport, event: DamageEvent)
    requires
        old(registry).wf(),
    ensures
        final(registry).wf(),
        final(registry).next_id() == old(registry).next_id(),
        final(report).state(final(registry)@) == damage_step(
            old(report).state(old(registry)@),
            event,
        ),
{
    match registry.entity(event.giver) {
        Some(giver) => {
            if giver.kind() == Kind::Minion {
                registry.despawn(event.giver);
                report.despawned.push(event.giver);
                report.cues.push(AudioCue::MinionExplosion);
            }
        },
        None => {},
    }
    match registry.entity(event.receiver) {
        Some(receiver) => {
            match receiver.health() {
                Some(health) => {
                    let left = health.damaged(event.amount);
                    if left.is_depleted() {
                        registry.despawn_family(event.receiver);
                        report.despawned.push(event.receiver);
                        match receiver {
                            Entity::Player { .. } => {
                                report.cues.push(AudioCue::PlayerDeath);
                                report.result = GameResult::Lose;
                            },
                            Entity::Enemy { .. } => {
                                report.cues.push(AudioCue::EnemyDeath);
                                report.result = GameResult::Win;
                            },
                            _ => {},
                        }
                    } else {
                        registry.set_health(event.receiver, left);
                    }
                },
                None => {},
            }
        },
        None => {},
    }
}

/// Drains a frame's queue of damage events, in emission order.
pub fn resolve_damage(registry: &mut Registry, events: &Vec<DamageEvent>) -> (report:
    CombatReport)
    requires
        old(registry).wf(),
    ensures
        final(registry).wf(),
        final(registry).next_id() == old(registry).next_id(),
        report.state(final(registry)@) == damage_fold(combat_start(old(registry)@), events@),
{
    let ghost start = combat_start(registry@);
    let ghost next = registry.next_id();
    let mut report = CombatReport::new();
    let mut i: usize = 0;
    while i < events.len()
        invariant
            registry.wf(),
            registry.next_id() == next,
            i <= events@.len(),
            report.state(registry@) == damage_fold(start, events@.take(i as int)),
        decreases events@.len() - i,
    {
        proof {
            assert(events@.take(i + 1).drop_last() =~= events@.take(i as int));
        }
        apply_damage(registry, &mut report, events[i]);
        i += 1;
    }
    proof {
        assert(events@.take(events@.len() as int) =~= events@);
    }
    report
}

/// How often `id` occurs in `ids`.
pub open spec fn occurrences(ids: Seq<EntityId>, id: EntityId) -> nat
    decreases ids.len(),
{
    if ids.len() == 0 {
        0
    } else {
        occurrences(ids.drop_last(), id) + if ids.last() == id {
            1nat
        } else {
            0nat
        }
    }
}

/// The amounts of the events aimed at `receiver`, in order.
pub open spec fn hits_on(events: Seq<DamageEvent>, receiver: EntityId) -> Seq<u32>
    decreases events.len(),
{
    if events.len() == 0 {
        Seq::empty()
    } else if events.last().receiver == receiver {
        hits_on(events.drop_last(), receiver).push(events.last().amount)
    } else {
        hits_on(events.drop_last(), receiver)
    }
}

/// What holds between the world a pass started from and any state it
/// reaches: nothing is spawned or changes its kind or parent, nothing but
/// minions is gone while the round is undecided, nothing that was despawned
/// is live, and nothing is despawned twice.
spec fn settled(state: CombatState, world: World) -> bool {
    &&& shrunk_from(state.world, world)
    &&& state.result == GameResult::Undecided ==> forall|id: EntityId| #[trigger]
        world.contains_key(id) && world[id].entity.kind() != Kind::Minion
            ==> state.world.contains_key(id)
    &&& forall|k: int|
        0 <= k < state.despawned.len() ==> world.contains_key(#[trigger] state.despawned[k])
            && !state.world.contains_key(state.despawned[k])
    &&& state.despawned.no_duplicates()
}

proof fn lemma_step_settled(state: CombatState, world: World, event: DamageEvent)
    requires
        settled(state, world),
    ensures
        settled(damage_step(state, event), world),
{
    let mid = detonate(state, event.giver);
    assert(settled(mid, world));
    let end = strike(mid, event.receiver, event.amount);
    assert(settled(end, world));
}

proof fn lemma_fold_settled(world: World, events: Seq<DamageEvent>)
    ensures
        settled(damage_fold(combat_start(world), events), world),
    decreases events.len(),
{
    if events.len() > 0 {
        lemma_fold_settled(world, events.drop_last());
        lemma_step_settled(
            damage_fold(combat_start(world), events.drop_last()),
            world,
            events.last(),
        );
    }
}

proof fn lemma_occurs_at_most_once(ids: Seq<EntityId>, id: EntityId)
    requires
        ids.no_duplicates(),
    ensures
        occurrences(ids, id) == if ids.contains(id) {
            1nat
        } else {
            0nat
        },
    decreases ids.len(),
{
    if ids.len() > 0 {
        let front = ids.drop_last();
        assert forall|i: int, j: int| 0 <= i < front.len() && 0 <= j < front.len() && i
            != j implies front[i] != front[j] by {
            assert(front[i] == ids[i] && front[j] == ids[j]);
        }
        lemma_occurs_at_most_once(front, id);
        if front.contains(id) {
            let i = choose|i: int| 0 <= i < front.len() && front[i] == id;
            assert(ids[i] == id);
            assert(ids.last() != id);
        } else if ids.last() == id {
            assert(ids[ids.len() - 1] == id);
        } else if ids.contains(id) {
            let i = choose|i: int| 0 <= i < ids.len() && ids[i] == id;
            assert(front[i] == id);
        }
    }
}

/// Despawning is final within a pass. Whatever the events are, no entity is
/// despawned twice, every despawned entity was live when the pass began and
/// is gone when it ends, and the pass spawns nothing: a later event that
/// names a despawned entity finds it absent.
pub proof fn lemma_despawned_once(world: World, events: Seq<DamageEvent>)
    ensures
        ({
            let end = damage_fold(combat_start(world), events);
            &&& end.despawned.no_duplicates()
            &&& forall|id: EntityId| #[trigger] occurrences(end.despawned, id) <= 1
            &&& forall|k: int|
                0 <= k < end.despawned.len() ==> world.contains_key(#[trigger] end.despawned[k])
                    && !end.world.contains_key(end.despawned[k])
            &&& shrunk_from(end.world, world)
        }),
{
    lemma_fold_settled(world, events);
    let end = damage_fold(combat_start(world), events);
    assert forall|id: EntityId| #[trigger] occurrences(end.despawned, id) <= 1 by {
        lemma_occurs_at_most_once(end.despawned, id);
    }
}

/// Health never leaves its bounds: if every entity starts a pass within the
/// bounds of its pools, every entity ends it within them.
pub proof fn lemma_combat_keeps_bounds(world: World, events: Seq<DamageEvent>)
    requires
        bounded(world),
    ensures
        bounded(damage_fold(combat_start(world), events).world),
    decreases events.len(),
{
    if events.len() > 0 {
        lemma_combat_keeps_bounds(world, events.drop_last());
        let before = damage_fold(combat_start(world), events.drop_last());
        let mid = detonate(before, events.last().giver);
        assert forall|id: EntityId| #[trigger] mid.world.contains_key(id) implies mid.world[id]
            .entity.wf() by {
            assert(before.world.contains_key(id));
        }
    }
}

/// A pass that decides nothing despawns nothing but minions: while no death
/// has decided the round, every entity that is not a minion is still live,
/// so the players and the enemies are the ones the pass began with.
pub proof fn lemma_undecided_pass_spares_fighters(world: World, events: Seq<DamageEvent>)
    requires
        damage_fold(combat_start(world), events).result == GameResult::Undecided,
    ensures
        ({
            let end = damage_fold(combat_start(world), events);
            &&& forall|id: EntityId| #[trigger]
                world.contains_key(id) && world[id].entity.kind() != Kind::Minion
                    ==> end.world.contains_key(id)
            &&& forall|kind: Kind|
                kind != Kind::Minion ==> #[trigger] ids_of(end.world, kind) == ids_of(world, kind)
        }),
{
    lemma_fold_settled(world, events);
    let end = damage_fold(combat_start(world), events);
    assert forall|kind: Kind| kind != Kind::Minion implies #[trigger] ids_of(end.world, kind)
        == ids_of(world, kind) by {
        assert(ids_of(end.world, kind) =~= ids_of(world, kind));
    }
}

proof fn lemma_parentless_minion_survives_or_is_listed(
    world: World,
    events: Seq<DamageEvent>,
    minion: EntityId,
)
    requires
        is_kind(world, minion, Kind::Minion),
        world[minion].parent is None,
    ensures
        ({
            let end = damage_fold(combat_start(world), events);
            ||| {
                &&& is_kind(end.world, minion, Kind::Minion)
                &&& end.world[minion].parent is None
            }
            ||| end.despawned.contains(minion)
        }),
    decreases events.len(),
{
    if events.len() > 0 {
        let before = damage_fold(combat_start(world), events.drop_last());
        let event = events.last();
        lemma_parentless_minion_survives_or_is_listed(world, events.drop_last(), minion);
        let mid = detonate(before, event.giver);
        let end = strike(mid, event.receiver, event.amount);
        if before.despawned.contains(minion) {
            let k = choose|k: int| 0 <= k < before.despawned.len() && before.despawned[k] == minion;
            assert(mid.despawned[k] == minion);
            assert(end.despawned[k] == minion);
        } else if event.giver == minion {
            assert(mid.despawned[before.despawned.len() as int] == minion);
            assert(end.despawned[before.despawned.len() as int] == minion);
        } else {
            assert(is_kind(mid.world, minion, Kind::Minion));
            assert(is_kind(end.world, minion, Kind::Minion));
        }
    }
}

/// A minion that gives damage is despawned exactly once, however many
/// events of the frame name it. Once any event has named a live minion as
/// its giver, the minion is gone at the end of the pass and is listed at
/// most once; a minion that is parented to nothing is listed exactly once.
pub proof fn lemma_minion_giver_despawned_once(world: World, events: Seq<DamageEvent>, k: int)
    requires
        0 <= k < events.len(),
        is_kind(world, events[k].giver, Kind::Minion),
    ensures
        ({
            let end = damage_fold(combat_start(world), events);
            let minion = events[k].giver;
            &&& !end.world.contains_key(minion)
            &&& occurrences(end.despawned, minion) <= 1
            &&& world[minion].parent is None ==> occurrences(end.despawned, minion) == 1
        }),
    decreases events.len(),
{
    let minion = events[k].giver;
    let front = events.drop_last();
    let before = damage_fold(combat_start(world), front);
    let event = events.last();
    let mid = detonate(before, event.giver);
    let end = strike(mid, event.receiver, event.amount);
    lemma_fold_settled(world, events);
    lemma_fold_settled(world, front);
    lemma_occurs_at_most_once(end.despawned, minion);
    if k == events.len() - 1 {
        assert(!mid.world.contains_key(minion));
        assert(!end.world.contains_key(minion));
        if world[minion].parent is None {
            lemma_parentless_minion_survives_or_is_listed(world, front, minion);
            if before.despawned.contains(minion) {
                let j = choose|j: int|
                    0 <= j < before.despawned.len() && before.despawned[j] == minion;
                assert(mid.despawned[j] == minion);
                assert(end.despawned[j] == minion);
            } else {
                assert(mid.despawned[before.despawned.len() as int] == minion);
                assert(end.despawned[before.despawned.len() as int] == minion);
            }
        }
    } else {
        assert(front[k] == events[k]);
        lemma_minion_giver_despawned_once(world, front, k);
        lemma_occurs_at_most_once(before.despawned, minion);
        assert(!mid.world.contains_key(minion));
        assert(!end.world.contains_key(minion));
        if world[minion].parent is None {
            let j = choose|j: int| 0 <= j < before.despawned.len() && before.despawned[j] == minion;
            assert(mid.despawned[j] == minion);
            assert(end.despawned[j] == minion);
        }
    }
}

/// Health follows the hits one at a time. Whatever else the events of a
/// frame do, an entity with a health pool that is still live at the end of
/// the pass holds `drain` of its health over the amounts aimed at it, in
/// emission order: each hit is clamped at zero before the next is applied.
/// An entity that is parented to nothing is still live exactly if that
/// leaves it anything.
pub proof fn lemma_health_is_drained_in_order(
    world: World,
    events: Seq<DamageEvent>,
    receiver: EntityId,
)
    requires
        health_in(world, receiver) is Some,
    ensures
        ({
            let health = health_in(world, receiver)->0;
            let left = drain(health.current as int, hits_on(events, receiver));
            let end = damage_fold(combat_start(world), events);
            &&& 0 <= left <= health.current
            &&& end.world.contains_key(receiver) ==> health_in(end.world, receiver) == Some(
                Health { current: left as u32, max: health.max },
            )
            &&& world[receiver].parent is None && left > 0 ==> end.world.contains_key(receiver)
            &&& hits_on(events, receiver).len() > 0 && left == 0 ==> !end.world.contains_key(
                receiver,
            )
        }),
    decreases events.len(),
{
    let health = health_in(world, receiver)->0;
    lemma_drain_closed_form(health.current as int, hits_on(events, receiver));
    lemma_fold_settled(world, events);
    if events.len() > 0 {
        let front = events.drop_last();
        let event = events.last();
        lemma_health_is_drained_in_order(world, front, receiver);
        lemma_drain_closed_form(health.current as int, hits_on(front, receiver));
        lemma_fold_settled(world, front);
        let before = damage_fold(combat_start(world), front);
        let mid = detonate(before, event.giver);
        let end = strike(mid, event.receiver, event.amount);
        if event.receiver == receiver {
            assert(hits_on(events, receiver).drop_last() =~= hits_on(front, receiver));
        }
        if before.world.contains_key(receiver) {
            assert(health_in(mid.world, receiver) == health_in(before.world, receiver));
            assert(mid.world[receiver].parent == world[receiver].parent);
        } else {
            assert(!mid.world.contains_key(receiver));
            assert(!end.world.contains_key(receiver));
        }
    }
}

} // verus!
