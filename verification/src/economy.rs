//! The resource economy: mana-gain events are applied one at a time, in the
//! order they were emitted.

use crate::entity::{EntityId, Kind};
use crate::events::{AudioCue, ManaGainEvent};
use crate::registry::Registry;
use crate::world::{bounded, ids_of, mana_in, shrunk_from, with_mana_in, World};
use vstd::prelude::*;

verus! {

/// Where an economy pass stands: the world as the events so far have left
/// it, and what they have caused.
#[verifier::ext_equal]
pub struct EconomyState {
    /// The live entities.
    pub world: World,
    /// The gems that were picked up and despawned, in order.
    pub despawned: Seq<EntityId>,
    /// The sounds that were raised, in order.
    pub cues: Seq<AudioCue>,
}

/// The state before any event of a pass.
pub open spec fn economy_start(world: World) -> EconomyState {
    EconomyState { world, despawned: Seq::empty(), cues: Seq::empty() }
}

/// One mana-gain event. A collector that is not live or has no mana pool
/// lets the event drop. A collector whose pool is full walks through the
/// gem: nothing changes and the gem stays. Otherwise the gem is despawned,
/// the pool grows by the amount up to its maximum, and a pickup is heard.
pub open spec fn mana_step(state: EconomyState, event: ManaGainEvent) -> EconomyState {
    match mana_in(state.world, event.player) {
        None => state,
        Some(mana) => {
            if mana.full() {
                state
            } else {
                let picked = state.world.remove(event.gem);
                EconomyState {
                    world: if picked.contains_key(event.player) {
                        with_mana_in(picked, event.player, mana.after_gain(event.amount))
                    } else {
                        picked
                    },
                    despawned: if state.world.contains_key(event.gem) {
                        state.despawned.push(event.gem)
                    } else {
                        state.despawned
                    },
                    cues: state.cues.push(AudioCue::ManaPickup),
                }
            }
        },
    }
}

/// A whole queue of mana-gain events, applied in order.
pub open spec fn mana_fold(state: EconomyState, events: Seq<ManaGainEvent>) -> EconomyState
    decreases events.len(),
{
    if events.len() == 0 {
        state
    } else {
        mana_step(mana_fold(state, events.drop_last()), events.last())
    }
}

/// What an economy pass caused, for the collaborators that act on it.
pub struct EconomyReport {
    /// The gems that were despawned, in order.
    pub despawned: Vec<EntityId>,
    /// The sounds to play, in order.
    pub cues: Vec<AudioCue>,
}

impl EconomyReport {
    /// The economy state that this report and a world make up.
    pub open spec fn state(&self, world: World) -> EconomyState {
        EconomyState { world, despawned: self.despawned@, cues: self.cues@ }
    }

    /// A report of nothing.
    pub fn new() -> (report: EconomyReport)
        ensures
            forall|world: World| #[trigger] report.state(world) == economy_start(world),
    {
        EconomyReport { despawned: Vec::new(), cues: Vec::new() }
    }
}

/// Applies one mana-gain event to the registry and adds what it caused to
/// the report.
pub fn apply_mana_gain(registry: &mut Registry, report: &mut EconomyReport, event: ManaGainEvent)
    requires
        old(registry).wf(),
    ensures
        final(registry).wf(),
        final(registry).next_id() == old(registry).next_id(),
        final(report).state(final(registry)@) == mana_step(
            old(report).state(old(registry)@),
            event,
        ),
{
    match registry.mana(event.player) {
        Some(mana) => {
            let (after, gained) = mana.gain(event.amount);
            if gained {
                if registry.despawn(event.gem) {
                    report.despawned.push(event.gem);
                }
                registry.set_mana(event.player, after);
                report.cues.push(AudioCue::ManaPickup);
            }
        },
        None => {},
    }
}

/// Drains a frame's queue of mana-gain events, in emission order.
pub fn resolve_mana(registry: &mut Registry, events: &Vec<ManaGainEvent>) -> (report:
    EconomyReport)
    requires
        old(registry).wf(),
    ensures
        final(registry).wf(),
        final(registry).next_id() == old(registry).next_id(),
        report.state(final(registry)@) == mana_fold(economy_start(old(registry)@), events@),
{
    let ghost start = economy_start(registry@);
    let ghost next = registry.next_id();
    let mut report = EconomyReport::new();
    let mut i: usize = 0;
    while i < events.len()
        invariant
            registry.wf(),
            registry.next_id() == next,
            i <= events@.len(),
            report.state(registry@) == mana_fold(start, events@.take(i as int)),
        decreases events@.len() - i,
    {
        proof {
            assert(events@.take(i + 1).drop_last() =~= events@.take(i as int));
        }
        apply_mana_gain(registry, &mut report, events[i]);
        i += 1;
    }
    proof {
        assert(events@.take(events@.len() as int) =~= events@);
    }
    report
}

/// What holds between the world a pass started from and any state it
/// reaches: nothing is spawned, and no gem is collected twice.
spec fn settled(state: EconomyState, world: World) -> bool {
    &&& shrunk_from(state.world, world)
    &&& forall|k: int|
        0 <= k < state.despawned.len() ==> world.contains_key(#[trigger] state.despawned[k])
            && !state.world.contains_key(state.despawned[k])
    &&& state.despawned.no_duplicates()
}

/// What holds of the pools between a bounded world a pass started from and
/// any state it reaches: every entity is within its bounds, and a mana pool
/// has kept its maximum and lost nothing.
spec fn replenished(state: EconomyState, world: World) -> bool {
    &&& bounded(state.world)
    &&& forall|id: EntityId| #[trigger]
        state.world.contains_key(id) ==> world.contains_key(id) && match (
            mana_in(state.world, id),
            mana_in(world, id),
        ) {
            (Some(now), Some(then)) => now.max == then.max && now.current >= then.current,
            (None, None) => true,
            _ => false,
        }
}

proof fn lemma_fold_settled(world: World, events: Seq<ManaGainEvent>)
    ensures
        settled(mana_fold(economy_start(world), events), world),
    decreases events.len(),
{
    if events.len() > 0 {
        lemma_fold_settled(world, events.drop_last());
        let before = mana_fold(economy_start(world), events.drop_last());
        assert(settled(mana_step(before, events.last()), world));
    }
}

proof fn lemma_fold_replenished(world: World, events: Seq<ManaGainEvent>)
    requires
        bounded(world),
    ensures
        replenished(mana_fold(economy_start(world), events), world),
    decreases events.len(),
{
    if events.len() > 0 {
        lemma_fold_replenished(world, events.drop_last());
        let before = mana_fold(economy_start(world), events.drop_last());
        assert(replenished(mana_step(before, events.last()), world));
    }
}

/// A gem is collected once. Whatever the events of a frame are, no gem is
/// despawned twice, every despawned gem was live when the pass began and is
/// gone when it ends, and the pass spawns nothing.
pub proof fn lemma_gems_collected_once(world: World, events: Seq<ManaGainEvent>)
    ensures
        ({
            let end = mana_fold(economy_start(world), events);
            &&& shrunk_from(end.world, world)
            &&& end.despawned.no_duplicates()
            &&& forall|k: int|
                0 <= k < end.despawned.len() ==> world.contains_key(#[trigger] end.despawned[k])
                    && !end.world.contains_key(end.despawned[k])
        }),
{
    lemma_fold_settled(world, events);
}

/// Mana never leaves its bounds and is never lost to a pickup. Whatever the
/// events of a frame are, if every entity starts within its bounds then
/// every entity ends within them, and every entity that has a mana pool at
/// the end of the pass had one at the start, with the same maximum, and
/// holds at least what it held and at most that maximum.
pub proof fn lemma_mana_only_grows_within_bounds(world: World, events: Seq<ManaGainEvent>)
    requires
        bounded(world),
    ensures
        ({
            let end = mana_fold(economy_start(world), events);
            &&& bounded(end.world)
            &&& forall|id: EntityId| #[trigger]
                mana_in(end.world, id) is Some ==> {
                    let now = mana_in(end.world, id)->0;
                    &&& mana_in(world, id) matches Some(then)
                    &&& then.current <= now.current <= now.max
                    &&& now.max == then.max
                }
        }),
{
    lemma_fold_replenished(world, events);
    let end = mana_fold(economy_start(world), events);
    assert forall|id: EntityId| #[trigger] mana_in(end.world, id) is Some implies {
        let now = mana_in(end.world, id)->0;
        &&& mana_in(world, id) matches Some(then)
        &&& then.current <= now.current <= now.max
        &&& now.max == then.max
    } by {
        assert(end.world.contains_key(id));
        assert(end.world[id].entity.wf());
    }
}

/// Whether every event names, as its gem, an entity that is a mana gem if it
/// is live at all.
pub open spec fn gems_only(world: World, events: Seq<ManaGainEvent>) -> bool {
    forall|k: int|
        0 <= k < events.len() ==> {
            let gem = (#[trigger] events[k]).gem;
            world.contains_key(gem) ==> world[gem].entity.kind() == Kind::ManaGem
        }
}

/// A pass over events that name only gems despawns only gems: every other
/// entity is still live at the end, so each other kind has the entities the
/// pass began with.
pub proof fn lemma_pickups_take_only_gems(world: World, events: Seq<ManaGainEvent>)
    requires
        gems_only(world, events),
    ensures
        ({
            let end = mana_fold(economy_start(world), events);
            &&& forall|id: EntityId| #[trigger]
                world.contains_key(id) && world[id].entity.kind() != Kind::ManaGem
                    ==> end.world.contains_key(id)
            &&& forall|kind: Kind|
                kind != Kind::ManaGem ==> #[trigger] ids_of(end.world, kind) == ids_of(world, kind)
        }),
    decreases events.len(),
{
    let end = mana_fold(economy_start(world), events);
    lemma_fold_settled(world, events);
    if events.len() > 0 {
        let front = events.drop_last();
        assert forall|k: int| 0 <= k < front.len() implies {
            let gem = (#[trigger] front[k]).gem;
            world.contains_key(gem) ==> world[gem].entity.kind() == Kind::ManaGem
        } by {
            assert(front[k] == events[k]);
        }
        lemma_pickups_take_only_gems(world, front);
        lemma_fold_settled(world, front);
        let before = mana_fold(economy_start(world), front);
        let event = events.last();
        assert(event == events[events.len() - 1]);
        assert forall|id: EntityId| #[trigger]
            world.contains_key(id) && world[id].entity.kind()
                != Kind::ManaGem implies end.world.contains_key(id) by {
            assert(before.world.contains_key(id));
            assert(id != event.gem);
        }
    }
    assert forall|kind: Kind| kind != Kind::ManaGem implies #[trigger] ids_of(end.world, kind)
        == ids_of(world, kind) by {
        assert(ids_of(end.world, kind) =~= ids_of(world, kind));
    }
}

} // verus!
