//! The spawn subsystem: minion bursts paid for in mana, and mana gems that
//! appear on a timer while there is room for them.

use crate::entity::{Entity, EntityId, Kind, Record};
use crate::events::{AudioCue, SpawnMinionRequest};
use crate::registry::Registry;
use crate::timer::{elapsed_after, fires_after, GemTimer};
use crate::world::{
    bounded, count_of, ids_of, lemma_ids_after_pool_change, lemma_ids_after_spawn, mana_in,
    sole_of, with_mana_in, World,
};
use vstd::prelude::*;

verus! {

/// The mana that one burst of minions costs.
pub const MINION_COST: u32 = 10;

/// The number of minions in one burst.
pub const BURST_SIZE: u32 = 2;

/// The damage a minion deals when it detonates.
pub const MINION_DAMAGE: u32 = 20;

/// A gem is spawned only while no more than this many are live.
pub const GEM_CAP: usize = 10;

/// The mana a gem grants.
pub const GEM_VALUE: u32 = 10;

/// Remembers whether an action was held on the previous frame, so that a
/// press is acted on once and not on every frame it lasts.
pub struct PressEdge {
    held: bool,
}

/// How many presses begin in `frames`, given whether the action was held
/// just before them.
pub open spec fn rising_edges(held: bool, frames: Seq<bool>) -> nat
    decreases frames.len(),
{
    if frames.len() == 0 {
        0
    } else {
        let earlier = frames.drop_last();
        let held_before = if earlier.len() == 0 {
            held
        } else {
            earlier.last()
        };
        rising_edges(held, earlier) + if frames.last() && !held_before {
            1nat
        } else {
            0nat
        }
    }
}

impl PressEdge {
    /// Whether the action was held when last observed.
    pub closed spec fn held(&self) -> bool {
        self.held
    }

    /// An edge detector for an action that is not held.
    pub fn new() -> (edge: PressEdge)
        ensures
            !edge.held(),
    {
        PressEdge { held: false }
    }

    /// Takes in this frame's state of the action and reports whether a press
    /// began on this frame.
    pub fn observe(&mut self, pressed: bool) -> (rising: bool)
        ensures
            rising == (pressed && !old(self).held()),
            final(self).held() == pressed,
    {
        let rising = pressed && !self.held;
        self.held = pressed;
        rising
    }
}

/// However long an action is held, it begins once: over any run of frames
/// on all of which a released action is held down, exactly one press begins.
pub proof fn lemma_held_action_fires_once(frames: Seq<bool>)
    requires
        frames.len() > 0,
        forall|i: int| 0 <= i < frames.len() ==> frames[i],
    ensures
        rising_edges(false, frames) == 1,
    decreases frames.len(),
{
    let earlier = frames.drop_last();
    assert(frames.last() == frames[frames.len() - 1]);
    if earlier.len() > 0 {
        assert forall|i: int| 0 <= i < earlier.len() implies earlier[i] by {
            assert(earlier[i] == frames[i]);
        }
        lemma_held_action_fires_once(earlier);
        assert(earlier.last() == frames[earlier.len() - 1]);
    } else {
        assert(rising_edges(false, earlier) == 0);
    }
}

/// The requests of one burst: one per minion, numbered from one.
pub open spec fn burst_requests() -> Seq<SpawnMinionRequest> {
    Seq::new(BURST_SIZE as nat, |i: int| SpawnMinionRequest { offset_index: (i + 1) as u32 })
}

/// A burst is two minions, numbered one and two.
pub proof fn lemma_burst_is_two_minions()
    ensures
        burst_requests() == seq![
            SpawnMinionRequest { offset_index: 1 },
            SpawnMinionRequest { offset_index: 2 },
        ],
{
    assert(burst_requests() =~= seq![
        SpawnMinionRequest { offset_index: 1 },
        SpawnMinionRequest { offset_index: 2 },
    ]);
}

/// What a fire attempt comes to.
#[verifier::ext_equal]
pub struct FireState {
    /// The live entities.
    pub world: World,
    /// The minions asked for.
    pub requests: Seq<SpawnMinionRequest>,
    /// The sound raised, if any.
    pub cue: Option<AudioCue>,
}

/// A fire attempt. With no single player to pay for it, nothing happens.
/// A player who affords the cost pays it and asks for a burst. One who does
/// not keeps the mana, asks for nothing, and hears that the mana is out.
pub open spec fn fire_step(world: World) -> FireState {
    match sole_of(world, Kind::Player) {
        None => FireState { world, requests: Seq::empty(), cue: None },
        Some(player) => match mana_in(world, player) {
            None => FireState { world, requests: Seq::empty(), cue: None },
            Some(mana) => if mana.affords(MINION_COST) {
                FireState {
                    world: with_mana_in(world, player, mana.after_spend(MINION_COST)),
                    requests: burst_requests(),
                    cue: Some(AudioCue::MinionSpawned),
                }
            } else {
                FireState { world, requests: Seq::empty(), cue: Some(AudioCue::OutOfMana) }
            },
        },
    }
}

/// What a fire attempt caused, for the collaborators that act on it.
pub struct FireReport {
    /// The minions asked for.
    pub requests: Vec<SpawnMinionRequest>,
    /// The sound to play, if any.
    pub cue: Option<AudioCue>,
}

impl FireReport {
    /// The fire state that this report and a world make up.
    pub open spec fn state(&self, world: World) -> FireState {
        FireState { world, requests: self.requests@, cue: self.cue }
    }

    /// A report of nothing.
    pub fn new() -> (report: FireReport)
        ensures
            report.requests@ == Seq::<SpawnMinionRequest>::empty(),
            report.cue is None,
    {
        FireReport { requests: Vec::new(), cue: None }
    }
}

fn burst() -> (requests: Vec<SpawnMinionRequest>)
    ensures
        requests@ == burst_requests(),
{
    let mut requests: Vec<SpawnMinionRequest> = Vec::new();
    let mut index: u32 = 0;
    while index < BURST_SIZE
        invariant
            index <= BURST_SIZE,
            requests@.len() == index,
            forall|i: int|
                0 <= i < index ==> requests@[i] == (SpawnMinionRequest {
                    offset_index: (i + 1) as u32,
                }),
        decreases BURST_SIZE - index,
    {
        index += 1;
        requests.push(SpawnMinionRequest { offset_index: index });
    }
    proof {
        assert(requests@ =~= burst_requests());
    }
    requests
}

/// Makes one fire attempt on behalf of the player.
pub fn fire(registry: &mut Registry) -> (report: FireReport)
    requires
        old(registry).wf(),
    ensures
        final(registry).wf(),
        final(registry).next_id() == old(registry).next_id(),
        report.state(final(registry)@) == fire_step(old(registry)@),
{
    match registry.sole(Kind::Player) {
        None => FireReport::new(),
        Some(player) => match registry.mana(player) {
            None => FireReport::new(),
            Some(mana) => {
                let (left, paid) = mana.spend(MINION_COST);
                if paid {
                    registry.set_mana(player, left);
                    FireReport { requests: burst(), cue: Some(AudioCue::MinionSpawned) }
                } else {
                    FireReport { requests: Vec::new(), cue: Some(AudioCue::OutOfMana) }
                }
            },
        },
    }
}

/// Takes in this frame's state of the fire action and makes a fire attempt
/// if a press began on this frame. On every other frame nothing happens.
pub fn handle_fire(registry: &mut Registry, edge: &mut PressEdge, pressed: bool) -> (report:
    FireReport)
    requires
        old(registry).wf(),
    ensures
        final(registry).wf(),
        final(registry).next_id() == old(registry).next_id(),
        final(edge).held() == pressed,
        pressed && !old(edge).held() ==> report.state(final(registry)@) == fire_step(
            old(registry)@,
        ),
        !(pressed && !old(edge).held()) ==> {
            &&& final(registry)@ == old(registry)@
            &&& report.requests@ == Seq::<SpawnMinionRequest>::empty()
            &&& report.cue is None
        },
{
    if edge.observe(pressed) {
        fire(registry)
    } else {
        FireReport::new()
    }
}

/// A minion that was placed for a request.
#[derive(Clone, Copy, Debug, PartialEq, Eq)]
pub struct Placement {
    /// The new minion.
    pub minion: EntityId,
    /// The player it is placed next to.
    pub anchor: EntityId,
    /// Its place in the burst, counted from one.
    pub offset_index: u32,
}

/// The record of a freshly spawned minion.
pub open spec fn minion_record() -> Record {
    Record { entity: Entity::Minion { damage: MINION_DAMAGE }, parent: None }
}

/// The record of a freshly spawned gem.
pub open spec fn gem_record() -> Record {
    Record { entity: Entity::ManaGem { value: GEM_VALUE }, parent: None }
}

/// Where the placing of a burst stands.
#[verifier::ext_equal]
pub struct PlacingState {
    /// The live entities.
    pub world: World,
    /// The handle the next spawned entity will get.
    pub next_id: u64,
    /// The minions placed so far, in order.
    pub placed: Seq<Placement>,
}

/// One request: a minion is spawned next to the player. With no single
/// player to place it by, or no handle left to give it, the request drops.
pub open spec fn place_step(state: PlacingState, request: SpawnMinionRequest) -> PlacingState {
    match sole_of(state.world, Kind::Player) {
        None => state,
        Some(player) => if state.next_id < u64::MAX {
            PlacingState {
                world: state.world.insert(state.next_id, minion_record()),
                next_id: (state.next_id + 1) as u64,
                placed: state.placed.push(
                    Placement {
                        minion: state.next_id,
                        anchor: player,
                        offset_index: request.offset_index,
                    },
                ),
            }
        } else {
            state
        },
    }
}

/// A whole queue of requests, resolved in order.
pub open spec fn place_fold(state: PlacingState, requests: Seq<SpawnMinionRequest>) -> PlacingState
    decreases requests.len(),
{
    if requests.len() == 0 {
        state
    } else {
        place_step(place_fold(state, requests.drop_last()), requests.last())
    }
}

/// Resolves a frame's minion requests, in order, into minions.
pub fn spawn_minions(registry: &mut Registry, requests: &Vec<SpawnMinionRequest>) -> (placed: Vec<
    Placement,
>)
    requires
        old(registry).wf(),
    ensures
        final(registry).wf(),
        (PlacingState {
            world: final(registry)@,
            next_id: final(registry).next_id(),
            placed: placed@,
        }) == place_fold(
            PlacingState {
                world: old(registry)@,
                next_id: old(registry).next_id(),
                placed: Seq::empty(),
            },
            requests@,
        ),
{
    let ghost start = PlacingState {
        world: registry@,
        next_id: registry.next_id(),
        placed: Seq::empty(),
    };
    let mut placed: Vec<Placement> = Vec::new();
    let mut i: usize = 0;
    while i < requests.len()
        invariant
            registry.wf(),
            i <= requests@.len(),
            (PlacingState { world: registry@, next_id: registry.next_id(), placed: placed@ })
                == place_fold(start, requests@.take(i as int)),
        decreases requests@.len() - i,
    {
        proof {
            assert(requests@.take(i + 1).drop_last() =~= requests@.take(i as int));
        }
        match registry.sole(Kind::Player) {
            Some(player) => {
                match registry.spawn(Entity::Minion { damage: MINION_DAMAGE }) {
                    Some(minion) => {
                        placed.push(
                            Placement {
                                minion,
                                anchor: player,
                                offset_index: requests[i].offset_index,
                            },
                        );
                    },
                    None => {},
                }
            },
            None => {},
        }
        i += 1;
    }
    proof {
        assert(requests@.take(requests@.len() as int) =~= requests@);
    }
    placed
}

/// Whether a spawn attempt adds a gem: the timer has fired and no more than
/// [`GEM_CAP`] gems are live.
pub open spec fn gem_due(fired: bool, gems: nat) -> bool {
    fired && gems <= GEM_CAP
}

/// The world after a spawn attempt.
pub open spec fn after_gem_attempt(world: World, next_id: u64, fired: bool) -> World {
    if gem_due(fired, count_of(world, Kind::ManaGem)) && next_id < u64::MAX {
        world.insert(next_id, gem_record())
    } else {
        world
    }
}

/// Makes one spawn attempt for a gem. `fired` says whether the spawn timer
/// completed a period on this frame. Returns the gem, if one was spawned.
pub fn attempt_gem_spawn(registry: &mut Registry, fired: bool) -> (gem: Option<EntityId>)
    requires
        old(registry).wf(),
    ensures
        final(registry).wf(),
        gem is Some <==> gem_due(fired, count_of(old(registry)@, Kind::ManaGem)) && old(
            registry,
        ).next_id() < u64::MAX,
        final(registry)@ == after_gem_attempt(old(registry)@, old(registry).next_id(), fired),
        match gem {
            Some(id) => {
                &&& id == old(registry).next_id()
                &&& final(registry).next_id() == id + 1
                &&& count_of(final(registry)@, Kind::ManaGem) == count_of(
                    old(registry)@,
                    Kind::ManaGem,
                ) + 1
            },
            None => final(registry).next_id() == old(registry).next_id(),
        },
{
    if fired && registry.count(Kind::ManaGem) <= GEM_CAP {
        proof {
            if registry.next_id() < u64::MAX {
                lemma_ids_after_spawn(registry@, registry.next_id(), gem_record(), Kind::ManaGem);
            }
        }
        registry.spawn(Entity::ManaGem { value: GEM_VALUE })
    } else {
        None
    }
}

/// Advances the gem timer by `delta_ns` nanoseconds and makes a spawn
/// attempt if it fired. Returns the gem, if one was spawned.
pub fn tick_gems(registry: &mut Registry, timer: &mut GemTimer, delta_ns: u64) -> (gem: Option<
    EntityId,
>)
    requires
        old(registry).wf(),
        old(timer).wf(),
    ensures
        final(registry).wf(),
        final(timer).wf(),
        final(timer).period() == old(timer).period(),
        final(timer).elapsed() == elapsed_after(
            old(timer).period() as int,
            old(timer).elapsed() as int,
            delta_ns as int,
        ),
        ({
            let fired = fires_after(
                old(timer).period() as int,
                old(timer).elapsed() as int,
                delta_ns as int,
            );
            &&& gem is Some <==> gem_due(fired, count_of(old(registry)@, Kind::ManaGem)) && old(
                registry,
            ).next_id() < u64::MAX
            &&& final(registry)@ == after_gem_attempt(
                old(registry)@,
                old(registry).next_id(),
                fired,
            )
            &&& gem matches Some(id) ==> id == old(registry).next_id()
            &&& final(registry).next_id() == old(registry).next_id() + if gem is Some {
                1int
            } else {
                0int
            }
        }),
{
    let fired = timer.tick(delta_ns);
    attempt_gem_spawn(registry, fired)
}

/// The gem count stays within [`GEM_CAP`] over a spawn attempt, whether or
/// not the timer fired, on every attempt but the one that finds exactly
/// [`GEM_CAP`] gems live just as the timer fires: that one adds a gem.
pub proof fn lemma_gem_count_capped(world: World, next_id: u64, fired: bool)
    requires
        world.dom().finite(),
        !world.contains_key(next_id),
        count_of(world, Kind::ManaGem) <= GEM_CAP,
        !(count_of(world, Kind::ManaGem) == GEM_CAP && fired && next_id < u64::MAX),
    ensures
        count_of(after_gem_attempt(world, next_id, fired), Kind::ManaGem) <= GEM_CAP,
{
    lemma_ids_after_spawn(world, next_id, gem_record(), Kind::ManaGem);
}

/// However often the timer fires, a spawn attempt adds at most one gem,
/// adds none once more than [`GEM_CAP`] gems are live, and so never takes
/// the count past `GEM_CAP + 1`.
pub proof fn lemma_gem_count_ceiling(world: World, next_id: u64, fired: bool)
    requires
        world.dom().finite(),
        !world.contains_key(next_id),
    ensures
        ({
            let before = count_of(world, Kind::ManaGem);
            let after = count_of(after_gem_attempt(world, next_id, fired), Kind::ManaGem);
            &&& before <= after <= before + 1
            &&& before > GEM_CAP ==> after == before
            &&& before <= GEM_CAP + 1 ==> after <= GEM_CAP + 1
        }),
{
    lemma_ids_after_spawn(world, next_id, gem_record(), Kind::ManaGem);
}

/// A fire attempt changes a mana pool at most: each kind has the entities it
/// had, and a world within its bounds stays within them.
pub proof fn lemma_fire_keeps_kinds(world: World, kind: Kind)
    ensures
        ids_of(fire_step(world).world, kind) == ids_of(world, kind),
        fire_step(world).world.dom() == world.dom(),
        bounded(world) ==> bounded(fire_step(world).world),
{
    match sole_of(world, Kind::Player) {
        None => {},
        Some(player) => {
            if world.contains_key(player) {
                lemma_ids_after_pool_change(world, player, kind);
            }
        },
    }
}

/// Placing a burst adds minions under fresh handles and nothing else: every
/// other kind has the entities it had, and no live handle is one that has
/// yet to be issued.
pub proof fn lemma_placing_adds_minions(state: PlacingState, requests: Seq<SpawnMinionRequest>)
    requires
        state.world.dom().finite(),
        forall|id: EntityId| #[trigger] state.world.contains_key(id) ==> id < state.next_id,
    ensures
        ({
            let end = place_fold(state, requests);
            &&& end.world.dom().finite()
            &&& state.next_id <= end.next_id
            &&& bounded(state.world) ==> bounded(end.world)
            &&& forall|id: EntityId| #[trigger] end.world.contains_key(id) ==> id < end.next_id
            &&& forall|kind: Kind|
                kind != Kind::Minion ==> #[trigger] ids_of(end.world, kind) == ids_of(
                    state.world,
                    kind,
                )
        }),
    decreases requests.len(),
{
    if requests.len() > 0 {
        lemma_placing_adds_minions(state, requests.drop_last());
        let before = place_fold(state, requests.drop_last());
        let end = place_step(before, requests.last());
        assert forall|kind: Kind| kind != Kind::Minion implies #[trigger] ids_of(end.world, kind)
            == ids_of(state.world, kind) by {
            if end != before {
                lemma_ids_after_spawn(before.world, before.next_id, minion_record(), kind);
            }
        }
    }
}

/// A spawn attempt for a gem touches no entity of another kind, and keeps a
/// world within its bounds.
pub proof fn lemma_gem_attempt_keeps_others(world: World, next_id: u64, fired: bool, kind: Kind)
    requires
        world.dom().finite(),
        !world.contains_key(next_id),
        kind != Kind::ManaGem,
    ensures
        ids_of(after_gem_attempt(world, next_id, fired), kind) == ids_of(world, kind),
        after_gem_attempt(world, next_id, fired).dom().finite(),
        bounded(world) ==> bounded(after_gem_attempt(world, next_id, fired)),
{
    lemma_ids_after_spawn(world, next_id, gem_record(), kind);
}

} // verus!
