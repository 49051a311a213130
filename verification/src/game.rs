//! The simulation context: the phase, the registry, and the timers, owned in
//! one place and stepped by the loop that drives the game.
//!
//! A frame reaches the context twice. Before the physics step the loop hands
//! in the frame's input, and the context spawns what is due. After it, the
//! loop hands in the collision pairs that started this frame, and the
//! context resolves them: collisions first, then combat, then the resource
//! economy, each finished before the next begins. Whatever the subsystems
//! emit within a call is consumed within that call.

use crate::collision::{damages_from, gains_from, lemma_gains_name_gems, resolve_collisions};
use crate::combat::{
    combat_start, damage_fold, lemma_combat_keeps_bounds, lemma_despawned_once,
    lemma_undecided_pass_spares_fighters, resolve_damage,
};
use crate::economy::{
    economy_start, lemma_gems_collected_once, lemma_mana_only_grows_within_bounds,
    lemma_pickups_take_only_gems, mana_fold, resolve_mana,
};
use crate::entity::{Entity, EntityId, Kind, Record};
use crate::events::{AudioCue, CollisionPair, SpawnMinionRequest};
use crate::phase::{advance, decide, next_phase, next_result, GameResult, Phase, Signal};
use crate::registry::Registry;
use crate::spawn::{
    after_gem_attempt, fire_step, gem_due, handle_fire, lemma_fire_keeps_kinds,
    lemma_gem_attempt_keeps_others, lemma_gem_count_ceiling, lemma_placing_adds_minions,
    place_fold, spawn_minions, tick_gems, PlacingState, Placement, PressEdge, GEM_CAP,
};
use crate::timer::{elapsed_after, fires_after, GemTimer};
use crate::vitals::{Health, Mana};
use crate::world::{count_of, ids_of, lemma_shrunk_counts, world_wf, World};
use vstd::prelude::*;

verus! {

/// The player's health at the start of a round.
pub const PLAYER_HEALTH: u32 = 10;

/// The player's mana at the start of a round.
pub const PLAYER_MANA: u32 = 50;

/// The enemy's health at the start of a round.
pub const ENEMY_HEALTH: u32 = 500;

/// The damage the enemy deals on contact.
pub const ENEMY_DAMAGE: u32 = 15;

/// The time between two gem spawn attempts, in nanoseconds.
pub const GEM_PERIOD_NS: u64 = 2_000_000_000;

/// The handle of the player in a round that has just begun.
pub const FIRST_PLAYER: EntityId = 0;

/// The handle of the enemy in a round that has just begun.
pub const FIRST_ENEMY: EntityId = 1;

/// The handle of the enemy's health label in a round that has just begun.
pub const FIRST_LABEL: EntityId = 2;

/// All that the simulation context holds.
#[verifier::ext_equal]
pub struct GameView {
    /// The current phase.
    pub phase: Phase,
    /// How the last round ended.
    pub result: GameResult,
    /// The live entities.
    pub world: World,
    /// The handle the next spawned entity will get.
    pub next_id: u64,
    /// The period of the gem timer, in nanoseconds.
    pub gem_period: nat,
    /// The time the gem timer has run since it last fired, in nanoseconds.
    pub gem_elapsed: nat,
    /// Whether the fire action was held on the last frame that was stepped.
    pub fire_held: bool,
}

/// The entities of a round that has just begun: the player, the enemy, and
/// the enemy's health label.
pub open spec fn arena_start() -> World {
    Map::<EntityId, Record>::empty().insert(
        FIRST_PLAYER,
        Record {
            entity: Entity::Player {
                health: Health { current: PLAYER_HEALTH, max: PLAYER_HEALTH },
                mana: Mana { current: PLAYER_MANA, max: PLAYER_MANA },
            },
            parent: None,
        },
    ).insert(
        FIRST_ENEMY,
        Record {
            entity: Entity::Enemy {
                health: Health { current: ENEMY_HEALTH, max: ENEMY_HEALTH },
                damage: ENEMY_DAMAGE,
            },
            parent: None,
        },
    ).insert(FIRST_LABEL, Record { entity: Entity::Label, parent: Some(FIRST_ENEMY) })
}

/// The context before anything has happened.
pub open spec fn game_start() -> GameView {
    GameView {
        phase: Phase::AssetLoading,
        result: GameResult::Undecided,
        world: Map::empty(),
        next_id: 0,
        gem_period: GEM_PERIOD_NS as nat,
        gem_elapsed: 0,
        fire_held: false,
    }
}

/// The context after a signal. The phase and the recorded result follow the
/// phase machine. When the phase changes, the entities of the phase that is
/// left are destroyed, and on entering a round its entities are created and
/// its timers start afresh.
pub open spec fn after_signal(state: GameView, signal: Signal) -> GameView {
    let phase = next_phase(state.phase, signal);
    let result = next_result(state.result, state.phase, signal);
    if phase == state.phase {
        GameView { result, ..state }
    } else if phase == Phase::InGame {
        GameView {
            phase,
            result,
            world: arena_start(),
            next_id: 3,
            gem_period: GEM_PERIOD_NS as nat,
            gem_elapsed: 0,
            fire_held: false,
        }
    } else {
        GameView { phase, result, world: Map::empty(), next_id: 0, ..state }
    }
}

/// What a frame brings in before the physics step.
#[derive(Clone, Copy, Debug, PartialEq, Eq)]
pub struct FrameInput {
    /// The time since the previous frame, in nanoseconds.
    pub delta_ns: u64,
    /// Whether the fire action is held on this frame.
    pub fire_pressed: bool,
}

/// What the spawn subsystem did on a frame, for the collaborators that act
/// on it.
pub struct SpawnReport {
    /// The minions that were placed, in order.
    pub minions: Vec<Placement>,
    /// The gem that was spawned, if any.
    pub gem: Option<EntityId>,
    /// The sound to play for the fire action, if any.
    pub cue: Option<AudioCue>,
}

/// The context after the spawn step of a frame, with what the step reports.
#[verifier::ext_equal]
pub struct SpawnedView {
    /// The context after the step.
    pub state: GameView,
    /// The minions that were placed, in order.
    pub minions: Seq<Placement>,
    /// The gem that was spawned, if any.
    pub gem: Option<EntityId>,
    /// The sound raised for the fire action, if any.
    pub cue: Option<AudioCue>,
}

/// The spawn step of a frame. Outside a round nothing happens. In a round,
/// a press of the fire action that begins on this frame is paid for and its
/// burst is placed at once; then the gem timer advances and, if it fires
/// while there is room, a gem is spawned.
pub open spec fn after_spawning(state: GameView, input: FrameInput) -> SpawnedView {
    if state.phase != Phase::InGame {
        SpawnedView { state, minions: Seq::empty(), gem: None, cue: None }
    } else {
        let rising = input.fire_pressed && !state.fire_held;
        let fired_world = if rising {
            fire_step(state.world).world
        } else {
            state.world
        };
        let requests = if rising {
            fire_step(state.world).requests
        } else {
            Seq::<SpawnMinionRequest>::empty()
        };
        let cue = if rising {
            fire_step(state.world).cue
        } else {
            None
        };
        let placed = place_fold(
            PlacingState { world: fired_world, next_id: state.next_id, placed: Seq::empty() },
            requests,
        );
        let timer_fired = fires_after(
            state.gem_period as int,
            state.gem_elapsed as int,
            input.delta_ns as int,
        );
        let gem_spawned = gem_due(timer_fired, count_of(placed.world, Kind::ManaGem))
            && placed.next_id < u64::MAX;
        SpawnedView {
            state: GameView {
                phase: state.phase,
                result: state.result,
                world: after_gem_attempt(placed.world, placed.next_id, timer_fired),
                next_id: if gem_spawned {
                    (placed.next_id + 1) as u64
                } else {
                    placed.next_id
                },
                gem_period: state.gem_period,
                gem_elapsed: elapsed_after(
                    state.gem_period as int,
                    state.gem_elapsed as int,
                    input.delta_ns as int,
                ) as nat,
                fire_held: input.fire_pressed,
            },
            minions: placed.placed,
            gem: if gem_spawned {
                Some(placed.next_id)
            } else {
                None
            },
            cue,
        }
    }
}

/// What the resolution of a frame's collisions caused, for the
/// collaborators that act on it.
pub struct ContactReport {
    /// The entities that were despawned one by one, in order: first those
    /// of the combat pass, then the gems of the economy pass. Whatever was
    /// parented to one of them went with it.
    pub despawned: Vec<EntityId>,
    /// The sounds to play, in order.
    pub cues: Vec<AudioCue>,
    /// How the round ended, if it ended on this frame.
    pub result: GameResult,
}

/// The context after the resolution of a frame's collisions, with what the
/// resolution reports.
#[verifier::ext_equal]
pub struct ResolvedView {
    /// The context after the resolution.
    pub state: GameView,
    /// The entities that were despawned one by one, in order.
    pub despawned: Seq<EntityId>,
    /// The sounds that were raised, in order.
    pub cues: Seq<AudioCue>,
    /// How the round ended, if it ended on this frame.
    pub result: GameResult,
}

/// The resolution of a frame's collisions. Outside a round nothing happens.
/// In a round, the pairs are turned into events against the world as it
/// stands; the damage events are drained, then the mana-gain events. If a
/// death decided the round, the phase machine is told, and leaving the round
/// destroys its entities.
pub open spec fn after_contacts(state: GameView, pairs: Seq<CollisionPair>) -> ResolvedView {
    if state.phase != Phase::InGame {
        ResolvedView {
            state,
            despawned: Seq::empty(),
            cues: Seq::empty(),
            result: GameResult::Undecided,
        }
    } else {
        let combat = damage_fold(combat_start(state.world), damages_from(state.world, pairs));
        let economy = mana_fold(economy_start(combat.world), gains_from(state.world, pairs));
        let settled = GameView { world: economy.world, ..state };
        ResolvedView {
            state: match combat.result {
                GameResult::Undecided => settled,
                GameResult::Lose => after_signal(settled, Signal::PlayerDied),
                GameResult::Win => after_signal(settled, Signal::EnemyDied),
            },
            despawned: combat.despawned + economy.despawned,
            cues: combat.cues + economy.cues,
            result: combat.result,
        }
    }
}

/// The simulation context.
pub struct Game {
    phase: Phase,
    result: GameResult,
    registry: Registry,
    gem_timer: GemTimer,
    fire: PressEdge,
}

impl View for Game {
    type V = GameView;

    closed spec fn view(&self) -> GameView {
        GameView {
            phase: self.phase,
            result: self.result,
            world: self.registry@,
            next_id: self.registry.next_id(),
            gem_period: self.gem_timer.period(),
            gem_elapsed: self.gem_timer.elapsed(),
            fire_held: self.fire.held(),
        }
    }
}

/// What holds of the context between any two steps: the world is well
/// formed, every live handle has been issued, the gem timer has not run a
/// whole period, no more than `GEM_CAP + 1` gems are live, outside a round
/// no entity is live, and in a round exactly one player and exactly one
/// enemy are.
pub open spec fn view_wf(state: GameView) -> bool {
    &&& world_wf(state.world)
    &&& forall|id: EntityId| #[trigger] state.world.contains_key(id) ==> id < state.next_id
    &&& if state.gem_period == 0 {
        state.gem_elapsed == 0
    } else {
        state.gem_elapsed < state.gem_period
    }
    &&& count_of(state.world, Kind::ManaGem) <= GEM_CAP + 1
    &&& state.phase != Phase::InGame ==> state.world == Map::<EntityId, Record>::empty()
    &&& state.phase == Phase::InGame ==> count_of(state.world, Kind::Player) == 1 && count_of(
        state.world,
        Kind::Enemy,
    ) == 1
}

/// A round begins with one player, one enemy, and no gem.
pub proof fn lemma_arena_start()
    ensures
        world_wf(arena_start()),
        forall|id: EntityId| #[trigger] arena_start().contains_key(id) ==> id < 3,
        ids_of(arena_start(), Kind::Player) == set![FIRST_PLAYER],
        ids_of(arena_start(), Kind::Enemy) == set![FIRST_ENEMY],
        count_of(arena_start(), Kind::Player) == 1,
        count_of(arena_start(), Kind::Enemy) == 1,
        count_of(arena_start(), Kind::ManaGem) == 0,
        count_of(arena_start(), Kind::Minion) == 0,
{
    assert(ids_of(arena_start(), Kind::Player) =~= set![FIRST_PLAYER]);
    assert(ids_of(arena_start(), Kind::Enemy) =~= set![FIRST_ENEMY]);
    assert(ids_of(arena_start(), Kind::ManaGem) =~= Set::<EntityId>::empty());
    assert(ids_of(arena_start(), Kind::Minion) =~= Set::<EntityId>::empty());
}

proof fn lemma_empty_world()
    ensures
        forall|kind: Kind| #[trigger] count_of(Map::<EntityId, Record>::empty(), kind) == 0,
{
    assert forall|kind: Kind| #[trigger]
        count_of(Map::<EntityId, Record>::empty(), kind) == 0 by {
        assert(ids_of(Map::<EntityId, Record>::empty(), kind) =~= Set::<EntityId>::empty());
    }
}

impl Game {
    /// The parts of the context are each well formed.
    pub closed spec fn parts_wf(&self) -> bool {
        self.registry.wf() && self.gem_timer.wf()
    }

    /// The context is well formed.
    pub open spec fn wf(&self) -> bool {
        self.parts_wf() && view_wf(self@)
    }

    /// A context that waits for its assets.
    pub fn new() -> (game: Game)
        ensures
            game.wf(),
            game@ == game_start(),
    {
        proof {
            lemma_empty_world();
        }
        Game {
            phase: Phase::AssetLoading,
            result: GameResult::Undecided,
            registry: Registry::new(),
            gem_timer: GemTimer::new(GEM_PERIOD_NS),
            fire: PressEdge::new(),
        }
    }

    /// The current phase.
    pub fn phase(&self) -> (phase: Phase)
        ensures
            phase == self@.phase,
    {
        self.phase
    }

    /// How the last round ended.
    pub fn result(&self) -> (result: GameResult)
        ensures
            result == self@.result,
    {
        self.result
    }

    /// The registry, to read from.
    pub fn registry(&self) -> (registry: &Registry)
        requires
            self.wf(),
        ensures
            registry.wf(),
            registry@ == self@.world,
            registry.next_id() == self@.next_id,
    {
        &self.registry
    }

    fn begin_round(&mut self)
        ensures
            final(self).parts_wf(),
            final(self).phase == old(self).phase,
            final(self).result == old(self).result,
            final(self)@.world == arena_start(),
            final(self)@.next_id == 3,
            final(self)@.gem_period == GEM_PERIOD_NS,
            final(self)@.gem_elapsed == 0,
            !final(self)@.fire_held,
    {
        self.registry.clear();
        self.registry.spawn(
            Entity::Player {
                health: Health::full(PLAYER_HEALTH),
                mana: Mana::filled(PLAYER_MANA),
            },
        );
        self.registry.spawn(
            Entity::Enemy { health: Health::full(ENEMY_HEALTH), damage: ENEMY_DAMAGE },
        );
        self.registry.spawn_child(Entity::Label, FIRST_ENEMY);
        self.gem_timer = GemTimer::new(GEM_PERIOD_NS);
        self.fire = PressEdge::new();
    }

    /// Hands a signal to the phase machine. Returns whether the phase
    /// changed.
    pub fn signal(&mut self, signal: Signal) -> (changed: bool)
        requires
            old(self).wf(),
        ensures
            final(self).wf(),
            final(self)@ == after_signal(old(self)@, signal),
            changed == (final(self)@.phase != old(self)@.phase),
    {
        self.transition(signal)
    }

    fn transition(&mut self, signal: Signal) -> (changed: bool)
        requires
            old(self).parts_wf(),
            next_phase(old(self)@.phase, signal) == old(self)@.phase ==> view_wf(old(self)@),
        ensures
            final(self).wf(),
            final(self)@ == after_signal(old(self)@, signal),
            changed == (final(self)@.phase != old(self)@.phase),
    {
        let phase = advance(self.phase, signal);
        let result = decide(self.result, self.phase, signal);
        let changed = phase != self.phase;
        proof {
            lemma_arena_start();
            lemma_empty_world();
        }
        if changed {
            if phase == Phase::InGame {
                self.begin_round();
            } else {
                self.registry.clear();
            }
        }
        self.phase = phase;
        self.result = result;
        changed
    }

    /// Runs the spawn subsystem for one frame, before the physics step.
    pub fn begin_frame(&mut self, input: FrameInput) -> (report: SpawnReport)
        requires
            old(self).wf(),
        ensures
            final(self).wf(),
            (SpawnedView {
                state: final(self)@,
                minions: report.minions@,
                gem: report.gem,
                cue: report.cue,
            }) == after_spawning(old(self)@, input),
    {
        if self.phase != Phase::InGame {
            return SpawnReport { minions: Vec::new(), gem: None, cue: None };
        }
        proof {
            lemma_spawning_preserves_wf(self@, input);
        }
        let fired = handle_fire(&mut self.registry, &mut self.fire, input.fire_pressed);
        let minions = spawn_minions(&mut self.registry, &fired.requests);
        let gem = tick_gems(&mut self.registry, &mut self.gem_timer, input.delta_ns);
        SpawnReport { minions, gem, cue: fired.cue }
    }

    /// Resolves the collision pairs that started on this frame, after the
    /// physics step.
    pub fn resolve_contacts(&mut self, pairs: &Vec<CollisionPair>) -> (report: ContactReport)
        requires
            old(self).wf(),
        ensures
            final(self).wf(),
            (ResolvedView {
                state: final(self)@,
                despawned: report.despawned@,
                cues: report.cues@,
                result: report.result,
            }) == after_contacts(old(self)@, pairs@),
    {
        if self.phase != Phase::InGame {
            return ContactReport {
                despawned: Vec::new(),
                cues: Vec::new(),
                result: GameResult::Undecided,
            };
        }
        proof {
            lemma_contacts_preserve_wf(self@, pairs@);
        }
        let events = resolve_collisions(&self.registry, pairs);
        let combat = resolve_damage(&mut self.registry, &events.damage);
        let economy = resolve_mana(&mut self.registry, &events.mana);
        let mut despawned = combat.despawned;
        let mut gems = economy.despawned;
        despawned.append(&mut gems);
        let mut cues = combat.cues;
        let mut pickups = economy.cues;
        cues.append(&mut pickups);
        match combat.result {
            GameResult::Undecided => {},
            GameResult::Lose => {
                self.transition(Signal::PlayerDied);
            },
            GameResult::Win => {
                self.transition(Signal::EnemyDied);
            },
        }
        ContactReport { despawned, cues, result: combat.result }
    }
}

/// The phase machine keeps the context well formed, whatever the signal.
pub proof fn lemma_signal_preserves_wf(state: GameView, signal: Signal)
    requires
        view_wf(state),
    ensures
        view_wf(after_signal(state, signal)),
{
    lemma_arena_start();
    lemma_empty_world();
}

/// The spawn step keeps the context well formed: pools stay within their
/// bounds, a round keeps its one player and its one enemy, and no more than
/// `GEM_CAP + 1` gems are live, whatever the frame brings in.
pub proof fn lemma_spawning_preserves_wf(state: GameView, input: FrameInput)
    requires
        view_wf(state),
    ensures
        view_wf(after_spawning(state, input).state),
{
    if state.phase == Phase::InGame {
        let rising = input.fire_pressed && !state.fire_held;
        let paid = if rising {
            fire_step(state.world).world
        } else {
            state.world
        };
        let requests = if rising {
            fire_step(state.world).requests
        } else {
            Seq::<SpawnMinionRequest>::empty()
        };
        let start = PlacingState { world: paid, next_id: state.next_id, placed: Seq::empty() };
        let placed = place_fold(start, requests);
        let timer_fired = fires_after(
            state.gem_period as int,
            state.gem_elapsed as int,
            input.delta_ns as int,
        );
        lemma_fire_keeps_kinds(state.world, Kind::Player);
        lemma_fire_keeps_kinds(state.world, Kind::Enemy);
        lemma_fire_keeps_kinds(state.world, Kind::ManaGem);
        lemma_placing_adds_minions(start, requests);
        lemma_gem_attempt_keeps_others(placed.world, placed.next_id, timer_fired, Kind::Player);
        lemma_gem_attempt_keeps_others(placed.world, placed.next_id, timer_fired, Kind::Enemy);
        lemma_gem_count_ceiling(placed.world, placed.next_id, timer_fired);
        if state.gem_period > 0 {
            assert((state.gem_elapsed + input.delta_ns) % (state.gem_period as int)
                < state.gem_period) by (nonlinear_arith)
                requires
                    state.gem_period > 0,
            ;
        }
    }
}

/// The resolution of a frame's collisions keeps the context well formed:
/// pools stay within their bounds, a round that goes on keeps its one
/// player and its one enemy, and a round that ends leaves no entity behind.
pub proof fn lemma_contacts_preserve_wf(state: GameView, pairs: Seq<CollisionPair>)
    requires
        view_wf(state),
    ensures
        view_wf(after_contacts(state, pairs).state),
{
    if state.phase == Phase::InGame {
        let hits = damages_from(state.world, pairs);
        let gains = gains_from(state.world, pairs);
        let combat = damage_fold(combat_start(state.world), hits);
        let economy = mana_fold(economy_start(combat.world), gains);
        lemma_empty_world();
        lemma_gains_name_gems(state.world, pairs);
        lemma_despawned_once(state.world, hits);
        lemma_combat_keeps_bounds(state.world, hits);
        lemma_gems_collected_once(combat.world, gains);
        lemma_mana_only_grows_within_bounds(combat.world, gains);
        lemma_shrunk_counts(combat.world, state.world, Kind::ManaGem);
        lemma_shrunk_counts(economy.world, combat.world, Kind::ManaGem);
        if combat.result == GameResult::Undecided {
            lemma_undecided_pass_spares_fighters(state.world, hits);
            lemma_pickups_take_only_gems(combat.world, gains);
        }
    }
}

/// One step of the loop that drives the context.
pub enum Step {
    /// A signal for the phase machine.
    Signal(Signal),
    /// The spawn step of a frame.
    Spawn(FrameInput),
    /// The resolution of a frame's collisions.
    Contacts(Seq<CollisionPair>),
}

/// The context after one step.
pub open spec fn after_step(state: GameView, step: Step) -> GameView {
    match step {
        Step::Signal(signal) => after_signal(state, signal),
        Step::Spawn(input) => after_spawning(state, input).state,
        Step::Contacts(pairs) => after_contacts(state, pairs).state,
    }
}

/// The context after a sequence of steps, taken in order.
pub open spec fn after_steps(state: GameView, steps: Seq<Step>) -> GameView
    decreases steps.len(),
{
    if steps.len() == 0 {
        state
    } else {
        after_step(after_steps(state, steps.drop_last()), steps.last())
    }
}

/// The context is always well formed. Whatever signals, inputs, and
/// collisions arrive, in whatever order, every health and mana pool is within
/// `0..=max`, no more than `GEM_CAP + 1` gems are live, a round in progress
/// has exactly one player and exactly one enemy, and outside a round no
/// entity is live.
pub proof fn lemma_game_is_always_wf(steps: Seq<Step>)
    ensures
        view_wf(after_steps(game_start(), steps)),
    decreases steps.len(),
{
    if steps.len() == 0 {
        lemma_empty_world();
    } else {
        lemma_game_is_always_wf(steps.drop_last());
        let before = after_steps(game_start(), steps.drop_last());
        match steps.last() {
            Step::Signal(signal) => lemma_signal_preserves_wf(before, signal),
            Step::Spawn(input) => lemma_spawning_preserves_wf(before, input),
            Step::Contacts(pairs) => lemma_contacts_preserve_wf(before, pairs),
        }
    }
}

/// Within a frame nothing is despawned twice: the resolution of a frame's
/// collisions never reports the same entity more than once, whether combat
/// or a pickup removed it, and none of those it reports is live afterwards.
pub proof fn lemma_frame_despawns_once(state: GameView, pairs: Seq<CollisionPair>)
    ensures
        after_contacts(state, pairs).despawned.no_duplicates(),
        forall|k: int|
            0 <= k < after_contacts(state, pairs).despawned.len() ==> {
                let id = #[trigger] after_contacts(state, pairs).despawned[k];
                &&& state.world.contains_key(id)
                &&& !after_contacts(state, pairs).state.world.contains_key(id)
            },
{
    if state.phase == Phase::InGame {
        let hits = damages_from(state.world, pairs);
        let gains = gains_from(state.world, pairs);
        let combat = damage_fold(combat_start(state.world), hits);
        let economy = mana_fold(economy_start(combat.world), gains);
        lemma_despawned_once(state.world, hits);
        lemma_gems_collected_once(combat.world, gains);
        let all = combat.despawned + economy.despawned;
        assert forall|i: int, j: int|
            0 <= i < all.len() && 0 <= j < all.len() && i != j implies all[i] != all[j] by {
            let n = combat.despawned.len() as int;
            if i < n && j < n {
                assert(combat.despawned[i] != combat.despawned[j]);
            } else if i >= n && j >= n {
                assert(economy.despawned[i - n] != economy.despawned[j - n]);
            } else if i < n {
                assert(!combat.world.contains_key(combat.despawned[i]));
                assert(combat.world.contains_key(economy.despawned[j - n]));
            } else {
                assert(!combat.world.contains_key(combat.despawned[j]));
                assert(combat.world.contains_key(economy.despawned[i - n]));
            }
        }
        assert forall|k: int| 0 <= k < all.len() implies {
            let id = #[trigger] all[k];
            &&& state.world.contains_key(id)
            &&& !after_contacts(state, pairs).state.world.contains_key(id)
        } by {
            let n = combat.despawned.len() as int;
            if k < n {
                assert(!combat.world.contains_key(combat.despawned[k]));
            } else {
                assert(combat.world.contains_key(economy.despawned[k - n]));
                assert(!economy.world.contains_key(economy.despawned[k - n]));
            }
        }
    }
}

} // verus!
