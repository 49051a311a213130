use ld55_summoning::entity::{Entity, Kind};
use ld55_summoning::events::{AudioCue, SpawnMinionRequest};
use ld55_summoning::registry::Registry;
use ld55_summoning::spawn::{
    attempt_gem_spawn, fire, handle_fire, spawn_minions, tick_gems, Placement, PressEdge,
    BURST_SIZE, GEM_CAP, GEM_VALUE, MINION_COST, MINION_DAMAGE,
};
use ld55_summoning::timer::GemTimer;
use ld55_summoning::vitals::{Health, Mana};

fn spawn_player(registry: &mut Registry, mana: u32) -> u64 {
    registry
        .spawn(Entity::Player { health: Health::full(10), mana: Mana { current: mana, max: 50 } })
        .unwrap()
}

fn burst() -> Vec<SpawnMinionRequest> {
    vec![SpawnMinionRequest { offset_index: 1 }, SpawnMinionRequest { offset_index: 2 }]
}

#[test]
fn the_rules_have_their_values() {
    assert_eq!(MINION_COST, 10);
    assert_eq!(BURST_SIZE, 2);
    assert_eq!(MINION_DAMAGE, 20);
    assert_eq!(GEM_CAP, 10);
    assert_eq!(GEM_VALUE, 10);
}

#[test]
fn a_press_is_seen_once_while_it_is_held() {
    let mut edge = PressEdge::new();
    let frames = [true, true, true, false, true, false, false, true];
    let seen: Vec<bool> = frames.iter().map(|pressed| edge.observe(*pressed)).collect();
    assert_eq!(seen, vec![true, false, false, false, true, false, false, true]);
}

#[test]
fn firing_with_enough_mana_pays_and_asks_for_a_burst() {
    let mut registry = Registry::new();
    let player = spawn_player(&mut registry, 50);
    let report = fire(&mut registry);
    assert_eq!(registry.mana(player), Some(Mana { current: 40, max: 50 }));
    assert_eq!(report.requests, burst());
    assert_eq!(report.cue, Some(AudioCue::MinionSpawned));
}

#[test]
fn two_bursts_are_paid_for_and_a_third_is_refused_for_want_of_mana() {
    let mut registry = Registry::new();
    let player = spawn_player(&mut registry, 50);
    assert_eq!(fire(&mut registry).requests.len(), 2);
    assert_eq!(fire(&mut registry).requests.len(), 2);
    assert_eq!(registry.mana(player), Some(Mana { current: 30, max: 50 }));
    assert!(registry.set_mana(player, Mana { current: 5, max: 50 }));
    let report = fire(&mut registry);
    assert_eq!(registry.mana(player), Some(Mana { current: 5, max: 50 }));
    assert!(report.requests.is_empty());
    assert_eq!(report.cue, Some(AudioCue::OutOfMana));
}

#[test]
fn firing_with_exactly_the_cost_empties_the_pool() {
    let mut registry = Registry::new();
    let player = spawn_player(&mut registry, 10);
    let report = fire(&mut registry);
    assert_eq!(registry.mana(player), Some(Mana { current: 0, max: 50 }));
    assert_eq!(report.requests, burst());
    let report = fire(&mut registry);
    assert!(report.requests.is_empty());
    assert_eq!(report.cue, Some(AudioCue::OutOfMana));
}

#[test]
fn firing_without_a_player_does_nothing() {
    let mut registry = Registry::new();
    registry.spawn(Entity::Minion { damage: 20 });
    let report = fire(&mut registry);
    assert!(report.requests.is_empty());
    assert_eq!(report.cue, None);
    assert_eq!(registry.len(), 1);
}

#[test]
fn firing_with_two_players_does_nothing() {
    let mut registry = Registry::new();
    let first = spawn_player(&mut registry, 50);
    let second = spawn_player(&mut registry, 50);
    let report = fire(&mut registry);
    assert!(report.requests.is_empty());
    assert_eq!(report.cue, None);
    assert_eq!(registry.mana(first), Some(Mana::filled(50)));
    assert_eq!(registry.mana(second), Some(Mana::filled(50)));
}

#[test]
fn holding_fire_for_three_frames_gives_one_burst() {
    let mut registry = Registry::new();
    let player = spawn_player(&mut registry, 15);
    let mut edge = PressEdge::new();
    let mut minions = Vec::new();
    let mut cues = Vec::new();
    for _ in 0..3 {
        let report = handle_fire(&mut registry, &mut edge, true);
        cues.push(report.cue);
        minions.extend(spawn_minions(&mut registry, &report.requests));
    }
    assert_eq!(minions.len(), 2);
    assert_eq!(cues, vec![Some(AudioCue::MinionSpawned), None, None]);
    assert_eq!(registry.count(Kind::Minion), 2);
    assert_eq!(registry.mana(player), Some(Mana { current: 5, max: 50 }));
}

#[test]
fn releasing_and_pressing_again_fires_again() {
    let mut registry = Registry::new();
    let player = spawn_player(&mut registry, 50);
    let mut edge = PressEdge::new();
    let mut bursts = 0;
    for pressed in [true, false, true, true, false, false, true] {
        if !handle_fire(&mut registry, &mut edge, pressed).requests.is_empty() {
            bursts += 1;
        }
    }
    assert_eq!(bursts, 3);
    assert_eq!(registry.mana(player), Some(Mana { current: 20, max: 50 }));
}

#[test]
fn requests_become_minions_next_to_the_player() {
    let mut registry = Registry::new();
    let player = spawn_player(&mut registry, 50);
    let placed = spawn_minions(&mut registry, &burst());
    assert_eq!(
        placed,
        vec![
            Placement { minion: 1, anchor: player, offset_index: 1 },
            Placement { minion: 2, anchor: player, offset_index: 2 },
        ]
    );
    assert_eq!(registry.entity(1), Some(Entity::Minion { damage: 20 }));
    assert_eq!(registry.entity(2), Some(Entity::Minion { damage: 20 }));
    assert_eq!(registry.parent(1), None);
}

#[test]
fn requests_without_a_player_are_dropped() {
    let mut registry = Registry::new();
    let placed = spawn_minions(&mut registry, &burst());
    assert!(placed.is_empty());
    assert_eq!(registry.len(), 0);
}

#[test]
fn no_gem_appears_unless_the_timer_fired() {
    let mut registry = Registry::new();
    assert_eq!(attempt_gem_spawn(&mut registry, false), None);
    assert_eq!(registry.count(Kind::ManaGem), 0);
}

#[test]
fn a_gem_appears_when_the_timer_fired() {
    let mut registry = Registry::new();
    let gem = attempt_gem_spawn(&mut registry, true).unwrap();
    assert_eq!(registry.entity(gem), Some(Entity::ManaGem { value: 10 }));
    assert_eq!(registry.count(Kind::ManaGem), 1);
}

#[test]
fn gems_stop_appearing_once_the_count_is_past_the_cap() {
    let mut registry = Registry::new();
    let mut counts = Vec::new();
    for _ in 0..15 {
        attempt_gem_spawn(&mut registry, true);
        counts.push(registry.count(Kind::ManaGem));
    }
    assert_eq!(counts, vec![1, 2, 3, 4, 5, 6, 7, 8, 9, 10, 11, 11, 11, 11, 11]);
}

#[test]
fn gems_below_the_cap_stay_within_it() {
    let mut registry = Registry::new();
    for _ in 0..9 {
        attempt_gem_spawn(&mut registry, true);
    }
    assert_eq!(registry.count(Kind::ManaGem), 9);
    attempt_gem_spawn(&mut registry, true);
    assert_eq!(registry.count(Kind::ManaGem), 10);
    assert!(registry.count(Kind::ManaGem) <= GEM_CAP);
}

#[test]
fn a_picked_up_gem_makes_room_for_another() {
    let mut registry = Registry::new();
    let mut last = 0;
    for _ in 0..11 {
        last = attempt_gem_spawn(&mut registry, true).unwrap();
    }
    assert_eq!(attempt_gem_spawn(&mut registry, true), None);
    registry.despawn(last);
    assert!(attempt_gem_spawn(&mut registry, true).is_some());
    assert_eq!(registry.count(Kind::ManaGem), 11);
}

#[test]
fn the_gem_timer_paces_the_spawning() {
    let mut registry = Registry::new();
    let mut timer = GemTimer::new(2_000_000_000);
    let mut spawned = Vec::new();
    for _ in 0..9 {
        spawned.push(tick_gems(&mut registry, &mut timer, 500_000_000).is_some());
    }
    assert_eq!(spawned, vec![false, false, false, true, false, false, false, true, false]);
    assert_eq!(registry.count(Kind::ManaGem), 2);
}

#[test]
fn one_long_frame_spawns_one_gem() {
    let mut registry = Registry::new();
    let mut timer = GemTimer::new(2_000_000_000);
    assert!(tick_gems(&mut registry, &mut timer, 9_000_000_000).is_some());
    assert_eq!(registry.count(Kind::ManaGem), 1);
    assert!(!tick_gems(&mut registry, &mut timer, 900_000_000).is_some());
    assert!(tick_gems(&mut registry, &mut timer, 100_000_000).is_some());
}
