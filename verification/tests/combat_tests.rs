use ld55_summoning::combat::{apply_damage, resolve_damage, CombatReport};
use ld55_summoning::entity::Entity;
use ld55_summoning::events::{AudioCue, DamageEvent};
use ld55_summoning::phase::GameResult;
use ld55_summoning::registry::Registry;
use ld55_summoning::vitals::{Health, Mana};

fn hit(giver: u64, receiver: u64, amount: u32) -> DamageEvent {
    DamageEvent { giver, receiver, amount }
}

fn spawn_player(registry: &mut Registry, health: u32) -> u64 {
    registry.spawn(Entity::Player { health: Health::full(health), mana: Mana::filled(50) }).unwrap()
}

fn spawn_enemy(registry: &mut Registry, health: u32) -> u64 {
    registry.spawn(Entity::Enemy { health: Health::full(health), damage: 15 }).unwrap()
}

fn spawn_minion(registry: &mut Registry) -> u64 {
    registry.spawn(Entity::Minion { damage: 20 }).unwrap()
}

#[test]
fn overkill_damage_destroys_the_player_and_loses_the_round() {
    let mut registry = Registry::new();
    let player = spawn_player(&mut registry, 10);
    let enemy = spawn_enemy(&mut registry, 500);
    let report = resolve_damage(&mut registry, &vec![hit(enemy, player, 15)]);
    assert!(!registry.contains(player));
    assert_eq!(registry.health(player), None);
    assert!(registry.contains(enemy));
    assert_eq!(report.despawned, vec![player]);
    assert_eq!(report.cues, vec![AudioCue::PlayerDeath]);
    assert_eq!(report.result, GameResult::Lose);
}

#[test]
fn the_enemy_reaching_zero_health_wins_the_round() {
    let mut registry = Registry::new();
    let player = spawn_player(&mut registry, 10);
    let enemy = spawn_enemy(&mut registry, 40);
    let label = registry.spawn_child(Entity::Label, enemy).unwrap();
    let first = spawn_minion(&mut registry);
    let second = spawn_minion(&mut registry);
    let report =
        resolve_damage(&mut registry, &vec![hit(first, enemy, 20), hit(second, enemy, 20)]);
    assert!(!registry.contains(enemy));
    assert!(!registry.contains(label));
    assert!(registry.contains(player));
    assert_eq!(report.despawned, vec![first, second, enemy]);
    assert_eq!(
        report.cues,
        vec![AudioCue::MinionExplosion, AudioCue::MinionExplosion, AudioCue::EnemyDeath]
    );
    assert_eq!(report.result, GameResult::Win);
}

#[test]
fn damage_short_of_the_health_only_lowers_it() {
    let mut registry = Registry::new();
    let enemy = spawn_enemy(&mut registry, 500);
    let minion = spawn_minion(&mut registry);
    let report = resolve_damage(&mut registry, &vec![hit(minion, enemy, 20)]);
    assert_eq!(registry.health(enemy), Some(Health { current: 480, max: 500 }));
    assert_eq!(report.despawned, vec![minion]);
    assert_eq!(report.cues, vec![AudioCue::MinionExplosion]);
    assert_eq!(report.result, GameResult::Undecided);
}

#[test]
fn a_giver_that_is_no_minion_stays() {
    let mut registry = Registry::new();
    let player = spawn_player(&mut registry, 100);
    let enemy = spawn_enemy(&mut registry, 500);
    let report = resolve_damage(&mut registry, &vec![hit(enemy, player, 15)]);
    assert!(registry.contains(enemy));
    assert_eq!(registry.health(player), Some(Health { current: 85, max: 100 }));
    assert!(report.despawned.is_empty());
    assert!(report.cues.is_empty());
}

#[test]
fn a_minion_detonates_even_when_the_receiver_is_gone() {
    let mut registry = Registry::new();
    let minion = spawn_minion(&mut registry);
    let report = resolve_damage(&mut registry, &vec![hit(minion, 999, 20)]);
    assert!(!registry.contains(minion));
    assert_eq!(report.despawned, vec![minion]);
    assert_eq!(report.cues, vec![AudioCue::MinionExplosion]);
    assert_eq!(report.result, GameResult::Undecided);
}

#[test]
fn a_minion_named_by_several_events_is_despawned_once() {
    let mut registry = Registry::new();
    let enemy = spawn_enemy(&mut registry, 500);
    let minion = spawn_minion(&mut registry);
    let events = vec![hit(minion, enemy, 20), hit(minion, enemy, 20), hit(minion, 999, 20)];
    let report = resolve_damage(&mut registry, &events);
    assert_eq!(report.despawned, vec![minion]);
    assert_eq!(report.cues, vec![AudioCue::MinionExplosion]);
    assert_eq!(registry.health(enemy), Some(Health { current: 460, max: 500 }));
}

#[test]
fn events_aimed_at_something_without_health_are_dropped() {
    let mut registry = Registry::new();
    let enemy = spawn_enemy(&mut registry, 500);
    let minion = spawn_minion(&mut registry);
    let gem = registry.spawn(Entity::ManaGem { value: 10 }).unwrap();
    let report = resolve_damage(&mut registry, &vec![hit(enemy, minion, 15), hit(enemy, gem, 15)]);
    assert!(registry.contains(minion));
    assert!(registry.contains(gem));
    assert!(report.despawned.is_empty());
    assert_eq!(report.result, GameResult::Undecided);
}

#[test]
fn events_after_a_death_find_the_receiver_gone() {
    let mut registry = Registry::new();
    let player = spawn_player(&mut registry, 10);
    let enemy = spawn_enemy(&mut registry, 500);
    let events = vec![hit(enemy, player, 15), hit(enemy, player, 15)];
    let report = resolve_damage(&mut registry, &events);
    assert_eq!(report.despawned, vec![player]);
    assert_eq!(report.cues, vec![AudioCue::PlayerDeath]);
}

#[test]
fn health_is_clamped_after_every_event() {
    let mut registry = Registry::new();
    let player = spawn_player(&mut registry, 30);
    let enemy = spawn_enemy(&mut registry, 500);
    let mut report = CombatReport::new();
    let mut seen = Vec::new();
    for amount in [12u32, 12, 12] {
        apply_damage(&mut registry, &mut report, hit(enemy, player, amount));
        seen.push(registry.health(player).map(|health| health.current));
    }
    assert_eq!(seen, vec![Some(18), Some(6), None]);
    assert_eq!(report.result, GameResult::Lose);
    assert_eq!(report.despawned, vec![player]);
}

#[test]
fn the_last_death_of_a_pass_decides_the_round() {
    let mut registry = Registry::new();
    let player = spawn_player(&mut registry, 10);
    let enemy = spawn_enemy(&mut registry, 20);
    let minion = spawn_minion(&mut registry);
    let events = vec![hit(enemy, player, 15), hit(minion, enemy, 20)];
    let report = resolve_damage(&mut registry, &events);
    assert_eq!(report.despawned, vec![player, minion, enemy]);
    assert_eq!(
        report.cues,
        vec![AudioCue::PlayerDeath, AudioCue::MinionExplosion, AudioCue::EnemyDeath]
    );
    assert_eq!(report.result, GameResult::Win);
    assert_eq!(registry.len(), 0);
}

#[test]
fn an_empty_queue_changes_nothing() {
    let mut registry = Registry::new();
    let player = spawn_player(&mut registry, 10);
    let report = resolve_damage(&mut registry, &Vec::new());
    assert_eq!(registry.health(player), Some(Health::full(10)));
    assert!(report.despawned.is_empty());
    assert!(report.cues.is_empty());
    assert_eq!(report.result, GameResult::Undecided);
}

#[test]
fn zero_damage_on_a_living_receiver_changes_nothing() {
    let mut registry = Registry::new();
    let player = spawn_player(&mut registry, 10);
    let report = resolve_damage(&mut registry, &vec![hit(999, player, 0)]);
    assert_eq!(registry.health(player), Some(Health::full(10)));
    assert_eq!(report.result, GameResult::Undecided);
}
