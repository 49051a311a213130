use ld55_summoning::collision::{resolve_collisions, resolve_pair};
use ld55_summoning::entity::{Entity, NO_ENTITY};
use ld55_summoning::events::{CollisionPair, DamageEvent, ManaGainEvent};
use ld55_summoning::registry::Registry;
use ld55_summoning::vitals::{Health, Mana};

struct Arena {
    registry: Registry,
    player: u64,
    enemy: u64,
    minion_a: u64,
    minion_b: u64,
    gem: u64,
}

fn arena() -> Arena {
    let mut registry = Registry::new();
    let player = registry
        .spawn(Entity::Player { health: Health::full(10), mana: Mana::filled(50) })
        .unwrap();
    let enemy = registry.spawn(Entity::Enemy { health: Health::full(500), damage: 15 }).unwrap();
    let minion_a = registry.spawn(Entity::Minion { damage: 20 }).unwrap();
    let minion_b = registry.spawn(Entity::Minion { damage: 20 }).unwrap();
    let gem = registry.spawn(Entity::ManaGem { value: 10 }).unwrap();
    Arena { registry, player, enemy, minion_a, minion_b, gem }
}

fn pair(first: u64, second: u64) -> CollisionPair {
    CollisionPair { first, second }
}

#[test]
fn an_enemy_touching_the_player_deals_its_damage() {
    let a = arena();
    let (gain, damage) = resolve_pair(&a.registry, pair(a.enemy, a.player));
    assert_eq!(gain, None);
    assert_eq!(damage, Some(DamageEvent { giver: a.enemy, receiver: a.player, amount: 15 }));
}

#[test]
fn a_minion_touching_the_enemy_deals_its_damage() {
    let a = arena();
    let (_, damage) = resolve_pair(&a.registry, pair(a.minion_a, a.enemy));
    assert_eq!(damage, Some(DamageEvent { giver: a.minion_a, receiver: a.enemy, amount: 20 }));
}

#[test]
fn two_minions_never_damage_each_other() {
    let a = arena();
    assert_eq!(resolve_pair(&a.registry, pair(a.minion_a, a.minion_b)), (None, None));
    assert_eq!(resolve_pair(&a.registry, pair(a.minion_b, a.minion_a)), (None, None));
    assert_eq!(resolve_pair(&a.registry, pair(a.minion_a, a.minion_a)), (None, None));
}

#[test]
fn an_entity_without_damage_emits_no_damage_event() {
    let a = arena();
    assert_eq!(resolve_pair(&a.registry, pair(a.player, a.enemy)), (None, None));
    assert_eq!(resolve_pair(&a.registry, pair(a.gem, a.player)), (None, None));
}

#[test]
fn a_zero_damage_attribute_deals_no_damage() {
    let mut registry = Registry::new();
    let harmless = registry.spawn(Entity::Minion { damage: 0 }).unwrap();
    let target = registry.spawn(Entity::Enemy { health: Health::full(5), damage: 0 }).unwrap();
    assert_eq!(resolve_pair(&registry, pair(harmless, target)), (None, None));
    assert_eq!(resolve_pair(&registry, pair(target, harmless)), (None, None));
}

#[test]
fn a_gem_in_second_place_grants_its_value_to_the_first() {
    let a = arena();
    let (gain, damage) = resolve_pair(&a.registry, pair(a.player, a.gem));
    assert_eq!(gain, Some(ManaGainEvent { player: a.player, gem: a.gem, amount: 10 }));
    assert_eq!(damage, None);
}

#[test]
fn the_order_within_a_pair_matters() {
    let a = arena();
    let (gain, _) = resolve_pair(&a.registry, pair(a.gem, a.player));
    assert_eq!(gain, None);
    let (_, damage) = resolve_pair(&a.registry, pair(a.player, a.enemy));
    assert_eq!(damage, None);
}

#[test]
fn one_pair_can_yield_both_events() {
    let a = arena();
    let (gain, damage) = resolve_pair(&a.registry, pair(a.enemy, a.gem));
    assert_eq!(gain, Some(ManaGainEvent { player: a.enemy, gem: a.gem, amount: 10 }));
    assert_eq!(damage, Some(DamageEvent { giver: a.enemy, receiver: a.gem, amount: 15 }));
}

#[test]
fn a_minion_touching_something_unknown_still_deals_damage() {
    let a = arena();
    let (gain, damage) = resolve_pair(&a.registry, pair(a.minion_a, 999));
    assert_eq!(gain, None);
    assert_eq!(damage, Some(DamageEvent { giver: a.minion_a, receiver: 999, amount: 20 }));
}

#[test]
fn an_unknown_first_entity_emits_nothing_of_its_own() {
    let a = arena();
    assert_eq!(resolve_pair(&a.registry, pair(999, a.enemy)), (None, None));
    let (gain, damage) = resolve_pair(&a.registry, pair(999, a.gem));
    assert_eq!(gain, Some(ManaGainEvent { player: 999, gem: a.gem, amount: 10 }));
    assert_eq!(damage, None);
}

#[test]
fn events_come_out_in_the_order_of_the_pairs() {
    let a = arena();
    let pairs = vec![
        pair(a.minion_a, a.enemy),
        pair(a.minion_a, a.minion_b),
        pair(a.player, a.gem),
        pair(a.enemy, a.player),
        pair(a.player, a.enemy),
        pair(a.minion_b, a.enemy),
    ];
    let events = resolve_collisions(&a.registry, &pairs);
    assert_eq!(
        events.damage,
        vec![
            DamageEvent { giver: a.minion_a, receiver: a.enemy, amount: 20 },
            DamageEvent { giver: a.enemy, receiver: a.player, amount: 15 },
            DamageEvent { giver: a.minion_b, receiver: a.enemy, amount: 20 },
        ]
    );
    assert_eq!(events.mana, vec![ManaGainEvent { player: a.player, gem: a.gem, amount: 10 }]);
}

#[test]
fn no_pairs_give_no_events() {
    let a = arena();
    let events = resolve_collisions(&a.registry, &Vec::new());
    assert!(events.damage.is_empty());
    assert!(events.mana.is_empty());
}

#[test]
fn the_handle_that_is_never_issued_names_nothing() {
    let a = arena();
    assert!(!a.registry.contains(NO_ENTITY));
    assert_eq!(resolve_pair(&a.registry, pair(NO_ENTITY, a.player)), (None, None));
    assert_eq!(resolve_pair(&a.registry, pair(a.player, NO_ENTITY)), (None, None));
    let (gain, damage) = resolve_pair(&a.registry, pair(a.enemy, NO_ENTITY));
    assert_eq!(gain, None);
    assert_eq!(damage, Some(DamageEvent { giver: a.enemy, receiver: NO_ENTITY, amount: 15 }));
}
