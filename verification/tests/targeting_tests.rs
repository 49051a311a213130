use ld55_summoning::entity::{Entity, Kind};
use ld55_summoning::registry::Registry;
use ld55_summoning::targeting::chase_target;
use ld55_summoning::vitals::{Health, Mana};

#[test]
fn enemies_chase_the_player_and_minions_chase_the_enemy() {
    let mut registry = Registry::new();
    let player = registry
        .spawn(Entity::Player { health: Health::full(10), mana: Mana::filled(50) })
        .unwrap();
    let enemy = registry.spawn(Entity::Enemy { health: Health::full(500), damage: 15 }).unwrap();
    registry.spawn(Entity::Minion { damage: 20 });
    assert_eq!(chase_target(&registry, Kind::Enemy), Some(player));
    assert_eq!(chase_target(&registry, Kind::Minion), Some(enemy));
}

#[test]
fn nothing_else_chases_anything() {
    let mut registry = Registry::new();
    registry.spawn(Entity::Player { health: Health::full(10), mana: Mana::filled(50) });
    registry.spawn(Entity::Enemy { health: Health::full(500), damage: 15 });
    assert_eq!(chase_target(&registry, Kind::Player), None);
    assert_eq!(chase_target(&registry, Kind::ManaGem), None);
    assert_eq!(chase_target(&registry, Kind::Label), None);
}

#[test]
fn chasers_stand_down_without_a_target() {
    let mut registry = Registry::new();
    registry.spawn(Entity::Minion { damage: 20 });
    assert_eq!(chase_target(&registry, Kind::Enemy), None);
    assert_eq!(chase_target(&registry, Kind::Minion), None);
}
