use ld55_summoning::entity::{Entity, Kind, Record};
use ld55_summoning::registry::Registry;
use ld55_summoning::vitals::{Health, Mana};

fn player(health: u32, mana: u32) -> Entity {
    Entity::Player { health: Health::full(health), mana: Mana::filled(mana) }
}

fn enemy(health: u32, damage: u32) -> Entity {
    Entity::Enemy { health: Health::full(health), damage }
}

#[test]
fn a_new_registry_is_empty() {
    let registry = Registry::new();
    assert_eq!(registry.len(), 0);
    assert!(!registry.contains(0));
    assert_eq!(registry.get(0), None);
    assert_eq!(registry.count(Kind::Player), 0);
    assert_eq!(registry.sole(Kind::Player), None);
}

#[test]
fn handles_are_issued_in_increasing_order() {
    let mut registry = Registry::new();
    assert_eq!(registry.spawn(player(10, 50)), Some(0));
    assert_eq!(registry.spawn(enemy(500, 15)), Some(1));
    assert_eq!(registry.spawn(Entity::Minion { damage: 20 }), Some(2));
    assert_eq!(registry.len(), 3);
}

#[test]
fn a_spawned_entity_can_be_looked_up() {
    let mut registry = Registry::new();
    let id = registry.spawn(enemy(500, 15)).unwrap();
    assert!(registry.contains(id));
    assert_eq!(registry.get(id), Some(Record { entity: enemy(500, 15), parent: None }));
    assert_eq!(registry.entity(id), Some(enemy(500, 15)));
    assert_eq!(registry.health(id), Some(Health::full(500)));
    assert_eq!(registry.mana(id), None);
    assert_eq!(registry.parent(id), None);
}

#[test]
fn an_entity_out_of_its_bounds_is_not_spawned() {
    let mut registry = Registry::new();
    let broken = Entity::Player {
        health: Health { current: 11, max: 10 },
        mana: Mana::filled(50),
    };
    assert_eq!(registry.spawn(broken), None);
    assert_eq!(registry.len(), 0);
    assert_eq!(registry.spawn(Entity::Label), Some(0));
}

#[test]
fn a_despawned_handle_is_absent_and_never_issued_again() {
    let mut registry = Registry::new();
    let first = registry.spawn(Entity::Minion { damage: 20 }).unwrap();
    assert!(registry.despawn(first));
    assert!(!registry.contains(first));
    assert_eq!(registry.entity(first), None);
    let second = registry.spawn(Entity::Minion { damage: 20 }).unwrap();
    assert_ne!(first, second);
    assert!(!registry.contains(first));
}

#[test]
fn despawning_twice_removes_once() {
    let mut registry = Registry::new();
    let keep = registry.spawn(Entity::ManaGem { value: 10 }).unwrap();
    let gone = registry.spawn(Entity::Minion { damage: 20 }).unwrap();
    assert!(registry.despawn(gone));
    assert!(!registry.despawn(gone));
    assert_eq!(registry.len(), 1);
    assert!(registry.contains(keep));
}

#[test]
fn a_child_needs_a_live_parent() {
    let mut registry = Registry::new();
    assert_eq!(registry.spawn_child(Entity::Label, 0), None);
    let parent = registry.spawn(enemy(500, 15)).unwrap();
    let label = registry.spawn_child(Entity::Label, parent).unwrap();
    assert_eq!(registry.parent(label), Some(parent));
    assert_eq!(registry.get(label), Some(Record { entity: Entity::Label, parent: Some(parent) }));
}

#[test]
fn despawning_alone_leaves_the_children() {
    let mut registry = Registry::new();
    let parent = registry.spawn(enemy(500, 15)).unwrap();
    let label = registry.spawn_child(Entity::Label, parent).unwrap();
    assert!(registry.despawn(parent));
    assert!(registry.contains(label));
    assert_eq!(registry.parent(label), Some(parent));
}

#[test]
fn despawning_the_children_leaves_the_parent() {
    let mut registry = Registry::new();
    let parent = registry.spawn(enemy(500, 15)).unwrap();
    let other = registry.spawn(player(10, 50)).unwrap();
    let first = registry.spawn_child(Entity::Label, parent).unwrap();
    let stray = registry.spawn_child(Entity::Label, other).unwrap();
    let second = registry.spawn_child(Entity::Label, parent).unwrap();
    assert_eq!(registry.despawn_children(parent), 2);
    assert!(registry.contains(parent));
    assert!(registry.contains(other));
    assert!(registry.contains(stray));
    assert!(!registry.contains(first));
    assert!(!registry.contains(second));
    assert_eq!(registry.despawn_children(parent), 0);
}

#[test]
fn despawning_a_family_takes_the_root_and_its_children() {
    let mut registry = Registry::new();
    let parent = registry.spawn(enemy(500, 15)).unwrap();
    let bystander = registry.spawn(Entity::Minion { damage: 20 }).unwrap();
    let label = registry.spawn_child(Entity::Label, parent).unwrap();
    assert!(registry.despawn_family(parent));
    assert!(!registry.contains(parent));
    assert!(!registry.contains(label));
    assert!(registry.contains(bystander));
    assert!(!registry.despawn_family(parent));
    assert_eq!(registry.len(), 1);
}

#[test]
fn pools_can_be_replaced() {
    let mut registry = Registry::new();
    let id = registry.spawn(player(10, 50)).unwrap();
    assert!(registry.set_health(id, Health { current: 4, max: 10 }));
    assert!(registry.set_mana(id, Mana { current: 5, max: 50 }));
    assert_eq!(registry.health(id), Some(Health { current: 4, max: 10 }));
    assert_eq!(registry.mana(id), Some(Mana { current: 5, max: 50 }));
    assert_eq!(registry.entity(id).map(|entity| entity.kind()), Some(Kind::Player));
}

#[test]
fn pools_are_not_replaced_where_there_are_none() {
    let mut registry = Registry::new();
    let minion = registry.spawn(Entity::Minion { damage: 20 }).unwrap();
    let foe = registry.spawn(enemy(500, 15)).unwrap();
    assert!(!registry.set_health(minion, Health::full(5)));
    assert!(!registry.set_mana(foe, Mana::filled(5)));
    assert!(!registry.set_health(99, Health::full(5)));
    assert!(!registry.set_health(foe, Health { current: 9, max: 5 }));
    assert_eq!(registry.entity(minion), Some(Entity::Minion { damage: 20 }));
    assert_eq!(registry.entity(foe), Some(enemy(500, 15)));
}

#[test]
fn entities_are_counted_by_kind() {
    let mut registry = Registry::new();
    registry.spawn(player(10, 50));
    registry.spawn(Entity::ManaGem { value: 10 });
    registry.spawn(Entity::Minion { damage: 20 });
    let gem = registry.spawn(Entity::ManaGem { value: 10 }).unwrap();
    registry.spawn(Entity::ManaGem { value: 10 });
    assert_eq!(registry.count(Kind::ManaGem), 3);
    assert_eq!(registry.count(Kind::Minion), 1);
    assert_eq!(registry.count(Kind::Enemy), 0);
    registry.despawn(gem);
    assert_eq!(registry.count(Kind::ManaGem), 2);
}

#[test]
fn the_sole_entity_of_a_kind_is_found() {
    let mut registry = Registry::new();
    registry.spawn(Entity::Minion { damage: 20 });
    let hero = registry.spawn(player(10, 50)).unwrap();
    registry.spawn(Entity::Minion { damage: 20 });
    assert_eq!(registry.sole(Kind::Player), Some(hero));
}

#[test]
fn no_sole_entity_when_there_is_none_or_more_than_one() {
    let mut registry = Registry::new();
    registry.spawn(Entity::Minion { damage: 20 });
    assert_eq!(registry.sole(Kind::Player), None);
    registry.spawn(Entity::Minion { damage: 20 });
    assert_eq!(registry.sole(Kind::Minion), None);
}

#[test]
fn clearing_removes_everything_and_restarts_the_handles() {
    let mut registry = Registry::new();
    registry.spawn(player(10, 50));
    registry.spawn(enemy(500, 15));
    registry.clear();
    assert_eq!(registry.len(), 0);
    assert!(!registry.contains(0));
    assert_eq!(registry.spawn(Entity::Label), Some(0));
}

#[test]
fn entity_attributes_follow_the_kind() {
    let hero = player(10, 50);
    assert_eq!(hero.kind(), Kind::Player);
    assert_eq!(hero.contact_damage(), 0);
    assert_eq!(hero.gem_value(), None);
    let foe = enemy(500, 15);
    assert_eq!(foe.contact_damage(), 15);
    assert_eq!(foe.mana(), None);
    let minion = Entity::Minion { damage: 20 };
    assert_eq!(minion.contact_damage(), 20);
    assert_eq!(minion.health(), None);
    let gem = Entity::ManaGem { value: 10 };
    assert_eq!(gem.gem_value(), Some(10));
    assert_eq!(gem.contact_damage(), 0);
    assert_eq!(Entity::Label.kind(), Kind::Label);
    assert_eq!(minion.with_health(Health::full(3)), minion);
    assert_eq!(foe.with_mana(Mana::filled(3)), foe);
    assert!(hero.is_valid());
}
