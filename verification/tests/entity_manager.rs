use archetype_ecs::entity_manager::Entity;
use archetype_ecs::entity_manager::EntityManager;

#[test]
fn test_entity_from() {
    let entity = Entity::from(2);
    assert_eq!(entity.0, 2);

    let entity = Entity::from(5);
    assert_eq!(entity.0, 5);
}

#[test]
fn test_add() {
    let mut manager = EntityManager::default();
    manager.add();
    manager.add();
    assert!(manager.entities.contains(&Entity::from(0)));
    assert!(manager.entities.contains(&Entity::from(1)));
}

#[test]
fn test_remove() {
    let mut manager = EntityManager::default();
    manager.add();
    manager.remove(Entity::from(0));
    assert!(!manager.entities.contains(&Entity::from(0)));
}

#[test]
fn test_has() {
    let mut manager = EntityManager::default();
    manager.add();
    assert!(manager.has(Entity::from(0)));
}

#[test]
fn default_manager_is_empty() {
    let manager = EntityManager::default();
    assert!(manager.entities.is_empty());
    assert_eq!(manager.num_of_entities, 0);
    assert_eq!(Entity::default(), Entity(0));
}

#[test]
fn add_numbers_entities_in_order() {
    let mut manager = EntityManager::default();
    manager.add();
    manager.add();
    manager.add();
    assert_eq!(manager.entities, vec![Entity(0), Entity(1), Entity(2)]);
    assert_eq!(manager.num_of_entities, 3);
}

#[test]
fn remove_takes_first_occurrence_and_counts_down() {
    let mut manager = EntityManager::default();
    manager.add();
    manager.add();
    manager.add();
    manager.remove(Entity(1));
    assert_eq!(manager.entities, vec![Entity(0), Entity(2)]);
    assert_eq!(manager.num_of_entities, 2);
}

#[test]
fn remove_of_absent_entity_keeps_list_but_counts_down() {
    let mut manager = EntityManager::default();
    manager.add();
    manager.add();
    manager.remove(Entity(7));
    assert_eq!(manager.entities, vec![Entity(0), Entity(1)]);
    assert_eq!(manager.num_of_entities, 1);
}

#[test]
fn remove_accepts_a_number() {
    let mut manager = EntityManager::default();
    manager.add();
    manager.add();
    manager.remove(0u32);
    assert_eq!(manager.entities, vec![Entity(1)]);
}

#[test]
fn has_is_false_for_an_entity_not_in_use() {
    let mut manager = EntityManager::default();
    manager.add();
    assert!(!manager.has(Entity::from(1)));
}

#[test]
fn remove_entity_and_has_entity_take_the_entity_itself() {
    let mut manager = EntityManager::default();
    manager.add();
    manager.add();
    assert!(manager.has_entity(Entity(0)));
    assert!(!manager.has_entity(Entity(2)));
    manager.remove_entity(Entity(0));
    assert_eq!(manager.entities, vec![Entity(1)]);
    assert_eq!(manager.num_of_entities, 1);
    manager.remove_entity(Entity(1));
    assert!(manager.entities.is_empty());
    assert_eq!(manager.num_of_entities, 0);
}
