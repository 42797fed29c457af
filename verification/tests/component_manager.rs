use archetype_ecs::component_manager::ComponentManager;
use archetype_ecs::ecs::EntityComponentSystem;
use archetype_ecs::entity_manager::Entity;
use std::any::TypeId;

#[test]
fn test_add_component() {
    let mut component_manager = ComponentManager::new();
    let entity_one = Entity::from(1);
    struct One {}
    struct Two {}
    struct Three {}
    component_manager
        .register_component::<One>()
        .register_component::<Two>()
        .register_component::<Three>();
    component_manager.register_component::<i32>();
    component_manager
        .add_component_to_entity(entity_one, One {})
        .add_component_to_entity(entity_one, Two {});
    assert_eq!(component_manager.registered_components().len(), 4);
    assert_eq!(component_manager.components_of_entity(entity_one).len(), 2);
    assert_eq!(component_manager.contain_component::<One>(), true);
    assert_eq!(component_manager.contain_component::<Two>(), true);
    assert_eq!(component_manager.contain_component::<Three>(), true);
    assert_eq!(component_manager.contains_entity(entity_one), true);
}

#[test]
fn test_contain_entity() {
    let mut component_manager = ComponentManager::new();
    let entity_one = Entity::from(1);
    struct One {}
    struct Two {}
    struct Three {}
    component_manager
        .register_component::<One>()
        .register_component::<Two>()
        .register_component::<Three>();
    component_manager
        .add_component_to_entity(entity_one, One {})
        .add_component_to_entity(entity_one, Two {});
    assert_eq!(component_manager.num_entities_with_components(), 1);
    assert_eq!(component_manager.len_of_component(), 3);
    assert_eq!(component_manager.contains_entity(entity_one), true);
    component_manager.remove_entity(entity_one);
    assert_eq!(component_manager.contains_entity(entity_one), false);
}

#[test]
fn test_remove_component() {
    let mut component_manager = ComponentManager::new();
    let entity_one = Entity::from(1);
    struct One {}
    struct Two {}
    struct Three {}
    component_manager
        .register_component::<One>()
        .register_component::<Two>()
        .register_component::<Three>();
    component_manager.add_component_to_entity(entity_one, One {});
    assert_eq!(component_manager.has_component::<One>(entity_one), true);
    component_manager.remove_component_from_entity::<One>(entity_one);
    assert_eq!(component_manager.has_component::<One>(entity_one), false);
}

#[test]
fn test_create_entity_with_component() {}

#[test]
fn a_component_of_an_unregistered_type_is_not_added() {
    let mut manager = ComponentManager::new();
    manager.add_component_to_entity(Entity(3), 5u8);
    assert!(!manager.has_component::<u8>(Entity(3)));
    assert!(!manager.contains_entity(Entity(3)));
    assert!(!manager.contain_component::<u8>());
    assert_eq!(manager.len_of_component(), 0);
    assert_eq!(manager.num_entities_with_components(), 0);
}

#[test]
fn a_second_component_of_a_type_is_not_added() {
    let mut manager = ComponentManager::default();
    manager.register_component::<u8>();
    manager.register_component::<u8>();
    assert_eq!(manager.len_of_component(), 1);
    manager.add_component_to_entity(Entity(3), 5u8).add_component_to_entity(Entity(3), 6u8);
    assert_eq!(manager.components_of_entity(Entity(3)), vec![TypeId::of::<u8>()]);
    assert_eq!(manager.registered_components(), vec![TypeId::of::<u8>()]);
}

#[test]
fn removing_a_type_takes_it_from_every_entity() {
    let mut manager = ComponentManager::new();
    manager.register_component::<u8>().register_component::<bool>();
    manager
        .add_component_to_entity(Entity(1), 1u8)
        .add_component_to_entity(Entity(1), true)
        .add_component_to_entity(Entity(2), 2u8)
        .add_component_to_entity(Entity(2), false);
    assert_eq!(manager.num_entities_with_components(), 2);
    manager.remove_component_from_entity::<u8>(Entity(1));
    assert!(!manager.has_component::<u8>(Entity(1)));
    assert!(!manager.has_component::<u8>(Entity(2)));
    assert!(manager.has_component::<bool>(Entity(1)));
    assert!(manager.has_component::<bool>(Entity(2)));
    // The type stays registered.
    assert!(manager.contain_component::<u8>());
}

#[test]
fn removing_a_type_through_an_entity_without_components_changes_nothing() {
    let mut manager = ComponentManager::new();
    manager.register_component::<u8>();
    manager.add_component_to_entity(Entity(1), 1u8);
    manager.remove_component_from_entity::<u8>(Entity(9));
    assert!(manager.has_component::<u8>(Entity(1)));
}

#[test]
fn removing_an_entity_leaves_the_others() {
    let mut manager = ComponentManager::new();
    manager.register_component::<u8>().register_component::<bool>();
    manager
        .add_component_to_entity(Entity(1), 1u8)
        .add_component_to_entity(Entity(1), true)
        .add_component_to_entity(Entity(2), 2u8);
    manager.remove_entity(1u32);
    assert!(!manager.contains_entity(Entity(1)));
    assert!(manager.contains_entity(Entity(2)));
    assert_eq!(manager.components_of_entity(Entity(1)).len(), 0);
    assert_eq!(manager.components_of_entity(Entity(2)), vec![TypeId::of::<u8>()]);
    assert_eq!(manager.num_entities_with_components(), 1);
}

#[test]
fn erased_operations_of_the_manager() {
    let mut manager = ComponentManager::new();
    let number = TypeId::of::<u8>();
    let flag = TypeId::of::<bool>();
    manager.register(number);
    assert!(manager.contains_type(&number));
    assert!(!manager.contains_type(&flag));
    manager.add_component_to_entity(Entity(4), 7u8);
    assert!(manager.has(Entity(4), &number));
    assert!(!manager.has(Entity(4), &flag));
    assert!(!manager.has(Entity(5), &number));
    manager.remove_type(Entity(4), &flag);
    assert!(manager.has(Entity(4), &number));
    manager.remove_type(Entity(4), &number);
    assert!(!manager.has(Entity(4), &number));
    manager.add_component_to_entity(Entity(4), 7u8);
    manager.remove_all(Entity(4));
    assert!(!manager.contains_entity(Entity(4)));
}

#[test]
fn the_system_numbers_the_entities_it_creates() {
    let mut system = EntityComponentSystem::new();
    system.component_manager_mut().register_component::<u8>();
    let first = system.create_entity().with("size", 5u8).with("flag", true).build();
    let second = system.create_entity().build();
    assert_eq!(first, Entity(0));
    assert_eq!(second, Entity(1));
    assert_eq!(system.entity_manager().entities, vec![Entity(0), Entity(1)]);
    assert_eq!(system.entity_manager().num_of_entities, 2);
    // `u8` is registered, `bool` is not.
    assert_eq!(system.component_manager().components_of_entity(first), vec![TypeId::of::<u8>()]);
    assert!(!system.component_manager().contains_entity(second));
    system.entity_manager_mut().remove(first);
    assert_eq!(system.entity_manager().entities, vec![Entity(1)]);
    let fresh = EntityComponentSystem::default();
    assert_eq!(fresh.entity_manager().num_of_entities, 0);
    assert_eq!(fresh.component_manager().len_of_component(), 0);
}

#[test]
fn a_builder_that_is_dropped_uses_up_its_number() {
    let mut system = EntityComponentSystem::new();
    let builder = system.create_entity();
    assert_eq!(builder.entity, Entity(0));
    drop(builder);
    assert_eq!(system.create_entity().build(), Entity(1));
    assert_eq!(system.entity_manager().entities, vec![Entity(0)]);
}
