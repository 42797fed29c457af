use archetype_ecs::archetype::Archetype;
use archetype_ecs::bundle::Bundle;
use archetype_ecs::component::ComponentStore;
use archetype_ecs::error::ComponentError;
use archetype_ecs::error::EntityMissingComponent;
use archetype_ecs::error::NoSuchEntity;
use archetype_ecs::registry::TypeRegistry;
use archetype_ecs::shape::calculate_bundle_id;
use archetype_ecs::shape::search;
use archetype_ecs::text::append_decimal;
use archetype_ecs::world::index_twice;
use std::any::TypeId;
use std::hash::Hasher;

#[test]
fn search_finds_positions() {
    let types = [2usize, 5, 9];
    assert_eq!(search(&types, 2), Ok(0));
    assert_eq!(search(&types, 5), Ok(1));
    assert_eq!(search(&types, 9), Ok(2));
    assert_eq!(search(&types, 0), Err(0));
    assert_eq!(search(&types, 3), Err(1));
    assert_eq!(search(&types, 7), Err(2));
    assert_eq!(search(&types, 10), Err(3));
    assert_eq!(search(&[], 4), Err(0));
}

#[test]
fn bundle_id_depends_on_the_types_and_their_order_only() {
    assert_eq!(calculate_bundle_id(&[1, 2, 3]), calculate_bundle_id(&[1, 2, 3]));
    assert_ne!(calculate_bundle_id(&[1, 2, 3]), calculate_bundle_id(&[1, 2, 4]));
    assert_ne!(calculate_bundle_id(&[1, 2]), calculate_bundle_id(&[2, 1]));
    assert_ne!(calculate_bundle_id(&[]), calculate_bundle_id(&[0]));
}

#[test]
fn bundle_id_hashes_eight_bytes_per_type_low_byte_first() {
    let mut hasher = std::collections::hash_map::DefaultHasher::new();
    hasher.write(&[1, 0, 0, 0, 0, 0, 0, 0]);
    hasher.write(&[0, 1, 0, 0, 0, 0, 0, 0]);
    assert_eq!(calculate_bundle_id(&[1, 256]), hasher.finish());
}

#[test]
fn index_twice_borrows_two_elements() {
    let mut numbers = vec![10, 20, 30, 40];
    {
        let (a, b) = index_twice(&mut numbers, 1, 3);
        assert_eq!((*a, *b), (20, 40));
        *a += 1;
        *b += 2;
    }
    {
        let (a, b) = index_twice(&mut numbers, 2, 0);
        assert_eq!((*a, *b), (30, 10));
        *a = 0;
        *b = 5;
    }
    assert_eq!(numbers, vec![5, 21, 0, 42]);
}

#[test]
fn registry_hands_out_ids_in_order_of_first_use() {
    let mut registry = TypeRegistry::new();
    assert_eq!(registry.len(), 0);
    assert_eq!(registry.lookup(&TypeId::of::<u8>()), None);
    assert_eq!(registry.register(TypeId::of::<u8>()), 0);
    assert_eq!(registry.register(TypeId::of::<bool>()), 1);
    assert_eq!(registry.register(TypeId::of::<u8>()), 0);
    assert_eq!(registry.register(TypeId::of::<String>()), 2);
    assert_eq!(registry.len(), 3);
    assert_eq!(registry.lookup(&TypeId::of::<bool>()), Some(1));
    assert_eq!(registry.lookup(&TypeId::of::<char>()), None);
}

#[test]
fn empty_archetype_has_the_columns_of_its_shape() {
    let archetype = Archetype::with_shape(&[3, 8]);
    assert_eq!(archetype.len(), 0);
    assert_eq!(archetype.column_count(), 2);
    assert_eq!(archetype.type_ids(), vec![3, 8]);
    assert!(archetype.has_shape(&[3, 8]));
    assert!(!archetype.has_shape(&[3]));
    assert!(!archetype.has_shape(&[3, 9]));
    assert_eq!(archetype.find_column(8), Ok(1));
    assert_eq!(archetype.find_column(4), Err(1));
    assert_eq!(archetype.get(1).type_id(), 8);
    assert_eq!(archetype.get(0).len(), 0);
    let none = Archetype::new();
    assert_eq!(none.column_count(), 0);
    assert_eq!(none.len(), 0);
}

#[test]
fn empty_column_and_bundle() {
    let store = ComponentStore::new(4);
    assert_eq!(store.type_id(), 4);
    assert_eq!(store.len(), 0);
    let same = store.new_same_type();
    assert_eq!(same.type_id(), 4);
    assert_eq!(same.len(), 0);
    let bundle = Bundle::new();
    assert_eq!(bundle.len(), 0);
    assert!(bundle.type_ids().is_empty());
}

#[test]
fn messages() {
    assert_eq!(
        NoSuchEntity.message(),
        "The entity no longer exists so the operation cannot be performed"
    );
    let missing = EntityMissingComponent::new::<bool>(3);
    assert_eq!(missing.entity_index(), 3);
    assert_eq!(missing.component_type(), TypeId::of::<bool>());
    assert_eq!(missing.message("bool"), "Entity 3 does not have a [bool] component");
    assert_eq!(
        EntityMissingComponent::new::<u8>(4096).message("u8"),
        "Entity 4096 does not have a [u8] component"
    );
    assert_eq!(
        ComponentError::EntityMissingComponent(EntityMissingComponent::new::<u8>(0)).message("u8"),
        "Entity 0 does not have a [u8] component"
    );
    assert_eq!(
        ComponentError::NoSuchEntity(NoSuchEntity).message("u8"),
        "The entity no longer exists so the operation cannot be performed"
    );
}

#[test]
fn errors_of_the_world_name_the_entity_in_their_message() {
    struct Move;
    let mut world = archetype_ecs::world::World::new();
    let first = world.spawn((21i32, true));
    let second = world.spawn((21i32, true));
    world.add_component(first, 9u8).unwrap();
    // `second` now sits in row 0; its index is still 1.
    assert_eq!(world.location(second).unwrap().index_in_archetype, 0);
    match world.get_component_mut::<Move>(second) {
        Err(error) => {
            assert_eq!(error.message("Move"), "Entity 1 does not have a [Move] component")
        }
        Ok(_) => panic!("the entity has no Move"),
    }
    match world.remove_component::<u8>(second) {
        Err(error) => assert_eq!(error.message("u8"), "Entity 1 does not have a [u8] component"),
        Ok(_) => panic!("the entity has no u8"),
    }
    assert_eq!(world.location(second).unwrap().index_in_archetype, 0);
    assert_eq!(*world.get_component_mut::<i32>(second).unwrap(), 21);
}

#[test]
fn decimal_numerals() {
    let cases: [(u32, &str); 8] = [
        (0, "0"),
        (7, "7"),
        (10, "10"),
        (99, "99"),
        (100, "100"),
        (12345, "12345"),
        (1000000000, "1000000000"),
        (u32::MAX, "4294967295"),
    ];
    for (n, expected) in cases {
        let mut text = String::from("n=");
        append_decimal(&mut text, n);
        assert_eq!(text, format!("n={}", expected));
    }
}
