use archetype_ecs::entity::Entity;
use archetype_ecs::error::ComponentError;
use archetype_ecs::error::NoSuchEntity;
use archetype_ecs::world::World;

#[test]
fn tust_world_spawn() {
    let mut world = World::new();
    let first_entity = world.spawn((true, 21));
    assert!(world.contains(first_entity));
    for _e in world.entities() {
        println!("nmsl");
    }
}

#[test]
fn test_world_spawn_entities() {
    let mut world = World::new();
    struct Name {}
    struct Move {}
    let entity_0 = world.spawn((21, true));
    let entity_1 = world.spawn((2, false));
    let entity_2 = world.spawn((2, true));
    let entity_3 = world.spawn((5, true));
    assert_eq!(world.archetype_count(), 1);
    assert_eq!(world.entity_count(), 4);
    let entity_4 = world.spawn((21, Name {}, Move {}));
    println!("{:?}", entity_0);
    println!("{:?}", entity_1);
    println!("{:?}", entity_2);
    println!("{:?}", entity_3);
    println!("{:?}", entity_4);
    println!("Num of archetypes: {}", world.archetype_count());
    println!("Num of entities: {}", world.entity_count());
    for e in world.entities() {
        println!("{:?}", e);
    }
    assert_eq!(world.archetype_count(), 2);
    assert_eq!(world.entity_count(), 5);
}

#[test]
fn test_world_add_component() {
    let mut world = World::new();
    #[derive(Debug)]
    #[allow(dead_code)]
    struct Name {
        id: u32,
        name: String,
    }
    #[derive(Debug)]
    #[allow(dead_code)]
    struct Move {
        dir: u32,
        speed: f32,
    }
    let entity_0 = world.spawn((21, true));
    println!("{:?}", entity_0);
    let name0 = world.add_component(entity_0, Name { id: 130, name: String::from("nmsl") });
    let move0 = world.add_component(entity_0, Move { dir: 130, speed: 130.0 });
    println!("{:?}", name0);
    println!("{:?}", move0);
    assert!(name0.is_ok());
    assert!(move0.is_ok());
    for e in world.entities() {
        println!("{:?}", e);
    }
    assert_eq!(world.get_component_mut::<Name>(entity_0).unwrap().id, 130);
    assert_eq!(world.get_component_mut::<Move>(entity_0).unwrap().speed, 130.0);
}

#[test]
fn spawn_hands_out_slots_in_order_with_generation_zero() {
    let mut world = World::new();
    let a = world.spawn((1u8,));
    let b = world.spawn((2u8,));
    assert_eq!(a, Entity { index: 0, generation: 0 });
    assert_eq!(b, Entity { index: 1, generation: 0 });
    assert_eq!(a.index(), 0);
    assert_eq!(b.generation(), 0);
}

#[test]
fn generations_of_a_recycled_slot_increase() {
    let mut world = World::new();
    let first = world.spawn((1u8,));
    assert_eq!(world.despawn(first), Ok(()));
    let second = world.spawn((2u8,));
    assert_eq!(second, Entity { index: 0, generation: 2 });
    assert_eq!(world.despawn(second), Ok(()));
    let third = world.spawn((3u8,));
    assert_eq!(third, Entity { index: 0, generation: 4 });
    assert!(!world.contains(first));
    assert!(!world.contains(second));
    assert!(world.contains(third));
    assert_eq!(world.despawn(first), Err(NoSuchEntity));
    assert!(matches!(
        world.get_component_mut::<u8>(second),
        Err(ComponentError::NoSuchEntity(_))
    ));
    assert_eq!(*world.get_component_mut::<u8>(third).unwrap(), 3);
}

#[test]
fn despawn_twice_fails_the_second_time() {
    let mut world = World::new();
    let entity = world.spawn((1u8, true));
    assert_eq!(world.despawn(entity), Ok(()));
    assert_eq!(world.despawn(entity), Err(NoSuchEntity));
    assert_eq!(world.entity_count(), 1);
}

#[test]
fn handle_of_a_free_slot_is_not_live() {
    let mut world = World::new();
    let entity = world.spawn((1u8,));
    world.despawn(entity).unwrap();
    // The slot now stores generation 1; a handle made up with it is dead too.
    let forged = Entity { index: 0, generation: 1 };
    assert!(!world.contains(forged));
    assert_eq!(world.despawn(forged), Err(NoSuchEntity));
    assert_eq!(world.add_component(forged, 5u16), Err(NoSuchEntity));
}

#[test]
fn handle_beyond_the_table_is_not_live() {
    let mut world = World::new();
    world.spawn((1u8,));
    let outside = Entity { index: 17, generation: 0 };
    assert!(!world.contains(outside));
    assert_eq!(world.location(outside), None);
    assert_eq!(world.despawn(outside), Err(NoSuchEntity));
    assert!(matches!(
        world.remove_component::<u8>(outside),
        Err(ComponentError::NoSuchEntity(_))
    ));
}

#[test]
fn free_slots_are_recycled_last_freed_first() {
    let mut world = World::new();
    let a = world.spawn((1u8,));
    let b = world.spawn((2u8,));
    let c = world.spawn((3u8,));
    world.despawn(a).unwrap();
    world.despawn(c).unwrap();
    let d = world.spawn((4u8,));
    let e = world.spawn((5u8,));
    let f = world.spawn((6u8,));
    assert_eq!(d.index(), c.index());
    assert_eq!(e.index(), a.index());
    assert_eq!(f.index(), 3);
    assert!(world.contains(b));
    assert_eq!(world.entity_count(), 4);
}

#[test]
fn same_types_in_another_order_share_the_archetype() {
    let mut world = World::new();
    let one = world.spawn((7i32, true));
    let two = world.spawn((false, 9i32));
    assert_eq!(world.archetype_count(), 1);
    let first = world.location(one).unwrap();
    let second = world.location(two).unwrap();
    assert_eq!(first.archetype_index, second.archetype_index);
    assert_eq!(first.index_in_archetype, 0);
    assert_eq!(second.index_in_archetype, 1);
    assert_eq!(*world.get_component_mut::<i32>(one).unwrap(), 7);
    assert_eq!(*world.get_component_mut::<i32>(two).unwrap(), 9);
    assert_eq!(*world.get_component_mut::<bool>(one).unwrap(), true);
    assert_eq!(*world.get_component_mut::<bool>(two).unwrap(), false);
}

#[test]
fn add_then_remove_returns_the_value_and_the_archetype() {
    let mut world = World::new();
    let entity = world.spawn((21i32, true));
    let other = world.spawn((4i32, false));
    let before = world.location(entity).unwrap();
    assert_eq!(world.add_component(entity, String::from("name")), Ok(()));
    let between = world.location(entity).unwrap();
    assert_ne!(between.archetype_index, before.archetype_index);
    assert_eq!(world.remove_component::<String>(entity).unwrap(), "name");
    let after = world.location(entity).unwrap();
    assert_eq!(after.archetype_index, before.archetype_index);
    assert_eq!(*world.get_component_mut::<i32>(entity).unwrap(), 21);
    assert_eq!(*world.get_component_mut::<bool>(entity).unwrap(), true);
    assert_eq!(*world.get_component_mut::<i32>(other).unwrap(), 4);
    assert_eq!(world.archetype_count(), 2);
}

#[test]
fn adding_a_type_the_entity_has_replaces_the_value_in_place() {
    let mut world = World::new();
    let entity = world.spawn((21i32, true));
    let before = world.location(entity).unwrap();
    assert_eq!(world.add_component(entity, 99i32), Ok(()));
    assert_eq!(world.location(entity).unwrap(), before);
    assert_eq!(world.archetype_count(), 1);
    assert_eq!(*world.get_component_mut::<i32>(entity).unwrap(), 99);
    assert_eq!(*world.get_component_mut::<bool>(entity).unwrap(), true);
}

#[test]
fn added_components_are_found_and_untouched_entities_lack_them() {
    #[derive(Debug, PartialEq)]
    struct Name {
        id: u32,
    }
    #[derive(Debug, PartialEq)]
    struct Move {
        dir: u32,
    }
    let mut world = World::new();
    let entity = world.spawn((21i32, true));
    let untouched = world.spawn((21i32, true));
    let start = world.location(entity).unwrap();
    world.add_component(entity, Name { id: 130 }).unwrap();
    let named = world.location(entity).unwrap();
    assert_ne!(named.archetype_index, start.archetype_index);
    assert_eq!(world.archetype(named.archetype_index as usize).column_count(), 3);
    world.add_component(entity, Move { dir: 7 }).unwrap();
    let end = world.location(entity).unwrap();
    assert_ne!(end.archetype_index, start.archetype_index);
    assert_ne!(end.archetype_index, named.archetype_index);
    assert_eq!(world.archetype(end.archetype_index as usize).column_count(), 4);
    assert_eq!(world.archetype(start.archetype_index as usize).column_count(), 2);
    assert_eq!(world.archetype_count(), 3);
    assert_eq!(world.get_component_mut::<Move>(entity).unwrap().dir, 7);
    assert_eq!(world.get_component_mut::<Name>(entity).unwrap().id, 130);
    match world.get_component_mut::<Move>(untouched) {
        Err(ComponentError::EntityMissingComponent(e)) => {
            assert_eq!(e.entity_index(), untouched.index());
            assert_eq!(e.component_type(), std::any::TypeId::of::<Move>());
        }
        _ => panic!("the untouched entity has no Move"),
    }
}

#[test]
fn remove_on_a_stale_handle_fails_and_changes_nothing() {
    let mut world = World::new();
    let entity = world.spawn((21i32, true));
    let other = world.spawn((5i32, false));
    world.despawn(entity).unwrap();
    let archetypes = world.archetype_count();
    let slots = world.entities().clone();
    let rows = world.archetype(0).len();
    assert!(matches!(
        world.remove_component::<i32>(entity),
        Err(ComponentError::NoSuchEntity(_))
    ));
    assert_eq!(world.archetype_count(), archetypes);
    assert_eq!(*world.entities(), slots);
    assert_eq!(world.archetype(0).len(), rows);
    assert_eq!(*world.get_component_mut::<i32>(other).unwrap(), 5);
}

#[test]
fn removing_a_missing_type_fails_and_changes_nothing() {
    let mut world = World::new();
    let entity = world.spawn((21i32, true));
    let before = world.location(entity).unwrap();
    match world.remove_component::<String>(entity) {
        Err(ComponentError::EntityMissingComponent(e)) => assert_eq!(e.entity_index(), 0),
        _ => panic!("the entity has no String"),
    }
    world.spawn((String::from("known"),));
    match world.remove_component::<String>(entity) {
        Err(ComponentError::EntityMissingComponent(e)) => assert_eq!(e.entity_index(), 0),
        _ => panic!("the entity has no String"),
    }
    assert_eq!(world.location(entity).unwrap(), before);
}

#[test]
fn despawn_relocates_the_last_row() {
    let mut world = World::new();
    let a = world.spawn((1i32,));
    let b = world.spawn((2i32,));
    let c = world.spawn((3i32,));
    assert_eq!(world.location(c).unwrap().index_in_archetype, 2);
    world.despawn(a).unwrap();
    assert_eq!(world.location(c).unwrap().index_in_archetype, 0);
    assert_eq!(world.location(b).unwrap().index_in_archetype, 1);
    assert_eq!(world.archetype(0).len(), 2);
    assert_eq!(world.archetype(0).entity_at(0), c.index());
    assert_eq!(*world.get_component_mut::<i32>(c).unwrap(), 3);
    assert_eq!(*world.get_component_mut::<i32>(b).unwrap(), 2);
}

#[test]
fn migration_relocates_the_last_row_of_the_archetype_left() {
    let mut world = World::new();
    let a = world.spawn((1i32,));
    let b = world.spawn((2i32,));
    let c = world.spawn((3i32,));
    world.add_component(a, true).unwrap();
    assert_eq!(world.location(c).unwrap().index_in_archetype, 0);
    assert_eq!(world.location(b).unwrap().index_in_archetype, 1);
    assert_eq!(world.location(a).unwrap().index_in_archetype, 0);
    assert_ne!(
        world.location(a).unwrap().archetype_index,
        world.location(b).unwrap().archetype_index
    );
    assert_eq!(*world.get_component_mut::<i32>(a).unwrap(), 1);
    assert_eq!(*world.get_component_mut::<i32>(b).unwrap(), 2);
    assert_eq!(*world.get_component_mut::<i32>(c).unwrap(), 3);
    assert_eq!(*world.get_component_mut::<bool>(a).unwrap(), true);
}

#[test]
fn rows_stay_aligned_and_locations_consistent() {
    let mut world = World::new();
    let mut handles = Vec::new();
    for i in 0..6u32 {
        handles.push(world.spawn((i, i % 2 == 0)));
    }
    world.add_component(handles[1], 1.5f64).unwrap();
    world.add_component(handles[4], 2.5f64).unwrap();
    world.despawn(handles[0]).unwrap();
    world.remove_component::<bool>(handles[3]).unwrap();
    world.remove_component::<f64>(handles[1]).unwrap();
    handles.push(world.spawn((String::from("x"), 9u32)));
    for a in 0..world.archetype_count() {
        let archetype = world.archetype(a);
        let shape = archetype.type_ids();
        assert_eq!(shape.len(), archetype.column_count());
        for pair in shape.windows(2) {
            assert!(pair[0] < pair[1]);
        }
    }
    for handle in handles {
        match world.location(handle) {
            Some(location) => {
                let archetype = world.archetype(location.archetype_index as usize);
                assert!((location.index_in_archetype as usize) < archetype.len());
                assert_eq!(archetype.entity_at(location.index_in_archetype), handle.index());
            }
            None => assert_eq!(handle.index(), 0),
        }
    }
}

#[test]
fn get_component_mut_writes_through() {
    let mut world = World::new();
    let entity = world.spawn((21i32, true));
    *world.get_component_mut::<i32>(entity).unwrap() += 1;
    assert_eq!(*world.get_component_mut::<i32>(entity).unwrap(), 22);
}

#[test]
fn a_later_value_of_the_same_type_replaces_the_earlier_in_a_bundle() {
    let mut world = World::new();
    let entity = world.spawn((1i32, true, 2i32));
    let location = world.location(entity).unwrap();
    assert_eq!(world.archetype(location.archetype_index as usize).column_count(), 2);
    assert_eq!(*world.get_component_mut::<i32>(entity).unwrap(), 2);
}

#[test]
fn removing_the_only_component_leaves_a_live_entity_without_components() {
    let mut world = World::new();
    let entity = world.spawn((1i32,));
    assert_eq!(world.remove_component::<i32>(entity).unwrap(), 1);
    assert!(world.contains(entity));
    let location = world.location(entity).unwrap();
    assert_eq!(world.archetype(location.archetype_index as usize).column_count(), 0);
    assert_eq!(world.archetype(location.archetype_index as usize).len(), 1);
    assert_eq!(world.add_component(entity, 5i32), Ok(()));
    assert_eq!(world.location(entity).unwrap().archetype_index, 0);
}

#[test]
fn twelve_components_spawn_into_twelve_columns() {
    let mut world = World::new();
    let entity = world.spawn((
        1u8, 2u16, 3u32, 4u64, 5i8, 6i16, 7i32, 8i64, true, 'c', String::from("s"), 12usize,
    ));
    let location = world.location(entity).unwrap();
    assert_eq!(world.archetype(location.archetype_index as usize).column_count(), 12);
    assert_eq!(*world.get_component_mut::<char>(entity).unwrap(), 'c');
    assert_eq!(*world.get_component_mut::<usize>(entity).unwrap(), 12);
    assert_eq!(world.remove_component::<u64>(entity).unwrap(), 4);
    assert_eq!(*world.get_component_mut::<String>(entity).unwrap(), "s");
}
