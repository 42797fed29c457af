use archetype_ecs::archetype::Archetype;
use archetype_ecs::bundle::Bundle;
use archetype_ecs::bundle::ComponentBundle;
use archetype_ecs::component::ComponentStore;
use archetype_ecs::component::ErasedValue;
use archetype_ecs::entity::Entity;
use archetype_ecs::error::NoSuchEntity;
use archetype_ecs::world::World;

fn erased<T: 'static + Send + Sync>(value: T) -> ErasedValue {
    (value,).into_parts().pop().unwrap().1
}

fn number_at(archetype: &mut Archetype, key: usize, row: u32) -> i32 {
    *archetype.get_component_mut::<i32>(key, row).unwrap()
}

fn text_at(archetype: &mut Archetype, key: usize, row: u32) -> String {
    archetype.get_component_mut::<String>(key, row).unwrap().clone()
}

fn filled() -> Archetype {
    // Columns 2 (numbers) and 5 (texts), rows for the entities 10, 11, 12.
    let mut archetype = Archetype::with_shape(&[2, 5]);
    archetype.push_row(10, vec![erased(100i32), erased(String::from("a"))]);
    archetype.push_row(11, vec![erased(101i32), erased(String::from("b"))]);
    archetype.push_row(12, vec![erased(102i32), erased(String::from("c"))]);
    archetype
}

#[test]
fn into_parts_keeps_the_order_of_the_tuple() {
    let parts = (1u8, true, String::from("x")).into_parts();
    assert_eq!(parts.len(), 3);
    assert_eq!(parts[0].0, std::any::TypeId::of::<u8>());
    assert_eq!(parts[1].0, std::any::TypeId::of::<bool>());
    assert_eq!(parts[2].0, std::any::TypeId::of::<String>());
}

#[test]
fn push_row_fills_every_column() {
    let mut archetype = filled();
    assert_eq!(archetype.len(), 3);
    assert_eq!(archetype.get(0).len(), 3);
    assert_eq!(archetype.get(1).len(), 3);
    assert_eq!(archetype.entity_at(0), 10);
    assert_eq!(archetype.entity_at(2), 12);
    assert_eq!(number_at(&mut archetype, 2, 1), 101);
    assert_eq!(text_at(&mut archetype, 5, 2), "c");
}

#[test]
fn remove_entity_moves_the_last_row_into_the_gap() {
    let mut archetype = filled();
    assert_eq!(archetype.remove_entity(0), 12);
    assert_eq!(archetype.len(), 2);
    assert_eq!(archetype.entity_at(0), 12);
    assert_eq!(archetype.entity_at(1), 11);
    assert_eq!(number_at(&mut archetype, 2, 0), 102);
    assert_eq!(text_at(&mut archetype, 5, 0), "c");
    assert_eq!(number_at(&mut archetype, 2, 1), 101);
    // Removing the last row moves nothing.
    assert_eq!(archetype.remove_entity(1), 11);
    assert_eq!(archetype.len(), 1);
    assert_eq!(archetype.entity_at(0), 12);
    assert_eq!(text_at(&mut archetype, 5, 0), "c");
}

#[test]
fn archetype_reports_missing_columns() {
    let mut archetype = filled();
    let error = archetype.get_component_mut::<i32>(3, 1).unwrap_err();
    assert_eq!(error.entity_index(), 11);
    assert!(archetype.component_mut(3, 1).is_none());
    assert!(archetype.component_mut(2, 1).is_some());
    // The column is there, the value in it is no bool.
    assert!(archetype.get_component_mut::<bool>(2, 1).is_err());
}

#[test]
fn replace_push_and_take_work_on_one_column() {
    let mut archetype = filled();
    archetype.replace_component(0, 1, erased(7i32));
    assert_eq!(number_at(&mut archetype, 2, 1), 7);
    assert_eq!(number_at(&mut archetype, 2, 0), 100);
    archetype.push(0, erased(8i32));
    assert_eq!(archetype.get(0).len(), 4);
    assert_eq!(archetype.get(1).len(), 3);
    let taken = archetype.take_component(0, 0);
    assert_eq!(archetype.get(0).len(), 3);
    let mut single = Archetype::with_shape(&[2]);
    single.push_row(1, vec![taken]);
    assert_eq!(number_at(&mut single, 2, 0), 100);
    // The last value took the place of the one taken.
    assert_eq!(number_at(&mut archetype, 2, 0), 8);
    assert_eq!(archetype.mutable_component_store(1).len(), 3);
}

#[test]
fn migrate_component_moves_one_value() {
    let mut source = filled();
    let mut target = Archetype::with_shape(&[5]);
    source.migrate_component(1, 0, &mut target, 0);
    assert_eq!(source.get(1).len(), 2);
    assert_eq!(source.get(0).len(), 3);
    assert_eq!(target.get(0).len(), 1);
    // Give the target its entity so that the row can be read.
    let mut check = Archetype::with_shape(&[5]);
    check.push_row(10, vec![target.take_component(0, 0)]);
    assert_eq!(text_at(&mut check, 5, 0), "a");
}

#[test]
fn move_row_adding_shifts_the_columns_after_the_new_one() {
    let mut source = filled();
    let mut target = Archetype::with_shape(&[2, 3, 5]);
    source.move_row_adding(0, 10, &mut target, 1, erased(true));
    assert_eq!(source.len(), 2);
    assert_eq!(source.entity_at(0), 12);
    assert_eq!(number_at(&mut source, 2, 0), 102);
    assert_eq!(text_at(&mut source, 5, 0), "c");
    assert_eq!(target.len(), 1);
    assert_eq!(target.entity_at(0), 10);
    assert_eq!(number_at(&mut target, 2, 0), 100);
    assert_eq!(*target.get_component_mut::<bool>(3, 0).unwrap(), true);
    assert_eq!(text_at(&mut target, 5, 0), "a");
}

#[test]
fn move_row_adding_at_either_end() {
    let mut source = filled();
    let mut front = Archetype::with_shape(&[1, 2, 5]);
    source.move_row_adding(2, 12, &mut front, 0, erased('f'));
    assert_eq!(*front.get_component_mut::<char>(1, 0).unwrap(), 'f');
    assert_eq!(number_at(&mut front, 2, 0), 102);
    assert_eq!(text_at(&mut front, 5, 0), "c");
    let mut back = Archetype::with_shape(&[2, 5, 9]);
    source.move_row_adding(0, 10, &mut back, 2, erased('b'));
    assert_eq!(number_at(&mut back, 2, 0), 100);
    assert_eq!(text_at(&mut back, 5, 0), "a");
    assert_eq!(*back.get_component_mut::<char>(9, 0).unwrap(), 'b');
    assert_eq!(source.len(), 1);
    assert_eq!(source.entity_at(0), 11);
}

#[test]
fn move_row_removing_hands_out_the_removed_value() {
    let mut source = filled();
    let mut target = Archetype::with_shape(&[5]);
    let removed = source.move_row_removing(1, 11, &mut target, 0);
    assert_eq!(source.len(), 2);
    assert_eq!(source.entity_at(1), 12);
    assert_eq!(target.len(), 1);
    assert_eq!(target.entity_at(0), 11);
    assert_eq!(text_at(&mut target, 5, 0), "b");
    let mut check = Archetype::with_shape(&[2]);
    check.push_row(11, vec![removed]);
    assert_eq!(number_at(&mut check, 2, 0), 101);
    // Now remove the last column of a row.
    let mut numbers = Archetype::with_shape(&[2]);
    let removed = source.move_row_removing(0, 10, &mut numbers, 1);
    assert_eq!(number_at(&mut numbers, 2, 0), 100);
    let mut check = Archetype::with_shape(&[5]);
    check.push_row(10, vec![removed]);
    assert_eq!(text_at(&mut check, 5, 0), "a");
}

#[test]
fn component_store_operations() {
    let mut store = ComponentStore::new(4);
    store.push(erased(1i32));
    store.push(erased(2i32));
    store.push(erased(3i32));
    assert_eq!(store.len(), 3);
    let mut other = store.new_same_type();
    store.migrate(0, &mut other);
    assert_eq!(store.len(), 2);
    assert_eq!(other.len(), 1);
    let first = other.swap_remove(0);
    let previous = store.replace(1, first);
    store.get(0);
    store.get_mut(1);
    assert_eq!(store.data_mut().len(), 2);
    // Rows are now 3, 1; the value that was replaced is 2.
    let mut check = Archetype::with_shape(&[4]);
    check.push_row(0, vec![store.swap_remove(0)]);
    check.push_row(1, vec![store.swap_remove(0)]);
    check.push_row(2, vec![previous]);
    assert_eq!(number_at(&mut check, 4, 0), 3);
    assert_eq!(number_at(&mut check, 4, 1), 1);
    assert_eq!(number_at(&mut check, 4, 2), 2);
}

#[test]
fn bundle_sorts_by_type_and_replaces_duplicates() {
    let mut bundle = Bundle::new();
    bundle.insert(7, erased(70i32));
    bundle.insert(3, erased(30i32));
    bundle.insert(9, erased(90i32));
    bundle.insert(3, erased(31i32));
    assert_eq!(bundle.len(), 3);
    assert_eq!(*bundle.type_ids(), vec![3, 7, 9]);
    let mut archetype = Archetype::with_shape(&[3, 7, 9]);
    archetype.push_row(0, bundle.into_values());
    assert_eq!(number_at(&mut archetype, 3, 0), 31);
    assert_eq!(number_at(&mut archetype, 7, 0), 70);
    assert_eq!(number_at(&mut archetype, 9, 0), 90);
}

#[test]
fn world_operations_on_erased_components() {
    let mut world = World::new();
    let mut bundle = Bundle::new();
    bundle.insert(5, erased(String::from("five")));
    bundle.insert(1, erased(1i32));
    let entity = world.spawn_bundle(bundle);
    assert_eq!(entity, Entity { index: 0, generation: 0 });
    assert_eq!(world.archetype(0).type_ids(), vec![1, 5]);
    // Add a type in the middle, then replace it in place.
    assert_eq!(world.insert_component(entity, 3, erased(true)), Ok(()));
    assert_eq!(world.archetype_count(), 2);
    assert_eq!(world.archetype(1).type_ids(), vec![1, 3, 5]);
    assert_eq!(world.location(entity).unwrap().archetype_index, 1);
    assert_eq!(world.archetype(0).len(), 0);
    assert_eq!(world.insert_component(entity, 3, erased(false)), Ok(()));
    assert_eq!(world.archetype_count(), 2);
    assert!(world.component_mut(entity, 3).unwrap().is_some());
    assert!(world.component_mut(entity, 4).unwrap().is_none());
    // Take it away again: the entity is back in the first archetype.
    assert!(world.take_component(entity, 3).unwrap().is_some());
    assert!(world.take_component(entity, 3).unwrap().is_none());
    assert_eq!(world.location(entity).unwrap().archetype_index, 0);
    assert_eq!(world.archetype_count(), 2);
    // A stale handle is refused everywhere.
    world.despawn(entity).unwrap();
    assert_eq!(world.insert_component(entity, 3, erased(true)), Err(NoSuchEntity));
    assert!(world.take_component(entity, 1).is_err());
    assert!(world.component_mut(entity, 1).is_err());
}

#[test]
fn archetype_for_finds_or_adds() {
    let mut world = World::new();
    assert_eq!(world.archetype_for(&[1, 2]), 0);
    assert_eq!(world.archetype_for(&[1]), 1);
    assert_eq!(world.archetype_for(&[1, 2]), 0);
    assert_eq!(world.archetype_for(&[]), 2);
    assert_eq!(world.archetype_for(&[]), 2);
    assert_eq!(world.archetype_count(), 3);
    assert_eq!(world.archetype(1).type_ids(), vec![1]);
}

#[test]
fn spawn_parts_registers_types_and_sorts_the_components() {
    let mut world = World::new();
    // `String` is met first and gets id 0, `i32` gets id 1.
    let first = world.spawn_parts((String::from("a"), 1i32).into_parts());
    assert_eq!(first, Entity { index: 0, generation: 0 });
    assert_eq!(world.component_id::<String>(), Some(0));
    assert_eq!(world.component_id::<i32>(), Some(1));
    assert_eq!(world.archetype(0).type_ids(), vec![0, 1]);
    // The other order of the tuple gives the same shape.
    let second = world.spawn_parts((2i32, String::from("b")).into_parts());
    assert_eq!(world.archetype_count(), 1);
    assert_eq!(world.location(second).unwrap().index_in_archetype, 1);
    assert_eq!(*world.get_component_mut::<i32>(second).unwrap(), 2);
    assert_eq!(*world.get_component_mut::<String>(second).unwrap(), "b");
    assert_eq!(*world.get_component_mut::<i32>(first).unwrap(), 1);
    // A later part of a type takes the place of an earlier one.
    let third = world.spawn_parts((3i32, true, 4i32).into_parts());
    assert_eq!(world.component_id::<bool>(), Some(2));
    assert_eq!(world.archetype(1).type_ids(), vec![1, 2]);
    assert_eq!(*world.get_component_mut::<i32>(third).unwrap(), 4);
    // No parts: an entity without components.
    let bare = world.spawn_parts(Vec::new());
    let location = world.location(bare).unwrap();
    assert_eq!(world.archetype(location.archetype_index as usize).column_count(), 0);
}
