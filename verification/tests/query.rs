use archetype_ecs::error::FetchError;
use archetype_ecs::query::keep1;
use archetype_ecs::query::keep2;
use archetype_ecs::query::keep3;
use archetype_ecs::query::keep4;
use archetype_ecs::query::Query;
use archetype_ecs::world::World;

#[test]
fn test_world_query() {
    let mut world = World::new();
    #[derive(Debug)]
    #[allow(dead_code)]
    struct Name {
        id: u32,
        name: String,
    }
    #[derive(Debug)]
    #[allow(dead_code)]
    struct Move {
        dir: u32,
        speed: f32,
    }
    let _entity_0 = world.spawn((21, true, Name { id: 130, name: String::from("nmsl_0") }));
    let _entity_1 = world.spawn((21, true, Name { id: 140, name: String::from("nmsl_1") }));
    let _entity_2 = world.spawn((21, true, Name { id: 150, name: String::from("nmsl_2") }));
    let _entity_3 = world.spawn((21, true, Name { id: 160, name: String::from("nmsl_3") }));
    let _entity_4 = world.spawn((21, true, Name { id: 170, name: String::from("nmsl_4") }));
    let query = world.query::<(&Name, &bool)>().unwrap();
    let mut ids = Vec::new();
    for component in query.iter() {
        println!("{}, {}", component.0.id, component.0.name);
        ids.push(component.0.id);
        assert!(*component.1);
    }
    assert_eq!(ids, vec![130, 140, 150, 160, 170]);
}

#[test]
fn system() {
    struct Health {}
    struct Position {}
    let query_h_t_p = Query::new(vec![(Health {}, Position {}), (Health {}, Position {})]);
    assert_eq!(query_h_t_p.len(), 2);
    println!("nmsl");
}

#[test]
fn query_new_and_add_keep_the_order() {
    let mut query = Query::new(vec![1, 2, 3]);
    query.add(vec![4, 5]);
    query.add(Vec::new());
    assert_eq!(query.len(), 5);
    let items: Vec<i32> = query.iter().map(|item| **item).collect();
    assert_eq!(items, vec![1, 2, 3, 4, 5]);
    assert_eq!(*query.get(3), 4);
    assert_eq!(query.items().len(), 5);
}

#[test]
fn query_goes_through_every_archetype_that_has_the_types() {
    let mut world = World::new();
    let a = world.spawn((1i32, true));
    world.spawn((String::from("no number"),));
    world.spawn((2i32, true, 'x'));
    world.spawn((3i32,));
    world.spawn((4i32, false));
    let numbers = world.query::<(&i32,)>().unwrap();
    let found: Vec<i32> = numbers.iter().map(|item| *item.0).collect();
    assert_eq!(found, vec![1, 4, 2, 3]);
    let pairs = world.query::<(&bool, &i32)>().unwrap();
    let found: Vec<(bool, i32)> = pairs.iter().map(|item| (*item.0, *item.1)).collect();
    assert_eq!(found, vec![(true, 1), (false, 4), (true, 2)]);
    drop(numbers);
    drop(pairs);
    world.despawn(a).unwrap();
    let triples = world.query::<(&i32, &bool, &char)>().unwrap();
    assert_eq!(triples.len(), 1);
    assert_eq!(*triples.get(0).2, 'x');
    let four = world.query::<(&i32, &bool, &char, &i32)>().unwrap();
    assert_eq!(four.len(), 1);
    assert_eq!(*four.get(0).3, 2);
}

#[test]
fn query_for_a_type_the_world_has_not_met_is_empty() {
    let mut world = World::new();
    world.spawn((1i32,));
    assert_eq!(world.query::<(&u64,)>().unwrap().len(), 0);
    assert_eq!(world.query::<(&i32, &u64)>().unwrap().len(), 0);
    assert_eq!(world.query::<(&u64, &i32)>().unwrap().len(), 0);
}

#[test]
fn query_for_a_type_that_no_entity_has_any_more_is_empty() {
    let mut world = World::new();
    let entity = world.spawn((1i32,));
    world.despawn(entity).unwrap();
    assert_eq!(world.query::<(&i32,)>().unwrap().len(), 0);
}

#[test]
fn get_single_finds_the_first_instance() {
    let mut world = World::new();
    world.spawn((String::from("first"),));
    world.spawn((7i32, String::from("second")));
    world.spawn((8i32,));
    assert_eq!(world.get_single::<String>().unwrap(), "first");
    assert_eq!(*world.get_single::<i32>().unwrap(), 7);
    assert_eq!(world.get_single::<bool>(), Err(FetchError));
}

#[test]
fn get_single_skips_archetypes_without_rows() {
    let mut world = World::new();
    let gone = world.spawn((1i32,));
    world.spawn((2i32, true));
    world.despawn(gone).unwrap();
    assert_eq!(*world.get_single::<i32>().unwrap(), 2);
}

#[test]
fn get_single_mut_writes_through() {
    let mut world = World::new();
    let entity = world.spawn((7i32, true));
    *world.get_single_mut::<i32>().unwrap() = 70;
    assert_eq!(*world.get_component_mut::<i32>(entity).unwrap(), 70);
    assert!(world.get_single_mut::<char>().is_err());
}

#[test]
fn rows_with_lists_rows_archetype_by_archetype() {
    let mut world = World::new();
    world.spawn((1i32, true));
    world.spawn((2i32,));
    world.spawn((3i32, false));
    let number = world.component_id::<i32>().unwrap();
    let flag = world.component_id::<bool>().unwrap();
    let rows = world.rows_with(&[number]);
    let found: Vec<(u32, u32)> =
        rows.iter().map(|l| (l.archetype_index, l.index_in_archetype)).collect();
    assert_eq!(found, vec![(0, 0), (0, 1), (1, 0)]);
    assert_eq!(world.rows_with(&[number, flag]).len(), 2);
    assert_eq!(world.rows_with(&[]).len(), 3);
    assert_eq!(world.first_with(flag).unwrap().archetype_index, 0);
    assert_eq!(world.component_id::<char>(), None);
}

#[test]
fn a_row_is_kept_if_every_part_is_there() {
    assert_eq!(keep1(Some(1)), Some((1,)));
    assert_eq!(keep1(None::<i32>), None);
    assert_eq!(keep2(Some(1), Some('a')), Some((1, 'a')));
    assert_eq!(keep2(Some(1), None::<char>), None);
    assert_eq!(keep2(None::<i32>, Some('a')), None);
    assert_eq!(keep3(Some(1), Some('a'), Some(true)), Some((1, 'a', true)));
    assert_eq!(keep3(Some(1), None::<char>, Some(true)), None);
    assert_eq!(keep4(Some(1), Some('a'), Some(true), Some("x")), Some((1, 'a', true, "x")));
    assert_eq!(keep4(Some(1), Some('a'), Some(true), None::<&str>), None);
    assert_eq!(keep4(None::<i32>, Some('a'), Some(true), Some("x")), None);
}

#[test]
fn query_holds_one_item_for_each_matching_row() {
    let mut world = World::new();
    let mut spawned = Vec::new();
    for i in 0..7u32 {
        spawned.push(world.spawn((i, i % 2 == 0)));
    }
    world.add_component(spawned[2], 'c').unwrap();
    world.despawn(spawned[5]).unwrap();
    let number = world.component_id::<u32>().unwrap();
    let flag = world.component_id::<bool>().unwrap();
    let rows = world.rows_with(&[number, flag]).len();
    assert_eq!(rows, 6);
    let query = world.query::<(&u32, &bool)>().unwrap();
    assert_eq!(query.len(), rows);
    let mut numbers: Vec<u32> = query.iter().map(|item| *item.0).collect();
    numbers.sort();
    assert_eq!(numbers, vec![0, 1, 2, 3, 4, 6]);
    for item in query.iter() {
        assert_eq!(*item.1, *item.0 % 2 == 0);
    }
}
