//! What holds of a world across its operations.

use vstd::prelude::*;
use crate::bundle::BundleView;
use crate::component::ComponentId;
use crate::component::ErasedValue;
use crate::entity::Entity;
use crate::entity::EntityId;
use crate::model::next_generation;
use crate::model::WorldView;
use crate::shape::is_shape;
use crate::shape::lemma_position;
use crate::shape::lemma_position_is;
use crate::shape::position;
use crate::shape::lemma_shape_unique;
use crate::shape::lemma_with_type;
use crate::shape::lemma_with_type_other;
use crate::shape::lemma_without_type_other;
use crate::shape::lemma_without_type;
use crate::shape::with_type;
use crate::shape::without_type;
use crate::wellformed::lemma_add_component_wf;
use crate::wellformed::lemma_despawn_wf;
use crate::wellformed::lemma_live_located;
use crate::wellformed::lemma_migrate_wf;
use crate::wellformed::lemma_push_row_wf;
use crate::wellformed::lemma_remove_component_wf;
use crate::wellformed::lemma_shape_index;
use crate::wellformed::lemma_spawn_wf;
use crate::wellformed::lemma_swap_remove_wf;

verus! {

/// One operation on a world, with its arguments.
pub enum Operation {
    /// Spawn an entity with components `values` of types `types`.
    Spawn { types: Seq<ComponentId>, values: Seq<ErasedValue> },
    /// Despawn `entity`.
    Despawn { entity: Entity },
    /// Give `entity` the component `value` of type `key`.
    AddComponent { entity: Entity, key: ComponentId, value: ErasedValue },
    /// Take the component of type `key` from `entity`.
    RemoveComponent { entity: Entity, key: ComponentId },
}

/// Whether `world` admits `operation`: what the function that performs it
/// requires of its arguments and of the room that is left.
pub open spec fn permits(world: WorldView, operation: Operation) -> bool {
    match operation {
        Operation::Spawn { types, values } => {
            &&& is_shape(types)
            &&& values.len() == types.len()
            &&& world.free.len() > 0 || world.entities.len() < EntityId::MAX
            &&& world.has_room_for(types)
        },
        Operation::Despawn { entity } => true,
        Operation::AddComponent { entity, key, value } => world.is_live(entity)
            && !world.has_component(entity, key) ==> world.has_room_for(
            with_type(world.shape_of(entity), key),
        ),
        Operation::RemoveComponent { entity, key } => world.is_live(entity) && world.has_component(
            entity,
            key,
        ) ==> world.has_room_for(without_type(world.shape_of(entity), key)),
    }
}

/// The world after `operation`. An operation on a handle that names no live
/// entity, and the removal of a component that the entity lacks, fail and
/// leave the world as it is.
pub open spec fn apply(world: WorldView, operation: Operation) -> WorldView {
    match operation {
        Operation::Spawn { types, values } => world.spawn(types, values),
        Operation::Despawn { entity } => if world.is_live(entity) {
            world.despawn(entity)
        } else {
            world
        },
        Operation::AddComponent { entity, key, value } => if world.is_live(entity) {
            world.add_component(entity, key, value)
        } else {
            world
        },
        Operation::RemoveComponent { entity, key } => if world.is_live(entity)
            && world.has_component(entity, key) {
            world.remove_component(entity, key)
        } else {
            world
        },
    }
}

/// Whether `world` admits the operations `operations`, one after the other.
pub open spec fn permits_all(world: WorldView, operations: Seq<Operation>) -> bool
    decreases operations.len(),
{
    if operations.len() == 0 {
        true
    } else {
        permits(world, operations.first()) && permits_all(
            apply(world, operations.first()),
            operations.drop_first(),
        )
    }
}

/// The world after the operations `operations`, one after the other.
pub open spec fn run(world: WorldView, operations: Seq<Operation>) -> WorldView
    decreases operations.len(),
{
    if operations.len() == 0 {
        world
    } else {
        run(apply(world, operations.first()), operations.drop_first())
    }
}

/// The empty world is well formed.
pub proof fn lemma_empty_world_wf()
    ensures
        WorldView::empty().wf(),
{
}

/// One operation keeps the world well formed. It takes no slot away, and it
/// leaves the generation of each slot as it is or moves it on by one.
pub proof fn lemma_apply_wf(world: WorldView, operation: Operation)
    requires
        world.wf(),
        permits(world, operation),
    ensures
        apply(world, operation).wf(),
        apply(world, operation).entities.len() >= world.entities.len(),
        forall|i: int|
            0 <= i < world.entities.len() ==> {
                let before = world.entities[i].generation;
                let after = (#[trigger] apply(world, operation).entities[i]).generation;
                after == before || after == next_generation(before)
            },
{
    match operation {
        Operation::Spawn { types, values } => {
            lemma_spawn_wf(world, types, values);
            if world.free.len() > 0 {
                assert(world.is_free(world.free[world.free.len() - 1] as int));
            }
        },
        Operation::Despawn { entity } => {
            if world.is_live(entity) {
                lemma_despawn_wf(world, entity);
                lemma_live_located(world, entity);
                let a = world.archetype_index(entity);
                assert(world.row_owned(a, world.archetypes[a].rows() - 1));
            }
        },
        Operation::AddComponent { entity, key, value } => {
            if world.is_live(entity) {
                lemma_add_component_wf(world, entity, key, value);
                lemma_live_located(world, entity);
                let a = world.archetype_index(entity);
                assert(world.row_owned(a, world.archetypes[a].rows() - 1));
            }
        },
        Operation::RemoveComponent { entity, key } => {
            if world.is_live(entity) && world.has_component(entity, key) {
                lemma_remove_component_wf(world, entity, key);
                lemma_live_located(world, entity);
                let a = world.archetype_index(entity);
                assert(world.row_owned(a, world.archetypes[a].rows() - 1));
            }
        },
    }
}

/// Any sequence of operations keeps the world well formed and takes no slot
/// away.
pub proof fn lemma_run_wf(world: WorldView, operations: Seq<Operation>)
    requires
        world.wf(),
        permits_all(world, operations),
    ensures
        run(world, operations).wf(),
        run(world, operations).entities.len() >= world.entities.len(),
    decreases operations.len(),
{
    if operations.len() > 0 {
        lemma_apply_wf(world, operations.first());
        lemma_run_wf(apply(world, operations.first()), operations.drop_first());
    }
}

/// Row alignment: after any sequence of spawns, despawns, additions and
/// removals, starting from a well-formed world, every column of every
/// archetype is as long as the archetype's entity list.
pub proof fn lemma_rows_aligned(world: WorldView, operations: Seq<Operation>)
    requires
        world.wf(),
        permits_all(world, operations),
    ensures
        forall|a: int, c: int|
            0 <= a < run(world, operations).archetypes.len() && 0 <= c < run(
                world,
                operations,
            ).archetypes[a].columns.len() ==> (#[trigger] run(
                world,
                operations,
            ).archetypes[a].columns[c]).data.len() == run(
                world,
                operations,
            ).archetypes[a].entities.len(),
{
    lemma_run_wf(world, operations);
    let after = run(world, operations);
    assert forall|a: int, c: int|
        0 <= a < after.archetypes.len() && 0 <= c < after.archetypes[a].columns.len() implies (
    #[trigger] after.archetypes[a].columns[c]).data.len() == after.archetypes[a].entities.len() by {
        assert(after.archetypes[a].wf());
    }
}

/// Location consistency: after any sequence of spawns, despawns, additions and
/// removals, starting from a well-formed world, the location table points
/// every live entity at a row of an archetype that holds the entity's index.
pub proof fn lemma_locations_consistent(
    world: WorldView,
    operations: Seq<Operation>,
    entity: Entity,
)
    requires
        world.wf(),
        permits_all(world, operations),
        run(world, operations).is_live(entity),
    ensures
        ({
            let after = run(world, operations);
            let location = after.location(entity);
            &&& location.archetype_index < after.archetypes.len()
            &&& location.index_in_archetype
                < after.archetypes[location.archetype_index as int].entities.len()
            &&& after.archetypes[location.archetype_index as int].entities[location.index_in_archetype as int]
                == entity.index
        }),
{
    lemma_run_wf(world, operations);
    lemma_live_located(run(world, operations), entity);
}

/// Generations of one slot increase: the entity spawned right after a despawn
/// takes the slot that was freed, with the generation after the next of the
/// despawned handle's, which is greater by two unless it wraps around; and the
/// despawned handle is dead in the world that holds the new entity.
pub proof fn lemma_generations_increase(
    world: WorldView,
    entity: Entity,
    types: Seq<ComponentId>,
    values: Seq<ErasedValue>,
)
    requires
        world.wf(),
        world.is_live(entity),
        is_shape(types),
        values.len() == types.len(),
        world.despawn(entity).has_room_for(types),
    ensures
        world.despawn(entity).spawned().index == entity.index,
        world.despawn(entity).spawned().generation == next_generation(
            next_generation(entity.generation),
        ),
        entity.generation < EntityId::MAX - 1 ==> world.despawn(entity).spawned().generation
            == entity.generation + 2,
        world.despawn(entity).spawn(types, values).is_live(world.despawn(entity).spawned()),
        !world.despawn(entity).spawn(types, values).is_live(entity),
{
    lemma_despawn_wf(world, entity);
    lemma_live_located(world, entity);
    let despawned = world.despawn(entity);
    let a = world.archetype_index(entity);
    assert(world.row_owned(a, world.archetypes[a].rows() - 1));
    lemma_spawn_wf(despawned, types, values);
}

/// A handle of an earlier generation stays dead: if the slot of `entity` has
/// moved on past the handle's generation, then the handle names no live
/// entity after any sequence of operations, as long as the sequence is too
/// short for the slot's generation to wrap around.
pub proof fn lemma_stale_handle_stays_dead(
    world: WorldView,
    operations: Seq<Operation>,
    entity: Entity,
)
    requires
        world.wf(),
        permits_all(world, operations),
        entity.index < world.entities.len(),
        entity.generation < world.entities[entity.index as int].generation,
        world.entities[entity.index as int].generation + operations.len() <= EntityId::MAX,
    ensures
        !run(world, operations).is_live(entity),
        entity.generation < run(world, operations).entities[entity.index as int].generation,
    decreases operations.len(),
{
    if operations.len() > 0 {
        let next = apply(world, operations.first());
        lemma_apply_wf(world, operations.first());
        assert(next.entities[entity.index as int].generation
            == world.entities[entity.index as int].generation || next.entities[entity.index as int].generation
            == next_generation(world.entities[entity.index as int].generation));
        lemma_stale_handle_stays_dead(next, operations.drop_first(), entity);
    }
}

/// Despawning makes a handle stale for good: after a despawn and any further
/// sequence of operations too short for the slot's generation to wrap around,
/// the despawned handle names no live entity.
pub proof fn lemma_despawned_stays_dead(
    world: WorldView,
    entity: Entity,
    operations: Seq<Operation>,
)
    requires
        world.wf(),
        world.is_live(entity),
        permits_all(world.despawn(entity), operations),
        entity.generation + 1 + operations.len() <= EntityId::MAX,
    ensures
        !run(world.despawn(entity), operations).is_live(entity),
{
    lemma_despawn_wf(world, entity);
    lemma_live_located(world, entity);
    let a = world.archetype_index(entity);
    assert(world.row_owned(a, world.archetypes[a].rows() - 1));
    lemma_stale_handle_stays_dead(world.despawn(entity), operations, entity);
}

/// Shape commutativity for bundles: putting two components of different types
/// into a bundle gives the same bundle in either order.
pub proof fn lemma_bundle_order(
    bundle: BundleView,
    first: ComponentId,
    first_value: ErasedValue,
    second: ComponentId,
    second_value: ErasedValue,
)
    requires
        bundle.wf(),
        first != second,
    ensures
        bundle.insert(first, first_value).insert(second, second_value) == bundle.insert(
            second,
            second_value,
        ).insert(first, first_value),
{
    let one = bundle.insert(first, first_value);
    let two = bundle.insert(second, second_value);
    lemma_bundle_insert(bundle, first, first_value);
    lemma_bundle_insert(bundle, second, second_value);
    lemma_bundle_insert(one, second, second_value);
    lemma_bundle_insert(two, first, first_value);
    let left = one.insert(second, second_value);
    let right = two.insert(first, first_value);
    assert forall|t: ComponentId| left.types.contains(t) <==> right.types.contains(t) by {
        assert(left.types.contains(t) <==> (t == second || one.types.contains(t)));
        assert(one.types.contains(t) <==> (t == first || bundle.types.contains(t)));
        assert(right.types.contains(t) <==> (t == first || two.types.contains(t)));
        assert(two.types.contains(t) <==> (t == second || bundle.types.contains(t)));
    }
    lemma_shape_unique(left.types, right.types);
    assert forall|i: int| 0 <= i < left.values.len() implies left.values[i] == right.values[i] by {
        let t = left.types[i];
        assert(left.types.contains(t));
        assert(left.types.contains(t) <==> (t == second || one.types.contains(t)));
        assert(one.types.contains(t) <==> (t == first || bundle.types.contains(t)));
        assert(two.types.contains(t) <==> (t == second || bundle.types.contains(t)));
        lemma_position_is(left.types, t, i);
        assert(left.values[i] == left.value_of(t));
        assert(right.values[i] == right.value_of(t));
        if t == second {
            assert(right.value_of(t) == two.value_of(t));
        } else if t == first {
            assert(left.value_of(t) == one.value_of(t));
        } else {
            assert(left.value_of(t) == one.value_of(t));
            assert(one.value_of(t) == bundle.value_of(t));
            assert(right.value_of(t) == two.value_of(t));
            assert(two.value_of(t) == bundle.value_of(t));
        }
    }
    assert(left.values =~= right.values);
}

/// What putting a component into a bundle gives: a well-formed bundle that
/// holds the value under its type and, under every other type, what the
/// bundle held before.
pub proof fn lemma_bundle_insert(bundle: BundleView, key: ComponentId, value: ErasedValue)
    requires
        bundle.wf(),
    ensures
        bundle.insert(key, value).wf(),
        forall|t: ComponentId| #[trigger]
            bundle.insert(key, value).types.contains(t) <==> (t == key || bundle.types.contains(t)),
        bundle.insert(key, value).value_of(key) == value,
        forall|t: ComponentId|
            t != key && bundle.types.contains(t) ==> #[trigger] bundle.insert(key, value).value_of(
                t,
            ) == bundle.value_of(t),
{
    let after = bundle.insert(key, value);
    let at = position(bundle.types, key);
    lemma_position(bundle.types, key);
    if bundle.types.contains(key) {
        assert forall|t: ComponentId| t != key && bundle.types.contains(t) implies after.value_of(t)
            == bundle.value_of(t) by {
            lemma_position(bundle.types, t);
        }
    } else {
        lemma_with_type(bundle.types, key);
        assert forall|t: ComponentId| after.types.contains(t) implies (t == key
            || bundle.types.contains(t)) by {
            let i = choose|i: int| 0 <= i < after.types.len() && after.types[i] == t;
            if i < at {
                assert(bundle.types[i] == t);
            } else if i > at {
                assert(bundle.types[i - 1] == t);
            }
        }
        assert forall|t: ComponentId| bundle.types.contains(t) implies after.types.contains(t) by {
            let i = choose|i: int| 0 <= i < bundle.types.len() && bundle.types[i] == t;
            if i < at {
                assert(after.types[i] == t);
            } else {
                assert(after.types[i + 1] == t);
            }
        }
        assert(after.types.contains(key));
        assert forall|t: ComponentId| t != key && bundle.types.contains(t) implies after.value_of(t)
            == bundle.value_of(t) by {
            lemma_position(bundle.types, t);
            let i = position(bundle.types, t);
            let j = if i < at { i } else { i + 1 };
            assert(after.types[j] == t);
            assert forall|k: int| 0 <= k < j implies after.types[k] < t by {
                assert(after.types[k] < after.types[j]);
            }
            assert forall|k: int| j <= k < after.types.len() implies after.types[k] >= t by {
                if k > j {
                    assert(after.types[j] < after.types[k]);
                }
            }
            lemma_position_is(after.types, t, j);
        }
    }
}

/// Shape commutativity: two entities spawned with components of the same
/// types sit in the same archetype, in whatever order each bundle was put
/// together.
pub proof fn lemma_same_types_same_archetype(
    world: WorldView,
    first: BundleView,
    second: BundleView,
)
    requires
        world.wf(),
        first.wf(),
        second.wf(),
        forall|t: ComponentId| first.types.contains(t) <==> second.types.contains(t),
        world.free.len() > 0 || world.entities.len() < EntityId::MAX,
        world.has_room_for(first.types),
        world.spawn(first.types, first.values).free.len() > 0 || world.spawn(
            first.types,
            first.values,
        ).entities.len() < EntityId::MAX,
    ensures
        ({
            let one = world.spawned();
            let between = world.spawn(first.types, first.values);
            let two = between.spawned();
            let after = between.spawn(second.types, second.values);
            &&& after.is_live(one)
            &&& after.is_live(two)
            &&& one != two
            &&& after.archetype_index(one) == after.archetype_index(two)
        }),
{
    lemma_shape_unique(first.types, second.types);
    let one = world.spawned();
    let between = world.spawn(first.types, first.values);
    let two = between.spawned();
    let after = between.spawn(second.types, second.values);
    lemma_spawn_wf(world, first.types, first.values);
    lemma_live_located(between, one);
    assert(between.has_shape(first.types));
    lemma_shape_index(between, first.types);
    lemma_spawn_wf(between, second.types, second.values);
    assert(one.index != two.index) by {
        if between.free.len() > 0 {
            assert(between.is_free(between.free[between.free.len() - 1] as int));
        }
    }
}

/// Add/remove round trip: giving an entity a component of a type it lacks and
/// taking it away again hands back the value that was given, and leaves the
/// entity in the archetype where it was, with the components it had.
pub proof fn lemma_add_remove_round_trip(
    world: WorldView,
    entity: Entity,
    key: ComponentId,
    value: ErasedValue,
)
    requires
        world.wf(),
        world.is_live(entity),
        !world.has_component(entity, key),
        world.has_room_for(with_type(world.shape_of(entity), key)),
    ensures
        ({
            let added = world.add_component(entity, key, value);
            let removed = added.remove_component(entity, key);
            &&& added.is_live(entity)
            &&& added.has_component(entity, key)
            &&& added.component(entity, key) == value
            &&& added.has_room_for(without_type(added.shape_of(entity), key))
            &&& removed.wf()
            &&& removed.is_live(entity)
            &&& removed.archetype_index(entity) == world.archetype_index(entity)
            &&& removed.shape_of(entity) == world.shape_of(entity)
            &&& removed.components_of(entity) == world.components_of(entity)
        }),
{
    lemma_live_located(world, entity);
    let source = world.archetype_of(entity);
    let shape = source.shape();
    let more = with_type(shape, key);
    let column = source.column_of(key);
    let values = world.components_of(entity).insert(column, value);
    lemma_with_type(shape, key);
    lemma_position(shape, key);
    lemma_add_component_wf(world, entity, key, value);
    lemma_migrate_wf(world, entity, more, values);
    let added = world.add_component(entity, key, value);
    lemma_shape_index(world, more);
    // The archetype the entity left is still there, with the shape it had.
    let a = world.archetype_index(entity);
    assert(added.archetypes[a].shape() == shape) by {
        lemma_swap_remove_wf(source, world.row_index(entity));
    }
    assert(added.has_shape(shape));
    lemma_shape_index(added, shape);
    lemma_live_located(added, entity);
    let back = added.components_of(entity).remove(added.archetype_of(entity).column_of(key));
    assert(back =~= world.components_of(entity));
    lemma_migrate_wf(added, entity, shape, back);
}

/// Adding a component leaves the entity's other components as they are: it
/// has a component of another type exactly if it had one, with the value it
/// had.
pub proof fn lemma_add_keeps_other_components(
    world: WorldView,
    entity: Entity,
    key: ComponentId,
    value: ErasedValue,
    other: ComponentId,
)
    requires
        world.wf(),
        world.is_live(entity),
        !world.has_component(entity, key) ==> world.has_room_for(
            with_type(world.shape_of(entity), key),
        ),
        other != key,
    ensures
        world.add_component(entity, key, value).has_component(entity, other)
            == world.has_component(entity, other),
        world.has_component(entity, other) ==> world.add_component(entity, key, value).component(
            entity,
            other,
        ) == world.component(entity, other),
{
    lemma_live_located(world, entity);
    lemma_add_component_wf(world, entity, key, value);
    let source = world.archetype_of(entity);
    let after = world.add_component(entity, key, value);
    lemma_position(source.shape(), key);
    lemma_position(source.shape(), other);
    if source.has(key) {
        assert(after.shape_of(entity) == world.shape_of(entity));
    } else {
        lemma_with_type_other(source.shape(), key, other);
        let values = world.components_of(entity).insert(source.column_of(key), value);
        lemma_with_type(source.shape(), key);
        lemma_migrate_wf(world, entity, with_type(source.shape(), key), values);
        lemma_live_located(after, entity);
        if source.has(other) {
            let target = after.archetype_of(entity);
            assert(after.components_of(entity)[target.column_of(other)] == world.components_of(
                entity,
            )[source.column_of(other)]);
        }
    }
}

/// Removing a component leaves the entity's other components as they are: it
/// has a component of another type exactly if it had one, with the value it
/// had.
pub proof fn lemma_remove_keeps_other_components(
    world: WorldView,
    entity: Entity,
    key: ComponentId,
    other: ComponentId,
)
    requires
        world.wf(),
        world.is_live(entity),
        world.has_component(entity, key),
        world.has_room_for(without_type(world.shape_of(entity), key)),
        other != key,
    ensures
        world.remove_component(entity, key).has_component(entity, other) == world.has_component(
            entity,
            other,
        ),
        world.has_component(entity, other) ==> world.remove_component(entity, key).component(
            entity,
            other,
        ) == world.component(entity, other),
{
    lemma_live_located(world, entity);
    lemma_remove_component_wf(world, entity, key);
    let source = world.archetype_of(entity);
    let after = world.remove_component(entity, key);
    lemma_position(source.shape(), key);
    lemma_position(source.shape(), other);
    lemma_without_type_other(source.shape(), key, other);
    lemma_without_type(source.shape(), key);
    let values = world.components_of(entity).remove(source.column_of(key));
    lemma_migrate_wf(world, entity, without_type(source.shape(), key), values);
    lemma_live_located(after, entity);
    if source.has(other) {
        let target = after.archetype_of(entity);
        assert(after.components_of(entity)[target.column_of(other)] == world.components_of(
            entity,
        )[source.column_of(other)]);
    }
}

/// The entity that `operation` is about, if it is about one that exists
/// already.
pub open spec fn target(operation: Operation) -> Option<Entity> {
    match operation {
        Operation::Spawn { types, values } => None,
        Operation::Despawn { entity } => Some(entity),
        Operation::AddComponent { entity, key, value } => Some(entity),
        Operation::RemoveComponent { entity, key } => Some(entity),
    }
}

/// An operation touches no entity but its own: every other live entity is
/// live afterwards, with the shape and the components it had. (Its row may
/// have moved.)
pub proof fn lemma_other_entities_kept(world: WorldView, operation: Operation, other: Entity)
    requires
        world.wf(),
        permits(world, operation),
        world.is_live(other),
        target(operation) matches Some(entity) ==> entity.index != other.index,
    ensures
        apply(world, operation).is_live(other),
        apply(world, operation).shape_of(other) == world.shape_of(other),
        apply(world, operation).components_of(other) == world.components_of(other),
{
    lemma_live_located(world, other);
    lemma_apply_wf(world, operation);
    let after = apply(world, operation);
    let home = world.archetype_of(other);
    assert forall|c: int| 0 <= c < home.columns.len() implies (#[trigger] home.columns[c]).data.len()
        == home.rows() by {}
    match operation {
        Operation::Spawn { types, values } => {
            lemma_spawn_wf(world, types, values);
            lemma_shape_index(world, types);
            assert(after.components_of(other) =~= world.components_of(other));
            assert(after.shape_of(other) =~= world.shape_of(other));
        },
        Operation::Despawn { entity } => {
            if world.is_live(entity) {
                lemma_live_located(world, entity);
                lemma_other_kept_when_row_leaves(world, entity, after, other);
            }
        },
        Operation::AddComponent { entity, key, value } => {
            if world.is_live(entity) {
                lemma_live_located(world, entity);
                let source = world.archetype_of(entity);
                if source.has(key) {
                    lemma_position(source.shape(), key);
                    assert(after.components_of(other) =~= world.components_of(other));
                    assert(after.shape_of(other) =~= world.shape_of(other));
                } else {
                    lemma_position(source.shape(), key);
                    lemma_with_type(source.shape(), key);
                    let shape = with_type(source.shape(), key);
                    let values = world.components_of(entity).insert(source.column_of(key), value);
                    lemma_migrate_wf(world, entity, shape, values);
                    lemma_other_kept_when_row_moves(world, entity, shape, values, other);
                }
            }
        },
        Operation::RemoveComponent { entity, key } => {
            if world.is_live(entity) && world.has_component(entity, key) {
                lemma_live_located(world, entity);
                let source = world.archetype_of(entity);
                lemma_without_type(source.shape(), key);
                lemma_position(source.shape(), key);
                let shape = without_type(source.shape(), key);
                let values = world.components_of(entity).remove(source.column_of(key));
                lemma_migrate_wf(world, entity, shape, values);
                lemma_other_kept_when_row_moves(world, entity, shape, values, other);
            }
        },
    }
}

/// Despawning one entity keeps every other live entity as it is.
proof fn lemma_other_kept_when_row_leaves(
    world: WorldView,
    entity: Entity,
    after: WorldView,
    other: Entity,
)
    requires
        world.wf(),
        world.is_live(entity),
        world.is_live(other),
        entity.index != other.index,
        after == world.despawn(entity),
    ensures
        after.is_live(other),
        after.shape_of(other) == world.shape_of(other),
        after.components_of(other) == world.components_of(other),
{
    lemma_live_located(world, entity);
    lemma_live_located(world, other);
    let a = world.archetype_index(entity);
    let row = world.row_index(entity);
    let source = world.archetypes[a];
    let last = source.rows() - 1;
    assert(world.row_owned(a, last));
    assert(world.row_owned(a, row));
    lemma_swap_remove_wf(source, row);
    let home = world.archetype_of(other);
    assert forall|c: int| 0 <= c < home.columns.len() implies (#[trigger] home.columns[c]).data.len()
        == home.rows() by {}
    assert(after.shape_of(other) =~= world.shape_of(other));
    assert(after.components_of(other) =~= world.components_of(other));
}

/// Moving the row of one entity to another archetype keeps every other live
/// entity as it is.
proof fn lemma_other_kept_when_row_moves(
    world: WorldView,
    entity: Entity,
    shape: Seq<ComponentId>,
    values: Seq<ErasedValue>,
    other: Entity,
)
    requires
        world.wf(),
        world.is_live(entity),
        world.is_live(other),
        entity.index != other.index,
        is_shape(shape),
        shape != world.shape_of(entity),
        values.len() == shape.len(),
        world.has_room_for(shape),
    ensures
        world.migrate(entity, shape, values).is_live(other),
        world.migrate(entity, shape, values).shape_of(other) == world.shape_of(other),
        world.migrate(entity, shape, values).components_of(other) == world.components_of(other),
{
    lemma_live_located(world, entity);
    lemma_live_located(world, other);
    lemma_shape_index(world, shape);
    let after = world.migrate(entity, shape, values);
    let a = world.archetype_index(entity);
    let b = world.shape_index(shape);
    let row = world.row_index(entity);
    let source = world.archetypes[a];
    let before = world.with_shape(shape);
    let target = before[b];
    let last = source.rows() - 1;
    assert(world.row_owned(a, last));
    assert(world.row_owned(a, row));
    lemma_swap_remove_wf(source, row);
    lemma_push_row_wf(target, entity.index, values);
    let home = world.archetype_of(other);
    assert forall|c: int| 0 <= c < home.columns.len() implies (#[trigger] home.columns[c]).data.len()
        == home.rows() by {}
    assert(after.shape_of(other) =~= world.shape_of(other));
    assert(after.components_of(other) =~= world.components_of(other));
}

} // verus!
