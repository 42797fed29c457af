//! Proofs that every operation keeps a world well formed.

use vstd::prelude::*;
use crate::archetype::ArchetypeView;
use crate::component::ComponentId;
use crate::component::ErasedValue;
use crate::entity::Entity;
use crate::entity::EntityId;
use crate::model::WorldView;
use crate::shape::is_shape;
use crate::shape::lemma_position;
use crate::shape::lemma_with_type;
use crate::shape::lemma_without_type;
use crate::shape::with_type;
use crate::shape::without_type;

verus! {

/// Removing a row keeps an archetype well formed, keeps its shape and takes one
/// row away.
pub proof fn lemma_swap_remove_wf(archetype: ArchetypeView, row: int)
    requires
        archetype.wf(),
        0 <= row < archetype.rows(),
    ensures
        archetype.swap_remove(row).wf(),
        archetype.swap_remove(row).shape() == archetype.shape(),
        archetype.swap_remove(row).rows() == archetype.rows() - 1,
{
    let after = archetype.swap_remove(row);
    assert(after.shape() =~= archetype.shape());
    assert forall|c: int| 0 <= c < after.columns.len() implies (#[trigger] after.columns[c]).data.len()
        == after.entities.len() by {
        assert(archetype.columns[c].data.len() == archetype.entities.len());
    }
}

/// Appending a row with one value per column keeps an archetype well formed,
/// keeps its shape and adds one row.
pub proof fn lemma_push_row_wf(archetype: ArchetypeView, entity: EntityId, values: Seq<ErasedValue>)
    requires
        archetype.wf(),
    ensures
        archetype.push_row(entity, values).wf(),
        archetype.push_row(entity, values).shape() == archetype.shape(),
        archetype.push_row(entity, values).rows() == archetype.rows() + 1,
{
    let after = archetype.push_row(entity, values);
    assert(after.shape() =~= archetype.shape());
    assert forall|c: int| 0 <= c < after.columns.len() implies (#[trigger] after.columns[c]).data.len()
        == after.entities.len() by {
        assert(archetype.columns[c].data.len() == archetype.entities.len());
    }
}

/// Replacing one value keeps an archetype well formed and keeps its shape and
/// its entity list.
pub proof fn lemma_replace_wf(archetype: ArchetypeView, column: int, row: int, value: ErasedValue)
    requires
        archetype.wf(),
        0 <= column < archetype.columns.len(),
        0 <= row < archetype.rows(),
    ensures
        archetype.replace(column, row, value).wf(),
        archetype.replace(column, row, value).shape() == archetype.shape(),
        archetype.replace(column, row, value).entities == archetype.entities,
{
    let after = archetype.replace(column, row, value);
    assert(after.shape() =~= archetype.shape());
    assert forall|c: int| 0 <= c < after.columns.len() implies (#[trigger] after.columns[c]).data.len()
        == after.entities.len() by {
        assert(archetype.columns[c].data.len() == archetype.entities.len());
    }
}

/// The empty archetype of a shape is well formed and has that shape.
pub proof fn lemma_empty_wf(shape: Seq<ComponentId>)
    requires
        is_shape(shape),
    ensures
        ArchetypeView::empty(shape).wf(),
        ArchetypeView::empty(shape).shape() == shape,
        ArchetypeView::empty(shape).rows() == 0,
{
    assert(ArchetypeView::empty(shape).shape() =~= shape);
}

/// A list of distinct numbers below `bound` has at most `bound` entries.
pub proof fn lemma_distinct_below(numbers: Seq<EntityId>, bound: nat)
    requires
        numbers.no_duplicates(),
        forall|i: int| 0 <= i < numbers.len() ==> numbers[i] < bound,
    ensures
        numbers.len() <= bound,
    decreases bound,
{
    if bound == 0 {
        if numbers.len() > 0 {
            assert(numbers[0] < bound);
        }
    } else {
        let top = (bound - 1) as nat;
        if exists|k: int| 0 <= k < numbers.len() && numbers[k] == top {
            let k = choose|k: int| 0 <= k < numbers.len() && numbers[k] == top;
            let rest = numbers.remove(k);
            assert forall|i: int, j: int| 0 <= i < rest.len() && 0 <= j < rest.len() && i != j implies rest[i]
                != rest[j] by {
                let oi = if i < k { i } else { i + 1 };
                let oj = if j < k { j } else { j + 1 };
                assert(rest[i] == numbers[oi] && rest[j] == numbers[oj]);
            }
            assert forall|i: int| 0 <= i < rest.len() implies rest[i] < top by {
                let oi = if i < k { i } else { i + 1 };
                assert(rest[i] == numbers[oi]);
                assert(numbers[oi] != numbers[k]);
            }
            lemma_distinct_below(rest, top);
        } else {
            assert forall|i: int| 0 <= i < numbers.len() implies numbers[i] < top by {
                assert(numbers[i] < bound);
            }
            lemma_distinct_below(numbers, top);
        }
    }
}

/// In a well-formed world no archetype lists an entity twice.
pub proof fn lemma_rows_distinct(world: WorldView, a: int)
    requires
        world.wf(),
        0 <= a < world.archetypes.len(),
    ensures
        world.archetypes[a].entities.no_duplicates(),
{
    let rows = world.archetypes[a].entities;
    assert forall|i: int, j: int| 0 <= i < rows.len() && 0 <= j < rows.len() && i != j implies rows[i]
        != rows[j] by {
        assert(world.row_owned(a, i));
        assert(world.row_owned(a, j));
    }
}

/// In a well-formed world an archetype has at most as many rows as there are
/// slots.
pub proof fn lemma_rows_bounded(world: WorldView, a: int)
    requires
        world.wf(),
        0 <= a < world.archetypes.len(),
    ensures
        world.archetypes[a].rows() <= world.entities.len(),
{
    let rows = world.archetypes[a].entities;
    lemma_rows_distinct(world, a);
    assert forall|i: int| 0 <= i < rows.len() implies rows[i] < world.entities.len() by {
        assert(world.row_owned(a, i));
    }
    lemma_distinct_below(rows, world.entities.len());
}

/// In a well-formed world an archetype that does not list slot `spare` has
/// fewer rows than there are slots.
pub proof fn lemma_rows_bounded_spare(world: WorldView, a: int, spare: EntityId)
    requires
        world.wf(),
        0 <= a < world.archetypes.len(),
        spare < world.entities.len(),
        !world.archetypes[a].entities.contains(spare),
    ensures
        world.archetypes[a].rows() < world.entities.len(),
{
    let rows = world.archetypes[a].entities;
    let more = rows.push(spare);
    lemma_rows_distinct(world, a);
    assert forall|i: int, j: int| 0 <= i < more.len() && 0 <= j < more.len() && i != j implies more[i]
        != more[j] by {
        if i < rows.len() && j < rows.len() {
            assert(rows[i] != rows[j]);
        } else if i < rows.len() {
            assert(rows.contains(rows[i]));
        } else {
            assert(rows.contains(rows[j]));
        }
    }
    assert forall|i: int| 0 <= i < more.len() implies more[i] < world.entities.len() by {
        if i < rows.len() {
            assert(world.row_owned(a, i));
        }
    }
    lemma_distinct_below(more, world.entities.len());
}

/// In a well-formed world `shape_index` is the one archetype of that shape, if
/// there is one.
pub proof fn lemma_shape_index(world: WorldView, shape: Seq<ComponentId>)
    requires
        world.wf(),
    ensures
        0 <= world.shape_index(shape) <= world.archetypes.len(),
        world.has_shape(shape) <==> world.shape_index(shape) < world.archetypes.len(),
        world.has_shape(shape) ==> world.archetypes[world.shape_index(shape)].shape() == shape,
        forall|a: int|
            0 <= a < world.archetypes.len() && (#[trigger] world.archetypes[a]).shape() == shape
                ==> a == world.shape_index(shape),
        world.with_shape(shape).len() > world.shape_index(shape),
        world.with_shape(shape)[world.shape_index(shape)].shape() == shape,
        world.with_shape(shape)[world.shape_index(shape)].wf() <== is_shape(shape),
{
    let found = world.shape_index(shape);
    assert forall|a: int|
        0 <= a < world.archetypes.len() && (#[trigger] world.archetypes[a]).shape()
            == shape implies a == found by {
        assert(world.has_shape(shape));
        if a < found {
            assert(world.archetypes[a].shape() != world.archetypes[found].shape());
        } else if found < a {
            assert(world.archetypes[found].shape() != world.archetypes[a].shape());
        }
    }
    if world.has_shape(shape) {
        assert(world.archetypes[found].wf());
    } else {
        assert(ArchetypeView::empty(shape).shape() =~= shape);
        if is_shape(shape) {
            lemma_empty_wf(shape);
        }
    }
}

/// Adding the empty archetype of a shape that no archetype has keeps the world
/// well formed, and what spawning into that shape or moving a row to it gives
/// is the same before and after.
pub proof fn lemma_prepare_wf(world: WorldView, shape: Seq<ComponentId>)
    requires
        world.wf(),
        is_shape(shape),
        world.has_shape(shape) || world.archetypes.len() < EntityId::MAX,
    ensures
        world.prepare(shape).wf(),
        world.prepare(shape).has_shape(shape),
        world.prepare(shape).shape_index(shape) == world.shape_index(shape),
        world.prepare(shape).with_shape(shape) == world.with_shape(shape),
        forall|values: Seq<ErasedValue>| #[trigger]
            world.prepare(shape).spawn(shape, values) == world.spawn(shape, values),
        forall|entity: Entity, values: Seq<ErasedValue>| #[trigger]
            world.prepare(shape).migrate(entity, shape, values) == world.migrate(
                entity,
                shape,
                values,
            ),
{
    let after = world.prepare(shape);
    let found = world.shape_index(shape);
    lemma_shape_index(world, shape);
    assert(after.archetypes[found].shape() == shape);
    assert(after.has_shape(shape));
    assert forall|x: int| 0 <= x < after.archetypes.len() implies (#[trigger] after.archetypes[x]).wf() by {
        if x < world.archetypes.len() {
            assert(world.archetypes[x].wf());
        }
    }
    assert forall|x: int, y: int| 0 <= x < y < after.archetypes.len() implies (
    #[trigger] after.archetypes[x]).shape() != (#[trigger] after.archetypes[y]).shape() by {
        if y < world.archetypes.len() {
            assert(world.archetypes[x].shape() != world.archetypes[y].shape());
        } else {
            assert(world.archetypes[x].shape() == after.archetypes[x].shape());
        }
    }
    assert forall|k: int| 0 <= k < after.free.len() implies after.is_free(
        #[trigger] after.free[k] as int,
    ) by {
        assert(world.is_free(world.free[k] as int));
    }
    assert forall|i: int| #[trigger] after.is_free(i) implies after.free.contains(i as EntityId) by {
        assert(world.is_free(i));
    }
    assert forall|i: int| #[trigger] after.occupied(i) implies after.located(i) by {
        assert(world.occupied(i));
        assert(world.located(i));
    }
    assert forall|x: int, r: int|
        0 <= x < after.archetypes.len() && 0 <= r < after.archetypes[x].entities.len() implies #[trigger] after.row_owned(
        x,
        r,
    ) by {
        if x < world.archetypes.len() {
            assert(world.row_owned(x, r));
        }
    }
    lemma_shape_index(after, shape);
}

/// The entity that a live handle names sits in the row that the table records
/// for it.
pub proof fn lemma_live_located(world: WorldView, entity: Entity)
    requires
        world.wf(),
        world.is_live(entity),
    ensures
        0 <= world.archetype_index(entity) < world.archetypes.len(),
        0 <= world.row_index(entity) < world.archetype_of(entity).rows(),
        world.archetype_of(entity).entities[world.row_index(entity)] == entity.index,
        world.archetype_of(entity).wf(),
        !world.free.contains(entity.index),
{
    assert(world.occupied(entity.index as int));
    assert(world.located(entity.index as int));
    assert(world.archetypes[world.archetype_index(entity)].wf());
    if world.free.contains(entity.index) {
        let k = choose|k: int| 0 <= k < world.free.len() && world.free[k] == entity.index;
        assert(world.is_free(world.free[k] as int));
    }
}

/// Despawning a live entity keeps the world well formed, and the handle is
/// dead afterwards.
pub proof fn lemma_despawn_wf(world: WorldView, entity: Entity)
    requires
        world.wf(),
        world.is_live(entity),
    ensures
        world.despawn(entity).wf(),
        !world.despawn(entity).is_live(entity),
{
    lemma_live_located(world, entity);
    let after = world.despawn(entity);
    let a = world.archetype_index(entity);
    let row = world.row_index(entity);
    let source = world.archetypes[a];
    let last = source.rows() - 1;
    let moved = source.entities.last() as int;
    let index = entity.index as int;
    assert(world.row_owned(a, last));
    assert(world.row_owned(a, row));
    lemma_swap_remove_wf(source, row);
    assert(moved == index <==> row == last);

    assert forall|x: int| 0 <= x < after.archetypes.len() implies (#[trigger] after.archetypes[x]).wf() by {
        assert(world.archetypes[x].wf());
    }
    assert forall|x: int, y: int| 0 <= x < y < after.archetypes.len() implies (
    #[trigger] after.archetypes[x]).shape() != (#[trigger] after.archetypes[y]).shape() by {
        assert(world.archetypes[x].shape() != world.archetypes[y].shape());
    }
    assert(after.free.no_duplicates()) by {
        assert forall|i: int, j: int|
            0 <= i < after.free.len() && 0 <= j < after.free.len() && i != j implies after.free[i]
            != after.free[j] by {
            if i < world.free.len() && j < world.free.len() {
                assert(world.free[i] != world.free[j]);
            } else if i < world.free.len() {
                assert(world.free.contains(world.free[i]));
            } else {
                assert(world.free.contains(world.free[j]));
            }
        }
    }
    assert forall|k: int| 0 <= k < after.free.len() implies after.is_free(
        #[trigger] after.free[k] as int,
    ) by {
        if k < world.free.len() {
            assert(world.is_free(world.free[k] as int));
        }
    }
    assert forall|i: int| #[trigger] after.is_free(i) implies after.free.contains(i as EntityId) by {
        if i == index {
            assert(after.free[world.free.len() as int] == i as EntityId);
        } else {
            assert(world.is_free(i));
            let k = choose|k: int| 0 <= k < world.free.len() && world.free[k] == i as EntityId;
            assert(after.free[k] == i as EntityId);
        }
    }
    assert forall|i: int| #[trigger] after.occupied(i) implies after.located(i) by {
        assert(world.occupied(i));
        assert(world.located(i));
        if i != moved {
            let there = world.entities[i].location;
            if there.archetype_index == a {
                assert(world.row_owned(a, there.index_in_archetype as int));
            }
        }
    }
    assert forall|x: int, r: int|
        0 <= x < after.archetypes.len() && 0 <= r < after.archetypes[x].entities.len() implies #[trigger] after.row_owned(
        x,
        r,
    ) by {
        if x == a {
            if r == row {
                assert(world.row_owned(a, last));
            } else {
                assert(world.row_owned(a, r));
            }
        } else {
            assert(world.row_owned(x, r));
        }
    }
}

/// Spawning keeps the world well formed, and the handle it returns is live,
/// has the components it was spawned with and sits in the archetype of their
/// shape.
pub proof fn lemma_spawn_wf(world: WorldView, types: Seq<ComponentId>, values: Seq<ErasedValue>)
    requires
        world.wf(),
        is_shape(types),
        values.len() == types.len(),
        world.free.len() > 0 || world.entities.len() < EntityId::MAX,
        world.has_shape(types) || world.archetypes.len() < EntityId::MAX,
    ensures
        world.spawn(types, values).wf(),
        world.spawn(types, values).is_live(world.spawned()),
        !world.is_live(world.spawned()),
        world.spawn(types, values).archetype_index(world.spawned()) == world.shape_index(types),
        world.spawn(types, values).shape_of(world.spawned()) == types,
        world.spawn(types, values).components_of(world.spawned()) == values,
{
    let after = world.spawn(types, values);
    let entity = world.spawned();
    let index = entity.index as int;
    let a = world.shape_index(types);
    let before = world.with_shape(types);
    let target = before[a];
    lemma_shape_index(world, types);
    lemma_push_row_wf(target, entity.index, values);
    if world.free.len() > 0 {
        assert(world.is_free(world.free[world.free.len() - 1] as int));
    }
    assert(target.rows() <= world.entities.len()) by {
        if a < world.archetypes.len() {
            lemma_rows_bounded(world, a);
        } else {
            lemma_empty_wf(types);
        }
    }
    assert(after.archetypes[a].entities[target.rows() as int] == entity.index);
    assert(after.components_of(entity) =~= values) by {
        assert forall|c: int| 0 <= c < target.columns.len() implies (#[trigger] target.columns[c]).data.len()
            == target.rows() by {}
    }

    assert forall|x: int| 0 <= x < after.archetypes.len() implies (#[trigger] after.archetypes[x]).wf() by {
        if x != a {
            assert(world.archetypes[x].wf());
        }
    }
    assert forall|x: int, y: int| 0 <= x < y < after.archetypes.len() implies (
    #[trigger] after.archetypes[x]).shape() != (#[trigger] after.archetypes[y]).shape() by {
        if y < world.archetypes.len() {
            assert(world.archetypes[x].shape() != world.archetypes[y].shape());
        } else {
            assert(world.archetypes[x].shape() == before[x].shape());
        }
    }
    assert forall|k: int| 0 <= k < after.free.len() implies after.is_free(
        #[trigger] after.free[k] as int,
    ) by {
        assert(world.is_free(world.free[k] as int));
        assert(world.free[k] != world.free[world.free.len() - 1]);
    }
    assert forall|i: int| #[trigger] after.is_free(i) implies after.free.contains(i as EntityId) by {
        assert(world.is_free(i));
        let k = choose|k: int| 0 <= k < world.free.len() && world.free[k] == i as EntityId;
        assert(after.free[k] == i as EntityId);
    }
    assert forall|i: int| #[trigger] after.occupied(i) implies after.located(i) by {
        if i != index {
            assert(world.occupied(i));
            assert(world.located(i));
        }
    }
    assert forall|x: int, r: int|
        0 <= x < after.archetypes.len() && 0 <= r < after.archetypes[x].entities.len() implies #[trigger] after.row_owned(
        x,
        r,
    ) by {
        if x == a && r == target.rows() {
        } else {
            assert(world.row_owned(x, r));
        }
    }
}

/// Writing a component that a live entity has keeps the world well formed and
/// changes nothing but that value.
pub proof fn lemma_set_component_wf(
    world: WorldView,
    entity: Entity,
    key: ComponentId,
    value: ErasedValue,
)
    requires
        world.wf(),
        world.is_live(entity),
        world.has_component(entity, key),
    ensures
        world.set_component(entity, key, value).wf(),
        world.set_component(entity, key, value).is_live(entity),
        world.set_component(entity, key, value).location(entity) == world.location(entity),
        world.set_component(entity, key, value).shape_of(entity) == world.shape_of(entity),
        world.set_component(entity, key, value).component(entity, key) == value,
{
    lemma_live_located(world, entity);
    let after = world.set_component(entity, key, value);
    let a = world.archetype_index(entity);
    let source = world.archetypes[a];
    lemma_position(source.shape(), key);
    let column = source.column_of(key);
    assert(source.columns[column].data.len() == source.entities.len());
    lemma_replace_wf(source, column, world.row_index(entity), value);
    assert forall|x: int| 0 <= x < after.archetypes.len() implies (#[trigger] after.archetypes[x]).wf() by {
        assert(world.archetypes[x].wf());
    }
    assert forall|x: int, y: int| 0 <= x < y < after.archetypes.len() implies (
    #[trigger] after.archetypes[x]).shape() != (#[trigger] after.archetypes[y]).shape() by {
        assert(world.archetypes[x].shape() != world.archetypes[y].shape());
    }
    assert forall|k: int| 0 <= k < after.free.len() implies after.is_free(
        #[trigger] after.free[k] as int,
    ) by {
        assert(world.is_free(world.free[k] as int));
    }
    assert forall|i: int| #[trigger] after.is_free(i) implies after.free.contains(i as EntityId) by {
        assert(world.is_free(i));
    }
    assert forall|i: int| #[trigger] after.occupied(i) implies after.located(i) by {
        assert(world.occupied(i));
        assert(world.located(i));
    }
    assert forall|x: int, r: int|
        0 <= x < after.archetypes.len() && 0 <= r < after.archetypes[x].entities.len() implies #[trigger] after.row_owned(
        x,
        r,
    ) by {
        assert(world.row_owned(x, r));
    }
}

/// A world that differs from a well-formed one in the value of one component
/// only is well formed, and its archetypes have the shapes they had.
pub proof fn lemma_same_but_component_wf(
    world: WorldView,
    after: WorldView,
    entity: Entity,
    key: ComponentId,
)
    requires
        world.wf(),
        world.is_live(entity),
        world.same_but_component(after, entity, key),
    ensures
        after.wf(),
        forall|a: int|
            0 <= a < world.archetypes.len() ==> (#[trigger] after.archetypes[a]).shape()
                == world.archetypes[a].shape(),
        !world.has_component(entity, key) ==> after == world,
        world.has_component(entity, key) ==> after == world.set_component(
            entity,
            key,
            after.component(entity, key),
        ),
{
    lemma_live_located(world, entity);
    let a = world.archetype_index(entity);
    let row = world.row_index(entity);
    let source = world.archetypes[a];
    if after.archetypes[a] == source {
        assert(after =~~= world);
        if world.has_component(entity, key) {
            lemma_position(source.shape(), key);
            let column = source.column_of(key);
            assert(source.columns[column].data.len() == source.entities.len());
            assert(source.replace(column, row, source.columns[column].data[row]) =~~= source);
            assert(world.set_component(entity, key, world.component(entity, key)) =~~= world);
        }
    } else {
        lemma_position(source.shape(), key);
        let column = source.column_of(key);
        let value = choose|value: ErasedValue|
            after.archetypes[a] == #[trigger] source.replace(column, row, value);
        assert(source.columns[column].data.len() == source.entities.len());
        lemma_replace_wf(source, column, row, value);
        lemma_set_component_wf(world, entity, key, value);
        assert(after =~~= world.set_component(entity, key, value));
        assert(after.component(entity, key) == value);
    }
}

/// Writing a component changes that component only, and writing the value
/// that is there changes nothing.
pub proof fn lemma_set_component_same_but(world: WorldView, entity: Entity, key: ComponentId)
    requires
        world.wf(),
        world.is_live(entity),
        world.has_component(entity, key),
    ensures
        forall|value: ErasedValue|
            world.same_but_component(
                #[trigger] world.set_component(entity, key, value),
                entity,
                key,
            ),
        world.set_component(entity, key, world.component(entity, key)) == world,
{
    lemma_same_but_component_wf(world, world, entity, key);
    assert forall|value: ErasedValue|
        world.same_but_component(#[trigger] world.set_component(entity, key, value), entity, key) by {
        let source = world.archetype_of(entity);
        let after = world.set_component(entity, key, value);
        assert(after.archetypes[world.archetype_index(entity)] == source.replace(
            source.column_of(key),
            world.row_index(entity),
            value,
        ));
    }
}

/// Moving a live entity's row to the archetype of another shape keeps the
/// world well formed. Afterwards the entity is live as before, sits in the
/// archetype of that shape and holds the values it was moved with.
pub proof fn lemma_migrate_wf(
    world: WorldView,
    entity: Entity,
    shape: Seq<ComponentId>,
    values: Seq<ErasedValue>,
)
    requires
        world.wf(),
        world.is_live(entity),
        is_shape(shape),
        shape != world.shape_of(entity),
        values.len() == shape.len(),
        world.has_shape(shape) || world.archetypes.len() < EntityId::MAX,
    ensures
        world.migrate(entity, shape, values).wf(),
        world.migrate(entity, shape, values).is_live(entity),
        world.migrate(entity, shape, values).archetype_index(entity) == world.shape_index(shape),
        world.migrate(entity, shape, values).shape_of(entity) == shape,
        world.migrate(entity, shape, values).components_of(entity) == values,
{
    lemma_live_located(world, entity);
    lemma_shape_index(world, shape);
    let after = world.migrate(entity, shape, values);
    let index = entity.index as int;
    let a = world.archetype_index(entity);
    let row = world.row_index(entity);
    let b = world.shape_index(shape);
    let before = world.with_shape(shape);
    let source = world.archetypes[a];
    let target = before[b];
    let last = source.rows() - 1;
    let moved = source.entities.last() as int;
    assert(a != b);
    assert(before[a] == source);
    assert(world.row_owned(a, last));
    assert(world.row_owned(a, row));
    assert(moved == index <==> row == last);
    lemma_swap_remove_wf(source, row);
    lemma_push_row_wf(target, entity.index, values);
    assert(target.rows() < world.entities.len()) by {
        if b < world.archetypes.len() {
            if target.entities.contains(entity.index) {
                let r = choose|r: int| 0 <= r < target.entities.len() && target.entities[r] == entity.index;
                assert(world.row_owned(b, r));
            }
            lemma_rows_bounded_spare(world, b, entity.index);
        } else {
            lemma_empty_wf(shape);
        }
    }
    assert(after.archetypes[b].entities[target.rows() as int] == entity.index);
    assert(after.components_of(entity) =~= values) by {
        assert forall|c: int| 0 <= c < target.columns.len() implies (#[trigger] target.columns[c]).data.len()
            == target.rows() by {}
    }

    assert forall|x: int| 0 <= x < after.archetypes.len() implies (#[trigger] after.archetypes[x]).wf() by {
        if x != a && x != b {
            assert(world.archetypes[x].wf());
        }
    }
    assert forall|x: int, y: int| 0 <= x < y < after.archetypes.len() implies (
    #[trigger] after.archetypes[x]).shape() != (#[trigger] after.archetypes[y]).shape() by {
        assert(after.archetypes[x].shape() == before[x].shape());
        assert(after.archetypes[y].shape() == before[y].shape());
        if y < world.archetypes.len() {
            assert(world.archetypes[x].shape() != world.archetypes[y].shape());
        } else {
            assert(world.archetypes[x].shape() == before[x].shape());
        }
    }
    assert forall|k: int| 0 <= k < after.free.len() implies after.is_free(
        #[trigger] after.free[k] as int,
    ) by {
        assert(world.is_free(world.free[k] as int));
    }
    assert forall|i: int| #[trigger] after.is_free(i) implies after.free.contains(i as EntityId) by {
        assert(world.is_free(i));
    }
    assert forall|i: int| #[trigger] after.occupied(i) implies after.located(i) by {
        assert(world.occupied(i));
        assert(world.located(i));
        if i != index && i != moved {
            let there = world.entities[i].location;
            if there.archetype_index == a {
                assert(world.row_owned(a, there.index_in_archetype as int));
            }
        }
    }
    assert forall|x: int, r: int|
        0 <= x < after.archetypes.len() && 0 <= r < after.archetypes[x].entities.len() implies #[trigger] after.row_owned(
        x,
        r,
    ) by {
        if x == a {
            if r == row {
                assert(world.row_owned(a, last));
            } else {
                assert(world.row_owned(a, r));
            }
        } else if x == b {
            if r < target.rows() {
                assert(world.row_owned(b, r));
            }
        } else {
            assert(world.row_owned(x, r));
        }
    }
}

/// Giving a live entity a component keeps the world well formed. Afterwards
/// the entity has that component, and its shape is the one it had with the
/// component's type added.
pub proof fn lemma_add_component_wf(
    world: WorldView,
    entity: Entity,
    key: ComponentId,
    value: ErasedValue,
)
    requires
        world.wf(),
        world.is_live(entity),
        !world.has_component(entity, key) ==> world.has_room_for(
            with_type(world.shape_of(entity), key),
        ),
    ensures
        world.add_component(entity, key, value).wf(),
        world.add_component(entity, key, value).is_live(entity),
        world.add_component(entity, key, value).has_component(entity, key),
        world.add_component(entity, key, value).component(entity, key) == value,
        world.has_component(entity, key) ==> world.add_component(entity, key, value).shape_of(entity)
            == world.shape_of(entity),
        !world.has_component(entity, key) ==> world.add_component(entity, key, value).shape_of(
            entity,
        ) == with_type(world.shape_of(entity), key),
{
    lemma_live_located(world, entity);
    let source = world.archetype_of(entity);
    if source.has(key) {
        lemma_set_component_wf(world, entity, key, value);
    } else {
        let shape = with_type(source.shape(), key);
        let values = world.components_of(entity).insert(source.column_of(key), value);
        lemma_with_type(source.shape(), key);
        lemma_position(source.shape(), key);
        lemma_migrate_wf(world, entity, shape, values);
        let after = world.migrate(entity, shape, values);
        let target = after.archetype_of(entity);
        lemma_live_located(after, entity);
        assert(after.components_of(entity)[target.column_of(key)] == value);
    }
}

/// Taking a component from a live entity that has it keeps the world well
/// formed. Afterwards the entity lacks that component, and its shape is the
/// one it had without the component's type.
pub proof fn lemma_remove_component_wf(world: WorldView, entity: Entity, key: ComponentId)
    requires
        world.wf(),
        world.is_live(entity),
        world.has_component(entity, key),
        world.has_room_for(without_type(world.shape_of(entity), key)),
    ensures
        world.remove_component(entity, key).wf(),
        world.remove_component(entity, key).is_live(entity),
        !world.remove_component(entity, key).has_component(entity, key),
        world.remove_component(entity, key).shape_of(entity) == without_type(
            world.shape_of(entity),
            key,
        ),
{
    lemma_live_located(world, entity);
    let source = world.archetype_of(entity);
    let shape = without_type(source.shape(), key);
    let values = world.components_of(entity).remove(source.column_of(key));
    lemma_without_type(source.shape(), key);
    lemma_position(source.shape(), key);
    lemma_migrate_wf(world, entity, shape, values);
}

/// What taking a component away leaves does not depend on the value that was
/// taken: writing the component first makes no difference. And writing a
/// component twice is writing the second value.
pub proof fn lemma_set_then_remove(
    world: WorldView,
    entity: Entity,
    key: ComponentId,
    value: ErasedValue,
)
    requires
        world.wf(),
        world.is_live(entity),
        world.has_component(entity, key),
    ensures
        world.set_component(entity, key, value).remove_component(entity, key)
            == world.remove_component(entity, key),
        forall|other: ErasedValue|
            (#[trigger] world.set_component(entity, key, value).set_component(entity, key, other))
                == world.set_component(entity, key, other),
{
    lemma_live_located(world, entity);
    lemma_set_component_wf(world, entity, key, value);
    let written = world.set_component(entity, key, value);
    let a = world.archetype_index(entity);
    let row = world.row_index(entity);
    let source = world.archetypes[a];
    lemma_position(source.shape(), key);
    let column = source.column_of(key);
    assert(source.columns[column].data.len() == source.entities.len());
    lemma_replace_wf(source, column, row, value);
    let shape = without_type(source.shape(), key);
    assert(written.archetypes[a] == source.replace(column, row, value));
    assert(written.components_of(entity).remove(column) =~= world.components_of(entity).remove(
        column,
    ));
    lemma_without_type(source.shape(), key);
    lemma_shape_index(world, shape);
    lemma_shape_index(written, shape);
    assert(written.has_shape(shape) <==> world.has_shape(shape)) by {
        if world.has_shape(shape) {
            let b = world.shape_index(shape);
            assert(written.archetypes[b].shape() == shape);
        }
        if written.has_shape(shape) {
            let b = written.shape_index(shape);
            assert(world.archetypes[b].shape() == shape);
        }
    }
    assert(written.shape_index(shape) == world.shape_index(shape)) by {
        if world.has_shape(shape) {
            let b = world.shape_index(shape);
            assert(written.archetypes[b].shape() == shape);
        }
    }
    assert(written.remove_component(entity, key) =~~= world.remove_component(entity, key));
    assert forall|other: ErasedValue|
        (#[trigger] written.set_component(entity, key, other)) == world.set_component(
            entity,
            key,
            other,
        ) by {
        assert(written.set_component(entity, key, other) =~~= world.set_component(
            entity,
            key,
            other,
        ));
    }
}

} // verus!
