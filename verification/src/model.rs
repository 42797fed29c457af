//! The mathematical model of a world: what it holds, when that is well formed,
//! and what each operation makes of it.

use vstd::prelude::*;
use crate::archetype::ArchetypeView;
use crate::component::ComponentId;
use crate::component::ErasedValue;
use crate::entity::Entity;
use crate::entity::EntityId;
use crate::entity::EntityInfo;
use crate::entity::EntityLocation;
use crate::shape::shape_id;
use crate::shape::with_type;
use crate::shape::without_type;

verus! {

/// The generation after `generation`, wrapping around at the top.
pub open spec fn next_generation(generation: EntityId) -> EntityId {
    if generation == EntityId::MAX {
        0
    } else {
        (generation + 1) as EntityId
    }
}

/// The location table `entities` with the entity of slot `index` at
/// `location`.
pub open spec fn relocate(entities: Seq<EntityInfo>, index: int, location: EntityLocation) -> Seq<
    EntityInfo,
> {
    entities.update(index, EntityInfo { generation: entities[index].generation, location })
}

/// What looking up the archetype of shape `shape` makes of the index `map`
/// from shape identifiers to archetypes, in the world `world`: if no
/// archetype has the shape and its identifier is not in the index, the
/// identifier is filed with the number of the next archetype. Otherwise the
/// index stays as it is: the shape has its archetype, or its identifier is
/// taken by another shape.
pub open spec fn filed(map: Map<u64, usize>, world: WorldView, shape: Seq<ComponentId>) -> Map<
    u64,
    usize,
> {
    if world.has_shape(shape) || map.contains_key(shape_id(shape)) {
        map
    } else {
        map.insert(shape_id(shape), world.archetypes.len() as usize)
    }
}

/// What a world is, mathematically.
#[verifier::ext_equal]
pub struct WorldView {
    /// The archetypes, in the order in which they were created.
    pub archetypes: Seq<ArchetypeView>,
    /// The location table: one row per slot ever allocated.
    pub entities: Seq<EntityInfo>,
    /// The stack of free slots; the last one is recycled first.
    pub free: Seq<EntityId>,
}

impl WorldView {
    /// The world without archetypes and without slots.
    pub open spec fn empty() -> WorldView {
        WorldView { archetypes: Seq::empty(), entities: Seq::empty(), free: Seq::empty() }
    }

    /// Whether slot `index` exists and an entity occupies it.
    pub open spec fn occupied(self, index: int) -> bool {
        0 <= index < self.entities.len() && self.entities[index].generation % 2 == 0
    }

    /// Whether slot `index` exists and is free.
    pub open spec fn is_free(self, index: int) -> bool {
        0 <= index < self.entities.len() && self.entities[index].generation % 2 == 1
    }

    /// Whether `entity` names a live entity: its slot is occupied and has the
    /// handle's generation.
    pub open spec fn is_live(self, entity: Entity) -> bool {
        self.occupied(entity.index as int) && self.entities[entity.index as int].generation
            == entity.generation
    }

    /// The location that the table records for the slot of `entity`.
    pub open spec fn location(self, entity: Entity) -> EntityLocation {
        self.entities[entity.index as int].location
    }

    /// The index of the archetype that the table records for `entity`.
    pub open spec fn archetype_index(self, entity: Entity) -> int {
        self.location(entity).archetype_index as int
    }

    /// The row that the table records for `entity`.
    pub open spec fn row_index(self, entity: Entity) -> int {
        self.location(entity).index_in_archetype as int
    }

    /// The archetype that holds `entity`.
    pub open spec fn archetype_of(self, entity: Entity) -> ArchetypeView {
        self.archetypes[self.archetype_index(entity)]
    }

    /// The component types of `entity`, in ascending order.
    pub open spec fn shape_of(self, entity: Entity) -> Seq<ComponentId> {
        self.archetype_of(entity).shape()
    }

    /// Whether `entity` has a component of type `key`.
    pub open spec fn has_component(self, entity: Entity, key: ComponentId) -> bool {
        self.archetype_of(entity).has(key)
    }

    /// The component of type `key` of `entity`.
    pub open spec fn component(self, entity: Entity, key: ComponentId) -> ErasedValue {
        let archetype = self.archetype_of(entity);
        archetype.columns[archetype.column_of(key)].data[self.row_index(entity)]
    }

    /// The components of `entity`, in the order of their types.
    pub open spec fn components_of(self, entity: Entity) -> Seq<ErasedValue> {
        self.archetype_of(entity).row(self.row_index(entity))
    }

    /// The location table points slot `index` at a row that holds `index`.
    pub open spec fn located(self, index: int) -> bool {
        let location = self.entities[index].location;
        &&& location.archetype_index < self.archetypes.len()
        &&& location.index_in_archetype < self.archetypes[location.archetype_index as int].rows()
        &&& self.archetypes[location.archetype_index as int].entities[location.index_in_archetype as int]
            == index
    }

    /// Row `row` of archetype `a` holds an occupied slot whose location is
    /// this row.
    pub open spec fn row_owned(self, a: int, row: int) -> bool {
        let index = self.archetypes[a].entities[row] as int;
        &&& self.occupied(index)
        &&& self.entities[index].location.archetype_index == a
        &&& self.entities[index].location.index_in_archetype == row
    }

    /// A world is well formed when
    /// - slot, archetype and row numbers fit the index type,
    /// - every archetype is well formed: its columns are sorted by type and as
    ///   long as its entity list,
    /// - no two archetypes have the same shape,
    /// - the free stack lists each free slot once and nothing else,
    /// - the location of every occupied slot is a row that holds that slot,
    ///   and every row holds an occupied slot whose location is that row.
    pub open spec fn wf(self) -> bool {
        &&& self.entities.len() <= EntityId::MAX
        &&& self.archetypes.len() <= EntityId::MAX
        &&& forall|a: int| 0 <= a < self.archetypes.len() ==> (#[trigger] self.archetypes[a]).wf()
        &&& forall|a: int, b: int|
            0 <= a < b < self.archetypes.len() ==> (#[trigger] self.archetypes[a]).shape() != (
            #[trigger] self.archetypes[b]).shape()
        &&& self.free.no_duplicates()
        &&& forall|k: int| 0 <= k < self.free.len() ==> self.is_free(#[trigger] self.free[k] as int)
        &&& forall|i: int| #[trigger] self.is_free(i) ==> self.free.contains(i as EntityId)
        &&& forall|i: int| #[trigger] self.occupied(i) ==> self.located(i)
        &&& forall|a: int, row: int|
            0 <= a < self.archetypes.len() && 0 <= row < self.archetypes[a].entities.len()
                ==> #[trigger] self.row_owned(a, row)
    }

    /// Whether some archetype has shape `shape`.
    pub open spec fn has_shape(self, shape: Seq<ComponentId>) -> bool {
        exists|a: int| 0 <= a < self.archetypes.len() && (#[trigger] self.archetypes[a]).shape() == shape
    }

    /// The index of the archetype of shape `shape`: of the one that has it, or
    /// else the index that the next new archetype gets.
    pub open spec fn shape_index(self, shape: Seq<ComponentId>) -> int {
        if self.has_shape(shape) {
            choose|a: int| 0 <= a < self.archetypes.len() && (#[trigger] self.archetypes[a]).shape() == shape
        } else {
            self.archetypes.len() as int
        }
    }

    /// The archetypes, with an empty one of shape `shape` at the end if none
    /// has that shape.
    pub open spec fn with_shape(self, shape: Seq<ComponentId>) -> Seq<ArchetypeView> {
        if self.has_shape(shape) {
            self.archetypes
        } else {
            self.archetypes.push(ArchetypeView::empty(shape))
        }
    }

    /// Whether the world can hold an archetype of shape `shape`: it has one, or
    /// the number of the next archetype still fits the index type.
    pub open spec fn has_room_for(self, shape: Seq<ComponentId>) -> bool {
        self.has_shape(shape) || self.archetypes.len() < EntityId::MAX
    }

    /// The world with an empty archetype of shape `shape` at the end, if none
    /// has that shape.
    pub open spec fn prepare(self, shape: Seq<ComponentId>) -> WorldView {
        WorldView { archetypes: self.with_shape(shape), entities: self.entities, free: self.free }
    }

    /// The handle that the next spawn returns: the slot on top of the free
    /// stack with its next generation, or else a new slot with generation 0.
    pub open spec fn spawned(self) -> Entity {
        if self.free.len() > 0 {
            Entity {
                index: self.free.last(),
                generation: next_generation(self.entities[self.free.last() as int].generation),
            }
        } else {
            Entity { index: self.entities.len() as EntityId, generation: 0 }
        }
    }

    /// The world after spawning an entity with components `values` of types
    /// `types`: a new last row in the archetype of shape `types`.
    pub open spec fn spawn(self, types: Seq<ComponentId>, values: Seq<ErasedValue>) -> WorldView {
        let entity = self.spawned();
        let a = self.shape_index(types);
        let archetypes = self.with_shape(types);
        let info = EntityInfo {
            generation: entity.generation,
            location: EntityLocation {
                archetype_index: a as EntityId,
                index_in_archetype: archetypes[a].rows() as EntityId,
            },
        };
        WorldView {
            archetypes: archetypes.update(a, archetypes[a].push_row(entity.index, values)),
            entities: if self.free.len() > 0 {
                self.entities.update(entity.index as int, info)
            } else {
                self.entities.push(info)
            },
            free: if self.free.len() > 0 {
                self.free.drop_last()
            } else {
                self.free
            },
        }
    }

    /// The world after despawning the live entity `entity`: its slot moves to
    /// the next generation and onto the free stack, its row leaves its
    /// archetype, and the entity of the last row, which took its place, is
    /// located there.
    pub open spec fn despawn(self, entity: Entity) -> WorldView {
        let location = self.location(entity);
        let a = location.archetype_index as int;
        let moved = self.archetypes[a].entities.last();
        let freed = EntityInfo { generation: next_generation(entity.generation), location };
        WorldView {
            archetypes: self.archetypes.update(
                a,
                self.archetypes[a].swap_remove(location.index_in_archetype as int),
            ),
            entities: relocate(self.entities.update(entity.index as int, freed), moved as int, location),
            free: self.free.push(entity.index),
        }
    }

    /// The world after moving the row of the live entity `entity` to the
    /// archetype of shape `shape`, where it holds `values`: the row leaves its
    /// archetype, the entity of the last row there takes its place, and the
    /// entity gets a new last row in the other archetype.
    pub open spec fn migrate(
        self,
        entity: Entity,
        shape: Seq<ComponentId>,
        values: Seq<ErasedValue>,
    ) -> WorldView {
        let location = self.location(entity);
        let a = location.archetype_index as int;
        let b = self.shape_index(shape);
        let archetypes = self.with_shape(shape);
        let moved = archetypes[a].entities.last();
        let destination = EntityLocation {
            archetype_index: b as EntityId,
            index_in_archetype: archetypes[b].rows() as EntityId,
        };
        WorldView {
            archetypes: archetypes.update(
                a,
                archetypes[a].swap_remove(location.index_in_archetype as int),
            ).update(b, archetypes[b].push_row(entity.index, values)),
            entities: relocate(
                relocate(self.entities, moved as int, location),
                entity.index as int,
                destination,
            ),
            free: self.free,
        }
    }

    /// The world after giving the live entity `entity` the component `value`
    /// of type `key`. If it has one of that type, `value` takes its place and
    /// nothing moves. Otherwise the entity moves to the archetype of its shape
    /// with `key` added.
    pub open spec fn add_component(self, entity: Entity, key: ComponentId, value: ErasedValue) -> WorldView {
        let source = self.archetype_of(entity);
        let column = source.column_of(key);
        if source.has(key) {
            WorldView {
                archetypes: self.archetypes.update(
                    self.archetype_index(entity),
                    source.replace(column, self.row_index(entity), value),
                ),
                entities: self.entities,
                free: self.free,
                }
        } else {
            self.migrate(
                entity,
                with_type(source.shape(), key),
                self.components_of(entity).insert(column, value),
            )
        }
    }

    /// The world after taking the component of type `key` from the live entity
    /// `entity`, which has one: the entity moves to the archetype of its shape
    /// without `key`.
    pub open spec fn remove_component(self, entity: Entity, key: ComponentId) -> WorldView {
        let source = self.archetype_of(entity);
        self.migrate(
            entity,
            without_type(source.shape(), key),
            self.components_of(entity).remove(source.column_of(key)),
        )
    }

    /// The world with `value` as the component of type `key` of the live entity
    /// `entity`, which has one of that type.
    pub open spec fn set_component(self, entity: Entity, key: ComponentId, value: ErasedValue) -> WorldView {
        let source = self.archetype_of(entity);
        WorldView {
            archetypes: self.archetypes.update(
                self.archetype_index(entity),
                source.replace(source.column_of(key), self.row_index(entity), value),
            ),
            entities: self.entities,
            free: self.free,
        }
    }

    /// Whether `after` is this world, but for the value of the component of
    /// type `key` of the live entity `entity`.
    pub open spec fn same_but_component(self, after: WorldView, entity: Entity, key: ComponentId) -> bool {
        let a = self.archetype_index(entity);
        let source = self.archetype_of(entity);
        &&& after.entities == self.entities
        &&& after.free == self.free
        &&& after.archetypes.len() == self.archetypes.len()
        &&& forall|i: int|
            0 <= i < self.archetypes.len() && i != a ==> #[trigger] after.archetypes[i]
                == self.archetypes[i]
        &&& after.archetypes[a] == source || (source.has(key) && exists|value: ErasedValue|
            after.archetypes[a] == #[trigger] source.replace(
                source.column_of(key),
                self.row_index(entity),
                value,
            ))
    }
}

} // verus!
