//! The world: all archetypes, the index from shapes to archetypes, and the
//! table that locates every entity.

use vstd::prelude::*;
use core::any::TypeId;
use std::collections::HashMap;
use crate::archetype::Archetype;
use crate::bundle::gathered;
use crate::bundle::lemma_gathered;
use crate::bundle::Bundle;
use crate::bundle::ComponentBundle;
use crate::component::downcast;
use crate::component::downcast_mut;
use crate::component::downcast_ref;
use crate::component::erase;
use crate::component::type_id_of;
use crate::component::ComponentId;
use crate::component::ErasedValue;
use crate::entity::Entity;
use crate::entity::EntityId;
use crate::entity::EntityInfo;
use crate::entity::EntityLocation;
use crate::error::ComponentError;
use crate::error::EntityMissingComponent;
use crate::error::FetchError;
use crate::error::NoSuchEntity;
use crate::model::filed;
use crate::model::WorldView;
use crate::query::kept;
use crate::query::rows_of;
use crate::query::Query;
use crate::query::QueryParameters;
use crate::registry::id_of;
use crate::registry::key_of;
use crate::registry::registered;
use crate::registry::TypeRegistry;
use crate::shape::calculate_bundle_id;
use crate::shape::is_shape;
use crate::shape::lemma_position;
use crate::shape::lemma_with_type;
use crate::shape::lemma_without_type;
use crate::shape::shape_id;
use crate::shape::with_type;
use crate::shape::without_type;
use crate::wellformed::lemma_despawn_wf;
use crate::wellformed::lemma_live_located;
use crate::wellformed::lemma_migrate_wf;
use crate::wellformed::lemma_prepare_wf;
use crate::wellformed::lemma_push_row_wf;
use crate::wellformed::lemma_replace_wf;
use crate::wellformed::lemma_rows_bounded;
use crate::wellformed::lemma_rows_bounded_spare;
use crate::wellformed::lemma_same_but_component_wf;
use crate::wellformed::lemma_set_component_same_but;
use crate::wellformed::lemma_set_component_wf;
use crate::wellformed::lemma_set_then_remove;
use crate::wellformed::lemma_shape_index;
use crate::wellformed::lemma_spawn_wf;
use crate::wellformed::lemma_swap_remove_wf;

verus! {

/// The world holds all components and the entities they belong to.
pub struct World {
    pub(crate) archetypes: Vec<Archetype>,
    pub(crate) bundle_id_to_archetype: HashMap<u64, usize>,
    pub(crate) entities: Vec<EntityInfo>,
    pub(crate) free_entities: Vec<EntityId>,
    pub(crate) types: TypeRegistry,
}

impl View for World {
    type V = WorldView;

    closed spec fn view(&self) -> WorldView {
        WorldView {
            archetypes: Seq::new(self.archetypes@.len(), |a: int| self.archetypes@[a]@),
            entities: self.entities@,
            free: self.free_entities@,
        }
    }
}

/// A helper to get two mutable borrows from the same slice.
pub fn index_twice<T>(slice: &mut [T], first: usize, second: usize) -> (r: (&mut T, &mut T))
    requires
        first != second,
        first < old(slice)@.len(),
        second < old(slice)@.len(),
    ensures
        *r.0 == old(slice)@[first as int],
        *r.1 == old(slice)@[second as int],
        final(slice)@ == old(slice)@.update(first as int, *final(r.0)).update(
            second as int,
            *final(r.1),
        ),
{
    if first < second {
        let (a, b) = slice.split_at_mut(second);
        (&mut a[first], &mut b[0])
    } else {
        let (a, b) = slice.split_at_mut(first);
        (&mut b[0], &mut a[second])
    }
}

impl World {
    /// The component types this world has met, in the order of their
    /// `ComponentId`s.
    pub closed spec fn registry(&self) -> Seq<TypeId> {
        self.types@
    }

    /// The index from shape identifiers to the numbers of archetypes.
    pub closed spec fn shape_map(&self) -> Map<u64, usize> {
        self.bundle_id_to_archetype@
    }

    /// The index from shape identifiers to archetypes is sound: the identifier
    /// of every archetype's shape is in it, and it points at archetypes only.
    /// (Two shapes may share an identifier, so an entry need not point at the
    /// archetype of the shape that was looked up.) And no component type is
    /// registered twice.
    pub closed spec fn indexed(&self) -> bool {
        &&& forall|a: int|
            0 <= a < self@.archetypes.len() ==> self.bundle_id_to_archetype@.contains_key(
                shape_id((#[trigger] self@.archetypes[a]).shape()),
            )
        &&& forall|id: u64| #[trigger]
            self.bundle_id_to_archetype@.contains_key(id) ==> self.bundle_id_to_archetype@[id]
                < self@.archetypes.len()
        &&& self.types.wf()
    }

    /// What a sound index means, over [`World::shape_map`] and
    /// [`World::registry`].
    pub proof fn lemma_indexed(&self)
        requires
            self.indexed(),
        ensures
            forall|a: int|
                0 <= a < self@.archetypes.len() ==> self.shape_map().contains_key(
                    shape_id((#[trigger] self@.archetypes[a]).shape()),
                ),
            forall|id: u64| #[trigger]
                self.shape_map().contains_key(id) ==> self.shape_map()[id]
                    < self@.archetypes.len(),
            self.registry().no_duplicates(),
    {
    }

    /// A world is well formed when what it holds is (see [`WorldView::wf`]) and
    /// its index is sound.
    pub open spec fn wf(&self) -> bool {
        self@.wf() && self.indexed()
    }

    /// Create the world.
    pub fn new() -> (world: Self)
        ensures
            world.wf(),
            world@ == WorldView::empty(),
            world.shape_map() == Map::<u64, usize>::empty(),
            world.registry().len() == 0,
    {
        let world = World {
            archetypes: Vec::new(),
            bundle_id_to_archetype: HashMap::new(),
            entities: Vec::new(),
            free_entities: Vec::new(),
            types: TypeRegistry::new(),
        };
        assert(world@ =~~= WorldView::empty());
        world
    }

    /// The number of archetypes.
    pub fn archetype_count(&self) -> (n: usize)
        ensures
            n == self@.archetypes.len(),
    {
        self.archetypes.len()
    }

    /// The number of slots ever allocated, occupied or free.
    pub fn entity_count(&self) -> (n: usize)
        ensures
            n == self@.entities.len(),
    {
        self.entities.len()
    }

    /// The location table: one row per slot ever allocated.
    pub fn entities(&self) -> (entities: &Vec<EntityInfo>)
        ensures
            entities@ == self@.entities,
    {
        &self.entities
    }

    /// Whether `entity` names a live entity.
    pub fn contains(&self, entity: Entity) -> (live: bool)
        ensures
            live == self@.is_live(entity),
    {
        let index = entity.index as usize;
        if index >= self.entities.len() {
            return false;
        }
        let info = self.entities[index];
        info.generation == entity.generation && info.generation % 2 == 0
    }

    /// Where the live entity `entity` is stored; `None` for a handle that
    /// names no live entity.
    pub fn location(&self, entity: Entity) -> (r: Option<EntityLocation>)
        ensures
            r is Some <==> self@.is_live(entity),
            r matches Some(location) ==> location == self@.location(entity),
    {
        if self.contains(entity) {
            Some(self.entities[entity.index as usize].location)
        } else {
            None
        }
    }

    /// The archetype with index `index`.
    pub fn archetype(&self, index: usize) -> (archetype: &Archetype)
        requires
            index < self@.archetypes.len(),
        ensures
            archetype@ == self@.archetypes[index as int],
    {
        &self.archetypes[index]
    }

    /// Looks through all archetypes for the one of shape `types`.
    fn find_archetype(&self, types: &[ComponentId]) -> (r: Option<usize>)
        ensures
            r is Some <==> self@.has_shape(types@),
            r matches Some(a) ==> a < self@.archetypes.len() && self@.archetypes[a as int].shape()
                == types@,
    {
        let mut a: usize = 0;
        while a < self.archetypes.len()
            invariant
                a <= self.archetypes@.len(),
                forall|k: int| 0 <= k < a ==> (#[trigger] self@.archetypes[k]).shape() != types@,
            decreases self.archetypes@.len() - a,
        {
            if self.archetypes[a].has_shape(types) {
                assert(self@.archetypes[a as int].shape() == types@);
                return Some(a);
            }
            a = a + 1;
        }
        None
    }

    /// The index of the archetype of shape `types`. If there is none yet, an
    /// empty one is added at the end.
    ///
    /// The shape's identifier is looked up in the index. An entry that exists
    /// but points at an archetype of another shape means that two shapes share
    /// the identifier; then all archetypes are searched.
    pub fn archetype_for(&mut self, types: &[ComponentId]) -> (index: usize)
        requires
            old(self).wf(),
            is_shape(types@),
            old(self)@.has_shape(types@) || old(self)@.archetypes.len() < EntityId::MAX,
        ensures
            final(self).wf(),
            final(self)@ == old(self)@.prepare(types@),
            final(self).shape_map() == filed(old(self).shape_map(), old(self)@, types@),
            final(self).registry() == old(self).registry(),
            index == old(self)@.shape_index(types@),
            index < final(self)@.archetypes.len(),
            final(self)@.archetypes[index as int].shape() == types@,
    {
        proof {
            lemma_shape_index(self@, types@);
            lemma_prepare_wf(self@, types@);
        }
        let bundle_id = calculate_bundle_id(types);
        let known = match self.bundle_id_to_archetype.get(&bundle_id) {
            Some(found) => {
                if self.archetypes[*found].has_shape(types) {
                    assert(self@.archetypes[*found as int].shape() == types@);
                    Some(*found)
                } else {
                    self.find_archetype(types)
                }
            },
            None => {
                assert(!self@.has_shape(types@)) by {
                    if self@.has_shape(types@) {
                        let a = self@.shape_index(types@);
                        assert(self.bundle_id_to_archetype@.contains_key(
                            shape_id(self@.archetypes[a].shape()),
                        ));
                    }
                }
                None
            },
        };
        match known {
            Some(index) => {
                assert(self@ =~~= old(self)@.prepare(types@));
                index
            },
            None => {
                let index = self.archetypes.len();
                if !self.bundle_id_to_archetype.contains_key(&bundle_id) {
                    self.bundle_id_to_archetype.insert(bundle_id, index);
                }
                self.archetypes.push(Archetype::with_shape(types));
                assert(self@ =~~= old(self)@.prepare(types@));
                assert forall|a: int| 0 <= a < self@.archetypes.len() implies self.bundle_id_to_archetype@.contains_key(
                    shape_id((#[trigger] self@.archetypes[a]).shape()),
                ) by {
                    if a < index {
                        assert(old(self)@.archetypes[a] == self@.archetypes[a]);
                    }
                }
                index
            },
        }
    }

    /// Spawns an entity with the components of `bundle`.
    ///
    /// The slot on top of the free stack is recycled with its next generation;
    /// with no free slot, a new one is allocated with generation 0. The
    /// entity's row goes to the archetype of the bundle's shape.
    pub fn spawn_bundle(&mut self, bundle: Bundle) -> (entity: Entity)
        requires
            old(self).wf(),
            bundle@.wf(),
            old(self)@.free.len() > 0 || old(self)@.entities.len() < EntityId::MAX,
            old(self)@.has_shape(bundle@.types) || old(self)@.archetypes.len() < EntityId::MAX,
        ensures
            final(self).wf(),
            final(self)@ == old(self)@.spawn(bundle@.types, bundle@.values),
            final(self).shape_map() == filed(old(self).shape_map(), old(self)@, bundle@.types),
            final(self).registry() == old(self).registry(),
            entity == old(self)@.spawned(),
    {
        let ghost types = bundle@.types;
        let ghost values = bundle@.values;
        let a = self.archetype_for(bundle.type_ids().as_slice());
        let ghost prepared = *self;
        proof {
            lemma_prepare_wf(old(self)@, types);
            lemma_spawn_wf(old(self)@, types, values);
            lemma_shape_index(prepared@, types);
            lemma_rows_bounded(prepared@, a as int);
            assert(prepared@.spawn(types, values) == old(self)@.spawn(types, values));
        }
        let row = self.archetypes[a].len();
        let (index, generation) = match self.free_entities.pop() {
            Some(index) => {
                assert(prepared@.is_free(prepared@.free[prepared@.free.len() - 1] as int));
                let stored = self.entities[index as usize].generation;
                let generation = if stored == EntityId::MAX {
                    0
                } else {
                    stored + 1
                };
                (index, generation)
            },
            None => {
                self.entities.push(
                    EntityInfo {
                        generation: 0,
                        location: EntityLocation { archetype_index: 0, index_in_archetype: 0 },
                    },
                );
                ((self.entities.len() - 1) as EntityId, 0)
            },
        };
        self.archetypes[a].push_row(index, bundle.into_values());
        self.entities[index as usize] = EntityInfo {
            generation,
            location: EntityLocation {
                archetype_index: a as EntityId,
                index_in_archetype: row as EntityId,
            },
        };
        proof {
            assert(self@ =~~= prepared@.spawn(types, values));
            lemma_push_row_wf(prepared@.archetypes[a as int], index, values);
            Self::lemma_indexed_kept(prepared, *self);
        }
        Entity { index, generation }
    }

    /// Remove an entity and all its components from the world.
    /// An error is returned if the entity does not exist.
    ///
    /// The slot moves on to its next generation, which makes the handle and
    /// every copy of it stale, and goes onto the free stack. The entity's row
    /// leaves its archetype; the entity of the last row takes its place and is
    /// located there from then on.
    pub fn despawn(&mut self, entity: Entity) -> (r: Result<(), NoSuchEntity>)
        requires
            old(self).wf(),
        ensures
            final(self).wf(),
            final(self).registry() == old(self).registry(),
            final(self).shape_map() == old(self).shape_map(),
            old(self)@.is_live(entity) ==> r is Ok && final(self)@ == old(self)@.despawn(entity),
            !old(self)@.is_live(entity) ==> r is Err && final(self)@ == old(self)@,
    {
        if !self.contains(entity) {
            return Err(NoSuchEntity);
        }
        proof {
            lemma_live_located(self@, entity);
            lemma_despawn_wf(self@, entity);
        }
        let entity_info = self.entities[entity.index as usize];
        let a = entity_info.location.archetype_index as usize;
        self.entities[entity.index as usize] = EntityInfo {
            generation: entity_info.generation + 1,
            location: entity_info.location,
        };
        let moved_entity = self.archetypes[a].remove_entity(entity_info.location.index_in_archetype);
        self.free_entities.push(entity.index);
        proof {
            let last = old(self)@.archetypes[a as int].rows() - 1;
            assert(old(self)@.row_owned(a as int, last));
        }
        // Update the position of an entity that was moved.
        let moved_info = self.entities[moved_entity as usize];
        self.entities[moved_entity as usize] = EntityInfo {
            generation: moved_info.generation,
            location: entity_info.location,
        };
        proof {
            assert(self@ =~~= old(self)@.despawn(entity));
            lemma_swap_remove_wf(
                old(self)@.archetypes[a as int],
                entity_info.location.index_in_archetype as int,
            );
            Self::lemma_indexed_kept(*old(self), *self);
        }
        Ok(())
    }

    /// Gives `entity` the component `value` of type `key`.
    ///
    /// If the entity has a component of that type, `value` takes its place and
    /// nothing moves. Otherwise the entity's row moves to the archetype of its
    /// shape with `key` added: the columns before the place of `key` keep
    /// their index, `value` goes to the column of `key`, the columns after it
    /// go one further. The entity of the last row of the archetype it leaves
    /// takes its place there.
    pub fn insert_component(&mut self, entity: Entity, key: ComponentId, value: ErasedValue) -> (r:
        Result<(), NoSuchEntity>)
        requires
            old(self).wf(),
            old(self)@.is_live(entity) && !old(self)@.has_component(entity, key) ==> old(self)@.has_room_for(with_type(old(self)@.shape_of(entity), key)),
        ensures
            final(self).wf(),
            final(self).registry() == old(self).registry(),
            old(self)@.is_live(entity) ==> r is Ok && final(self)@ == old(self)@.add_component(
                entity,
                key,
                value,
            ),
            !old(self)@.is_live(entity) ==> r is Err && final(self)@ == old(self)@,
            final(self).shape_map() == if old(self)@.is_live(entity) && !old(
                self,
            )@.has_component(entity, key) {
                filed(
                    old(self).shape_map(),
                    old(self)@,
                    with_type(old(self)@.shape_of(entity), key),
                )
            } else {
                old(self).shape_map()
            },
    {
        // First find if the entity exists.
        if !self.contains(entity) {
            return Err(NoSuchEntity);
        }
        proof {
            lemma_live_located(self@, entity);
        }
        let entity_info = self.entities[entity.index as usize];
        let a = entity_info.location.archetype_index as usize;
        let row = entity_info.location.index_in_archetype;
        let ghost source = old(self)@.archetypes[a as int];
        match self.archetypes[a].find_column(key) {
            Ok(insert_index) => {
                // The component already exists, replace it.
                assert(source.columns[insert_index as int].data.len() == source.entities.len());
                self.archetypes[a].replace_component(insert_index, row, value);
                proof {
                    assert(self@ =~~= old(self)@.set_component(entity, key, value));
                    lemma_set_component_wf(old(self)@, entity, key, value);
                    lemma_replace_wf(source, insert_index as int, row as int, value);
                    Self::lemma_indexed_kept(*old(self), *self);
                }
            },
            Err(insert_index) => {
                // Find the archetype to migrate to, or create it.
                let mut type_ids = self.archetypes[a].type_ids();
                type_ids.insert(insert_index, key);
                let ghost shape = type_ids@;
                let ghost values = old(self)@.components_of(entity).insert(insert_index as int, value);
                proof {
                    lemma_with_type(source.shape(), key);
                    lemma_prepare_wf(old(self)@, shape);
                    lemma_migrate_wf(old(self)@, entity, shape, values);
                }
                let new_archetype_index = self.archetype_for(type_ids.as_slice());
                let ghost prepared = *self;
                proof {
                    lemma_shape_index(prepared@, shape);
                    lemma_live_located(prepared@, entity);
                    assert(prepared@.migrate(entity, shape, values) == old(self)@.migrate(
                        entity,
                        shape,
                        values,
                    ));
                    assert(prepared@.archetypes[a as int] == source);
                    assert(prepared@.row_owned(a as int, source.rows() - 1));
                    assert(prepared@.archetypes[new_archetype_index as int].wf());
                    if prepared@.archetypes[new_archetype_index as int].entities.contains(
                        entity.index,
                    ) {
                        let r = choose|r: int|
                            0 <= r < prepared@.archetypes[new_archetype_index as int].entities.len()
                                && prepared@.archetypes[new_archetype_index as int].entities[r]
                                == entity.index;
                        assert(prepared@.row_owned(new_archetype_index as int, r));
                    }
                    lemma_rows_bounded_spare(prepared@, new_archetype_index as int, entity.index);
                }
                // If an entity is being moved then update its location.
                let last = self.archetypes[a].len() - 1;
                let moved_entity = self.archetypes[a].entity_at(last as EntityId);
                let moved_info = self.entities[moved_entity as usize];
                self.entities[moved_entity as usize] = EntityInfo {
                    generation: moved_info.generation,
                    location: entity_info.location,
                };
                // Then update the entity's own location to where it is about to go.
                let new_row = self.archetypes[new_archetype_index].len();
                self.entities[entity.index as usize] = EntityInfo {
                    generation: entity_info.generation,
                    location: EntityLocation {
                        archetype_index: new_archetype_index as EntityId,
                        index_in_archetype: new_row as EntityId,
                    },
                };
                // index_twice lets us mutably borrow from the world twice.
                let (old_archetype, new_archetype) = index_twice(
                    self.archetypes.as_mut_slice(),
                    a,
                    new_archetype_index,
                );
                old_archetype.move_row_adding(
                    row,
                    entity.index,
                    new_archetype,
                    insert_index,
                    value,
                );
                proof {
                    assert(self@ =~~= prepared@.migrate(entity, shape, values));
                    lemma_swap_remove_wf(source, row as int);
                    lemma_push_row_wf(
                        prepared@.archetypes[new_archetype_index as int],
                        entity.index,
                        values,
                    );
                    Self::lemma_indexed_kept(prepared, *self);
                }
            },
        }
        Ok(())
    }

    /// Takes the component of type `key` from `entity` and returns it; `None`
    /// if the entity has no component of that type.
    ///
    /// The entity's row moves to the archetype of its shape without `key`: the
    /// columns before the column of `key` keep their index, the columns after
    /// it go one back. The entity of the last row of the archetype it leaves
    /// takes its place there.
    pub fn take_component(&mut self, entity: Entity, key: ComponentId) -> (r: Result<
        Option<ErasedValue>,
        NoSuchEntity,
    >)
        requires
            old(self).wf(),
            old(self)@.is_live(entity) && old(self)@.has_component(entity, key) ==> old(self)@.has_room_for(without_type(old(self)@.shape_of(entity), key)),
        ensures
            final(self).wf(),
            final(self).registry() == old(self).registry(),
            !old(self)@.is_live(entity) <==> r is Err,
            r is Err ==> final(self)@ == old(self)@,
            r matches Ok(None) ==> !old(self)@.has_component(entity, key) && final(self)@ == old(self)@,
            r matches Ok(Some(value)) ==> {
                &&& old(self)@.has_component(entity, key)
                &&& value == old(self)@.component(entity, key)
                &&& final(self)@ == old(self)@.remove_component(entity, key)
                &&& final(self).shape_map() == filed(
                    old(self).shape_map(),
                    old(self)@,
                    without_type(old(self)@.shape_of(entity), key),
                )
            },
            !(r matches Ok(Some(_))) ==> final(self).shape_map() == old(self).shape_map(),
    {
        if !self.contains(entity) {
            return Err(NoSuchEntity);
        }
        proof {
            lemma_live_located(self@, entity);
        }
        let entity_info = self.entities[entity.index as usize];
        let a = entity_info.location.archetype_index as usize;
        let row = entity_info.location.index_in_archetype;
        let ghost source = old(self)@.archetypes[a as int];
        match self.archetypes[a].find_column(key) {
            Ok(remove_index) => {
                let mut type_ids = self.archetypes[a].type_ids();
                type_ids.remove(remove_index);
                let ghost shape = type_ids@;
                let ghost values = old(self)@.components_of(entity).remove(remove_index as int);
                proof {
                    lemma_without_type(source.shape(), key);
                    assert(source.shape().contains(key));
                    lemma_prepare_wf(old(self)@, shape);
                    lemma_migrate_wf(old(self)@, entity, shape, values);
                }
                let new_archetype_index = self.archetype_for(type_ids.as_slice());
                let ghost prepared = *self;
                proof {
                    lemma_shape_index(prepared@, shape);
                    lemma_live_located(prepared@, entity);
                    assert(prepared@.migrate(entity, shape, values) == old(self)@.migrate(
                        entity,
                        shape,
                        values,
                    ));
                    assert(prepared@.archetypes[a as int] == source);
                    assert(prepared@.row_owned(a as int, source.rows() - 1));
                    assert(prepared@.archetypes[new_archetype_index as int].wf());
                    if prepared@.archetypes[new_archetype_index as int].entities.contains(
                        entity.index,
                    ) {
                        let r = choose|r: int|
                            0 <= r < prepared@.archetypes[new_archetype_index as int].entities.len()
                                && prepared@.archetypes[new_archetype_index as int].entities[r]
                                == entity.index;
                        assert(prepared@.row_owned(new_archetype_index as int, r));
                    }
                    lemma_rows_bounded_spare(prepared@, new_archetype_index as int, entity.index);
                }
                // If an entity is being moved then update its location.
                let last = self.archetypes[a].len() - 1;
                let moved_entity = self.archetypes[a].entity_at(last as EntityId);
                let moved_info = self.entities[moved_entity as usize];
                self.entities[moved_entity as usize] = EntityInfo {
                    generation: moved_info.generation,
                    location: entity_info.location,
                };
                // Then update the entity's own location to where it is about to go.
                let new_row = self.archetypes[new_archetype_index].len();
                self.entities[entity.index as usize] = EntityInfo {
                    generation: entity_info.generation,
                    location: EntityLocation {
                        archetype_index: new_archetype_index as EntityId,
                        index_in_archetype: new_row as EntityId,
                    },
                };
                // index_twice lets us mutably borrow from the world twice.
                let (old_archetype, new_archetype) = index_twice(
                    self.archetypes.as_mut_slice(),
                    a,
                    new_archetype_index,
                );
                let removed = old_archetype.move_row_removing(
                    row,
                    entity.index,
                    new_archetype,
                    remove_index,
                );
                proof {
                    assert(self@ =~~= prepared@.migrate(entity, shape, values));
                    lemma_swap_remove_wf(source, row as int);
                    lemma_push_row_wf(
                        prepared@.archetypes[new_archetype_index as int],
                        entity.index,
                        values,
                    );
                    Self::lemma_indexed_kept(prepared, *self);
                }
                Ok(Some(removed))
            },
            Err(_) => Ok(None),
        }
    }

    /// Mutable access to the component of type `key` of `entity`; `None` if
    /// the entity has no component of that type.
    pub fn component_mut(&mut self, entity: Entity, key: ComponentId) -> (r: Result<
        Option<&mut ErasedValue>,
        NoSuchEntity,
    >)
        requires
            old(self).wf(),
        ensures
            final(self).registry() == old(self).registry(),
            !old(self)@.is_live(entity) <==> r is Err,
            r is Err ==> final(self)@ == old(self)@,
            r matches Ok(None) ==> !old(self)@.has_component(entity, key) && final(self)@ == old(self)@,
            r matches Ok(Some(value)) ==> {
                &&& old(self)@.has_component(entity, key)
                &&& *value == old(self)@.component(entity, key)
                &&& final(self)@ == old(self)@.set_component(entity, key, *final(value))
            },
            final(self).shape_map() == old(self).shape_map(),
            final(self).wf(),
    {
        if !self.contains(entity) {
            return Err(NoSuchEntity);
        }
        proof {
            lemma_live_located(self@, entity);
        }
        let entity_info = self.entities[entity.index as usize];
        let a = entity_info.location.archetype_index as usize;
        let row = entity_info.location.index_in_archetype;
        proof {
            let before = *self;
            let source = before@.archetypes[a as int];
            assert forall|after: World|
                after.bundle_id_to_archetype@ == before.bundle_id_to_archetype@ && after.types
                    == before.types && before@.same_but_component(
                    after@,
                    entity,
                    key,
                ) implies #[trigger] after.wf() by {
                lemma_same_but_component_wf(before@, after@, entity, key);
                Self::lemma_indexed_kept(before, after);
            }
        }
        Ok(self.archetypes[a].component_mut(key, row))
    }

    /// The `ComponentId` of the component type `id`, which is registered if
    /// this world has not met it before.
    fn register(&mut self, id: TypeId) -> (key: ComponentId)
        requires
            old(self).wf(),
        ensures
            final(self).wf(),
            final(self)@ == old(self)@,
            final(self).shape_map() == old(self).shape_map(),
            final(self).registry() == registered(old(self).registry(), id),
            key == key_of(old(self).registry(), id),
            key < final(self).registry().len(),
            final(self).registry()[key as int] == id,
    {
        let key = self.types.register(id);
        proof {
            Self::lemma_indexed_kept(*old(self), *self);
        }
        key
    }

    /// Spawns an entity with the components `parts`, each of them an erased
    /// value beside the identifier of its type.
    ///
    /// Each type is given its `ComponentId`, which registers the types that
    /// this world has not met; each value goes into the bundle under that
    /// id, where a later value of a type takes the place of an earlier one;
    /// and the bundle is spawned.
    pub fn spawn_parts(&mut self, parts: Vec<(TypeId, ErasedValue)>) -> (entity: Entity)
        requires
            old(self).wf(),
            old(self)@.free.len() > 0 || old(self)@.entities.len() < EntityId::MAX,
            old(self)@.has_room_for(gathered(old(self).registry(), parts@).1.types),
        ensures
            final(self).wf(),
            entity == old(self)@.spawned(),
            final(self).registry() == gathered(old(self).registry(), parts@).0,
            final(self)@ == old(self)@.spawn(
                gathered(old(self).registry(), parts@).1.types,
                gathered(old(self).registry(), parts@).1.values,
            ),
            final(self).shape_map() == filed(
                old(self).shape_map(),
                old(self)@,
                gathered(old(self).registry(), parts@).1.types,
            ),
    {
        let mut parts = parts;
        let ghost all = parts@;
        let ghost mut done: int = 0;
        let mut bundle = Bundle::new();
        while parts.len() > 0
            invariant
                self.wf(),
                self@ == old(self)@,
                self.shape_map() == old(self).shape_map(),
                0 <= done <= all.len(),
                parts@ == all.skip(done),
                bundle@.wf(),
                self.registry() == gathered(old(self).registry(), all.take(done)).0,
                bundle@ == gathered(old(self).registry(), all.take(done)).1,
            decreases parts@.len(),
        {
            let (id, value) = parts.remove(0);
            let key = self.register(id);
            bundle.insert(key, value);
            proof {
                assert(all.take(done + 1).drop_last() =~= all.take(done));
                assert(all.take(done + 1).last() == all[done]);
                assert(parts@ =~= all.skip(done + 1));
                done = done + 1;
            }
        }
        assert(all.take(done) =~= all);
        self.spawn_bundle(bundle)
    }

    /// Spawn an entity with components passed in through a tuple.
    ///
    /// Each value is stored under the `ComponentId` of its type; where the
    /// tuple holds several values of one type, the last of them is kept. The
    /// slot and the generation of the new entity do not depend on the tuple.
    pub fn spawn<B: ComponentBundle>(&mut self, b: B) -> (entity: Entity)
        requires
            old(self).wf(),
            old(self)@.free.len() > 0 || old(self)@.entities.len() < EntityId::MAX,
            old(self)@.archetypes.len() < EntityId::MAX,
        ensures
            final(self).wf(),
            old(self).registry().is_prefix_of(final(self).registry()),
            entity == old(self)@.spawned(),
            exists|parts: Seq<(TypeId, ErasedValue)>|
                {
                    &&& parts.len() == B::arity()
                    &&& final(self).registry() == (#[trigger] gathered(
                        old(self).registry(),
                        parts,
                    )).0
                    &&& final(self)@ == old(self)@.spawn(
                        gathered(old(self).registry(), parts).1.types,
                        gathered(old(self).registry(), parts).1.values,
                    )
                    &&& final(self).shape_map() == filed(
                        old(self).shape_map(),
                        old(self)@,
                        gathered(old(self).registry(), parts).1.types,
                    )
                },
    {
        let parts = b.into_parts();
        proof {
            lemma_gathered(self.registry(), parts@);
        }
        self.spawn_parts(parts)
    }

    /// Adds a component to an entity.
    /// If the component already exists its data will be replaced.
    ///
    /// The value is stored under the `ComponentId` of `T`, which registers `T`
    /// if this world has not met it.
    pub fn add_component<T: 'static + Send + Sync>(&mut self, entity: Entity, t: T) -> (r: Result<
        (),
        NoSuchEntity,
    >)
        requires
            old(self).wf(),
            old(self)@.archetypes.len() < EntityId::MAX,
        ensures
            final(self).wf(),
            old(self).registry().is_prefix_of(final(self).registry()),
            !old(self)@.is_live(entity) ==> {
                &&& r is Err
                &&& final(self)@ == old(self)@
                &&& final(self).registry() == old(self).registry()
                &&& final(self).shape_map() == old(self).shape_map()
            },
            old(self)@.is_live(entity) ==> r is Ok && exists|id: TypeId|
                {
                    &&& final(self).registry() == #[trigger] registered(old(self).registry(), id)
                    &&& exists|value: ErasedValue|
                        final(self)@ == #[trigger] old(self)@.add_component(
                            entity,
                            id_of(old(self).registry(), id),
                            value,
                        )
                    &&& final(self).shape_map() == if old(self)@.has_component(
                        entity,
                        id_of(old(self).registry(), id),
                    ) {
                        old(self).shape_map()
                    } else {
                        filed(
                            old(self).shape_map(),
                            old(self)@,
                            with_type(
                                old(self)@.shape_of(entity),
                                id_of(old(self).registry(), id),
                            ),
                        )
                    }
                },
    {
        if !self.contains(entity) {
            return Err(NoSuchEntity);
        }
        let key = self.register(type_id_of::<T>());
        self.insert_component(entity, key, erase(t))
    }

    /// Removes the component of type `T` from an entity and returns it.
    ///
    /// Fails with `NoSuchEntity` for a handle that names no live entity, and
    /// with `EntityMissingComponent` if the entity has no component of type
    /// `T`. A call that fails leaves the world as it was: the value is looked
    /// at in its place, and the row moves only once the value is known to be a
    /// `T`.
    pub fn remove_component<T: 'static>(&mut self, entity: Entity) -> (r: Result<
        T,
        ComponentError,
    >)
        requires
            old(self).wf(),
            old(self)@.archetypes.len() < EntityId::MAX,
        ensures
            final(self).wf(),
            final(self).registry() == old(self).registry(),
            !old(self)@.is_live(entity) <==> r matches Err(ComponentError::NoSuchEntity(_)),
            r matches Err(ComponentError::EntityMissingComponent(e)) ==> e.entity_index()
                == entity.index,
            r is Err ==> final(self)@ == old(self)@ && final(self).shape_map() == old(
                self,
            ).shape_map(),
            exists|id: TypeId|
                {
                    &&& !old(self).registry().contains(id) ==> r is Err
                    &&& old(self)@.is_live(entity) && !old(self)@.has_component(
                        entity,
                        #[trigger] id_of(old(self).registry(), id),
                    ) ==> r is Err
                    &&& r is Ok ==> {
                        &&& old(self).registry().contains(id)
                        &&& old(self)@.has_component(entity, id_of(old(self).registry(), id))
                        &&& final(self)@ == old(self)@.remove_component(
                            entity,
                            id_of(old(self).registry(), id),
                        )
                        &&& final(self).shape_map() == filed(
                            old(self).shape_map(),
                            old(self)@,
                            without_type(
                                old(self)@.shape_of(entity),
                                id_of(old(self).registry(), id),
                            ),
                        )
                    }
                },
    {
        proof {
            self.lemma_indexed();
        }
        let id = type_id_of::<T>();
        let ghost key_sought = id_of(self.registry(), id);
        if !self.contains(entity) {
            return Err(ComponentError::NoSuchEntity(NoSuchEntity));
        }
        let missing = EntityMissingComponent::new::<T>(entity.index);
        let key = match self.types.lookup(&id) {
            Some(key) => key,
            None => {
                return Err(ComponentError::EntityMissingComponent(missing));
            },
        };
        // Take the value out of its place and leave a stand-in there.
        let mut held = erase(());
        let ghost stand_in = held;
        match self.component_mut(entity, key) {
            Ok(Some(value)) => {
                core::mem::swap(value, &mut held);
            },
            _ => {
                return Err(ComponentError::EntityMissingComponent(missing));
            },
        }
        proof {
            lemma_set_component_wf(old(self)@, entity, key, stand_in);
            lemma_set_then_remove(old(self)@, entity, key, stand_in);
            lemma_set_component_same_but(old(self)@, entity, key);
            assert(self@ == old(self)@.set_component(entity, key, stand_in));
            assert(held == old(self)@.component(entity, key));
        }
        match downcast::<T>(held) {
            Ok(component) => {
                // The row moves on; the stand-in goes with the column.
                let _ = self.take_component(entity, key);
                Ok(component)
            },
            Err(back) => {
                // Not a `T`: put the value back where it was.
                let mut back = back;
                match self.component_mut(entity, key) {
                    Ok(Some(value)) => {
                        core::mem::swap(value, &mut back);
                    },
                    _ => {},
                }
                Err(ComponentError::EntityMissingComponent(missing))
            },
        }
    }

    /// Gets mutable access to a single component on an `Entity`.
    ///
    /// Fails with `NoSuchEntity` for a handle that names no live entity, and
    /// with `EntityMissingComponent` if the entity has no component stored
    /// under the `ComponentId` of `T`. Whatever is written through the
    /// reference, the world differs afterwards in that one value only.
    pub fn get_component_mut<T: 'static>(&mut self, entity: Entity) -> (r: Result<
        &mut T,
        ComponentError,
    >)
        requires
            old(self).wf(),
        ensures
            final(self).registry() == old(self).registry(),
            !old(self)@.is_live(entity) <==> r matches Err(ComponentError::NoSuchEntity(_)),
            r matches Err(ComponentError::EntityMissingComponent(e)) ==> e.entity_index()
                == entity.index,
            r is Err ==> final(self)@ == old(self)@,
            final(self).shape_map() == old(self).shape_map(),
            exists|id: TypeId|
                {
                    &&& !old(self).registry().contains(id) ==> r is Err
                    &&& old(self)@.is_live(entity) && !old(self)@.has_component(
                        entity,
                        #[trigger] id_of(old(self).registry(), id),
                    ) ==> r is Err
                    &&& r is Ok ==> {
                        &&& old(self).registry().contains(id)
                        &&& old(self)@.has_component(entity, id_of(old(self).registry(), id))
                        &&& old(self)@.same_but_component(
                            final(self)@,
                            entity,
                            id_of(old(self).registry(), id),
                        )
                    }
                },
            final(self).wf(),
    {
        proof {
            self.lemma_indexed();
        }
        let id = type_id_of::<T>();
        let ghost key_sought = id_of(self.registry(), id);
        if !self.contains(entity) {
            return Err(ComponentError::NoSuchEntity(NoSuchEntity));
        }
        let missing = EntityMissingComponent::new::<T>(entity.index);
        match self.types.lookup(&id) {
            Some(key) => {
                proof {
                    if self@.has_component(entity, key) {
                        lemma_set_component_same_but(self@, entity, key);
                    }
                }
                match self.component_mut(entity, key) {
                    Ok(Some(value)) => match downcast_mut::<T>(value) {
                        Some(component) => Ok(component),
                        None => Err(ComponentError::EntityMissingComponent(missing)),
                    },
                    Ok(None) => Err(ComponentError::EntityMissingComponent(missing)),
                    Err(e) => Err(ComponentError::NoSuchEntity(e)),
                }
            },
            None => Err(ComponentError::EntityMissingComponent(missing)),
        }
    }

    /// The rows of the archetypes that have a column for each of `keys`:
    /// archetype by archetype in the order of their creation, and in each of
    /// them row by row.
    pub fn rows_with(&self, keys: &[ComponentId]) -> (rows: Vec<EntityLocation>)
        requires
            self.wf(),
        ensures
            rows@ == self@.rows_with(keys@, self@.archetypes.len() as int),
    {
        let mut rows: Vec<EntityLocation> = Vec::new();
        let mut a: usize = 0;
        while a < self.archetypes.len()
            invariant
                self.wf(),
                a <= self@.archetypes.len(),
                rows@ == self@.rows_with(keys@, a as int),
            decreases self@.archetypes.len() - a,
        {
            assert(self@.archetypes[a as int].wf());
            let archetype = &self.archetypes[a];
            let mut k: usize = 0;
            while k < keys.len() && archetype.find_column(keys[k]).is_ok()
                invariant
                    k <= keys@.len(),
                    archetype@.wf(),
                    forall|j: int| 0 <= j < k ==> archetype@.has(#[trigger] keys@[j]),
                decreases keys@.len() - k,
            {
                k = k + 1;
            }
            if k == keys.len() {
                assert(self@.has_all(a as int, keys@));
                proof {
                    lemma_rows_bounded(self@, a as int);
                }
                let count = archetype.len();
                let ghost before = rows@;
                let mut row: usize = 0;
                while row < count
                    invariant
                        row <= count,
                        count == self@.archetypes[a as int].rows(),
                        count <= EntityId::MAX,
                        a < self@.archetypes.len() <= EntityId::MAX,
                        rows@ == before + rows_of(a as int, row as nat),
                    decreases count - row,
                {
                    rows.push(
                        EntityLocation {
                            archetype_index: a as EntityId,
                            index_in_archetype: row as EntityId,
                        },
                    );
                    assert(rows@ =~= before + rows_of(a as int, (row + 1) as nat));
                    row = row + 1;
                }
            } else {
                assert(!self@.has_all(a as int, keys@)) by {
                    assert(!self@.archetypes[a as int].has(keys@[k as int]));
                }
            }
            a = a + 1;
        }
        rows
    }

    /// Shared access to the value that the row at `location` holds for
    /// component type `key`.
    pub fn value_at(&self, location: EntityLocation, key: ComponentId) -> (value: &ErasedValue)
        requires
            self.wf(),
            location.archetype_index < self@.archetypes.len(),
            location.index_in_archetype < self@.archetypes[location.archetype_index as int].rows(),
            self@.archetypes[location.archetype_index as int].has(key),
        ensures
            ({
                let archetype = self@.archetypes[location.archetype_index as int];
                *value == archetype.columns[archetype.column_of(key)].data[location.index_in_archetype as int]
            }),
    {
        assert(self@.archetypes[location.archetype_index as int].wf());
        self.archetypes[location.archetype_index as usize].value_at(
            key,
            location.index_in_archetype,
        )
    }

    /// The first row that holds a component of type `key`, if there is one:
    /// the first row of the first archetype that has a column for `key` and is
    /// not empty.
    pub fn first_with(&self, key: ComponentId) -> (r: Option<EntityLocation>)
        requires
            self.wf(),
        ensures
            ({
                let rows = self@.rows_with(seq![key], self@.archetypes.len() as int);
                &&& r is Some <==> rows.len() > 0
                &&& r matches Some(location) ==> location == rows[0]
            }),
    {
        let mut keys: Vec<ComponentId> = Vec::new();
        keys.push(key);
        assert(keys@ =~= seq![key]);
        let rows = self.rows_with(keys.as_slice());
        if rows.len() > 0 {
            Some(rows[0])
        } else {
            None
        }
    }

    /// The `ComponentId` of the component type `T`, if this world has met it:
    /// the place of the identifier of `T` in the registry.
    pub fn component_id<T: 'static>(&self) -> (r: Option<ComponentId>)
        ensures
            exists|id: TypeId|
                {
                    &&& r is Some <==> #[trigger] self.registry().contains(id)
                    &&& r matches Some(key) ==> key < self.registry().len() && self.registry()[key as int]
                        == id
                    &&& self.wf() ==> (r matches Some(key) ==> key == key_of(self.registry(), id))
                },
    {
        proof {
            if self.wf() {
                self.lemma_indexed();
            }
        }
        let id = type_id_of::<T>();
        let r = self.types.lookup(&id);
        assert(r is Some <==> self.registry().contains(id));
        r
    }

    /// Query for an immutable reference to the first instance of a component
    /// found.
    pub fn get_single<T: 'static>(&self) -> (r: Result<&T, FetchError>)
        requires
            self.wf(),
        ensures
            r is Ok ==> exists|key: ComponentId| (#[trigger] self@.rows_with(
                    seq![key],
                    self@.archetypes.len() as int,
                )).len() > 0,
    {
        match self.component_id::<T>() {
            Some(key) => match self.first_with(key) {
                Some(location) => {
                    proof {
                        self@.lemma_rows_with(seq![key], self@.archetypes.len() as int);
                        assert(seq![key][0] == key);
                    }
                    match downcast_ref::<T>(self.value_at(location, key)) {
                        Some(component) => Ok(component),
                        None => Err(FetchError),
                    }
                },
                None => Err(FetchError),
            },
            None => Err(FetchError),
        }
    }

    /// Query for a mutable reference to the first instance of a component
    /// found. Whatever is written through the reference, the world differs
    /// afterwards in that one value only.
    pub fn get_single_mut<T: 'static>(&mut self) -> (r: Result<&mut T, FetchError>)
        requires
            old(self).wf(),
        ensures
            final(self).registry() == old(self).registry(),
            final(self).shape_map() == old(self).shape_map(),
            r is Err ==> final(self)@ == old(self)@,
            r is Ok ==> exists|entity: Entity, key: ComponentId|
                {
                    &&& old(self)@.is_live(entity)
                    &&& old(self)@.has_component(entity, key)
                    &&& old(self)@.rows_with(seq![key], old(self)@.archetypes.len() as int).len()
                        > 0
                    &&& old(self)@.location(entity) == old(self)@.rows_with(
                        seq![key],
                        old(self)@.archetypes.len() as int,
                    )[0]
                    &&& #[trigger] old(self)@.same_but_component(final(self)@, entity, key)
                },
            final(self).wf(),
    {
        match self.component_id::<T>() {
            Some(key) => match self.first_with(key) {
                Some(location) => {
                    proof {
                        self@.lemma_rows_with(seq![key], self@.archetypes.len() as int);
                        assert(seq![key][0] == key);
                        assert(self@.row_owned(
                            location.archetype_index as int,
                            location.index_in_archetype as int,
                        ));
                    }
                    let index = self.archetypes[location.archetype_index as usize].entity_at(
                        location.index_in_archetype,
                    );
                    let entity = Entity {
                        index,
                        generation: self.entities[index as usize].generation,
                    };
                    proof {
                        lemma_set_component_same_but(self@, entity, key);
                    }
                    match self.component_mut(entity, key) {
                        Ok(Some(value)) => match downcast_mut::<T>(value) {
                            Some(component) => Ok(component),
                            None => Err(FetchError),
                        },
                        _ => Err(FetchError),
                    }
                },
                None => Err(FetchError),
            },
            None => Err(FetchError),
        }
    }

    /// Get a query from the world: one item for every entity that has a
    /// component of each type of the tuple `T`. The rows are gone through in
    /// the order of [`World::rows_with`]; see [`QueryParameters::fetch`].
    pub fn query<'w, T: QueryParameters<'w>>(&'w self) -> (r: Result<Query<T>, FetchError>)
        requires
            self.wf(),
        ensures
            r is Ok,
            r matches Ok(query) ==> exists|found: Seq<Option<T>>|
                {
                    &&& query@ == #[trigger] kept(found)
                    &&& found.len() == 0 || exists|keys: Seq<ComponentId>|
                        keys.len() == T::arity() && found.len() == (#[trigger] self@.rows_with(
                            keys,
                            self@.archetypes.len() as int,
                        )).len()
                },
    {
        T::fetch(self)
    }

    /// A change that keeps the shape of every archetype, the index and the
    /// registry keeps the index sound.
    proof fn lemma_indexed_kept(before: World, after: World)
        requires
            before.indexed(),
            after@.archetypes.len() == before@.archetypes.len(),
            forall|a: int|
                0 <= a < before@.archetypes.len() ==> (#[trigger] after@.archetypes[a]).shape()
                    == before@.archetypes[a].shape(),
            after.bundle_id_to_archetype@ == before.bundle_id_to_archetype@,
            after.types.wf(),
        ensures
            after.indexed(),
    {
        assert forall|a: int| 0 <= a < after@.archetypes.len() implies after.bundle_id_to_archetype@.contains_key(
            shape_id((#[trigger] after@.archetypes[a]).shape()),
        ) by {
            assert(before.bundle_id_to_archetype@.contains_key(
                shape_id(before@.archetypes[a].shape()),
            ));
        }
    }
}

} // verus!
