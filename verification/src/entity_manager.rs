//! A flat list of entities that are plain numbers, without generations and
//! without components.

use vstd::prelude::*;
use vstd::std_specs::convert::FromSpecImpl;
use vstd::std_specs::convert::IntoSpec;

verus! {

/// An entity that is nothing but its number.
#[derive(Copy, Clone, Debug, Hash, PartialEq, Eq, PartialOrd, Structural)]
pub struct Entity(pub u32);

impl From<u32> for Entity {
    fn from(u: u32) -> (entity: Self) {
        Entity(u)
    }
}

impl FromSpecImpl<u32> for Entity {
    open spec fn obeys_from_spec() -> bool {
        true
    }

    open spec fn from_spec(u: u32) -> Entity {
        Entity(u)
    }
}

impl Default for Entity {
    fn default() -> (entity: Self)
        ensures
            entity == Entity(0),
    {
        Entity(0)
    }
}

/// Hands out entities numbered from 0 and keeps the list of those that are
/// in use.
pub struct EntityManager {
    pub entities: Vec<Entity>,
    pub num_of_entities: u32,
}

impl Default for EntityManager {
    fn default() -> (manager: Self)
        ensures
            manager.entities@ == Seq::<Entity>::empty(),
            manager.num_of_entities == 0,
    {
        EntityManager { entities: Vec::new(), num_of_entities: 0 }
    }
}

/// The index of the first occurrence of `entity` in `entities`, or the length
/// of `entities` if it does not occur.
pub open spec fn first_index_of(entities: Seq<Entity>, entity: Entity) -> int
    decreases entities.len(),
{
    if entities.len() == 0 {
        0
    } else if entities.first() == entity {
        0
    } else {
        1 + first_index_of(entities.drop_first(), entity)
    }
}

/// The list `entities` without the first occurrence of `entity`; the list
/// itself if `entity` does not occur in it.
pub open spec fn removed(entities: Seq<Entity>, entity: Entity) -> Seq<Entity> {
    if entities.contains(entity) {
        entities.remove(first_index_of(entities, entity))
    } else {
        entities
    }
}

/// `first_index_of` is at most the length, and below the length it is the
/// index of the first occurrence.
pub proof fn lemma_first_index_of(entities: Seq<Entity>, entity: Entity)
    ensures
        0 <= first_index_of(entities, entity) <= entities.len(),
        forall|i: int| 0 <= i < first_index_of(entities, entity) ==> entities[i] != entity,
        first_index_of(entities, entity) < entities.len() ==> entities[first_index_of(
            entities,
            entity,
        )] == entity,
        entities.contains(entity) <==> first_index_of(entities, entity) < entities.len(),
    decreases entities.len(),
{
    if entities.len() == 0 {
    } else if entities.first() == entity {
        assert(entities[0] == entity);
    } else {
        let rest = entities.drop_first();
        lemma_first_index_of(rest, entity);
        let at = first_index_of(rest, entity);
        assert forall|i: int| 0 <= i < at + 1 implies entities[i] != entity by {
            if i > 0 {
                assert(rest[i - 1] == entities[i]);
            }
        }
        if at < rest.len() {
            assert(rest[at] == entities[at + 1]);
        }
        if entities.contains(entity) {
            let i = choose|i: int| 0 <= i < entities.len() && entities[i] == entity;
            assert(rest[i - 1] == entity);
        }
    }
}

impl EntityManager {
    /// Puts the entity with the next number in use.
    pub fn add(&mut self)
        requires
            old(self).num_of_entities < u32::MAX,
        ensures
            final(self).entities@ == old(self).entities@.push(Entity(old(self).num_of_entities)),
            final(self).num_of_entities == old(self).num_of_entities + 1,
    {
        let entity = Entity::from(self.num_of_entities);
        self.entities.push(entity);
        self.num_of_entities += 1;
    }

    /// Takes `entity` out of use: its first occurrence leaves the list, if
    /// there is one, and the count goes down by one either way.
    pub fn remove<I: Into<Entity>>(&mut self, entity: I)
        requires
            old(self).num_of_entities > 0,
        ensures
            final(self).num_of_entities == old(self).num_of_entities - 1,
            exists|which: Entity|
                {
                    &&& I::obeys_into_spec() ==> which == entity.into_spec()
                    &&& #[trigger] removed(old(self).entities@, which) == final(self).entities@
                },
    {
        let which: Entity = entity.into();
        self.remove_entity(which);
    }

    /// Takes the entity `entity` out of use: its first occurrence leaves the
    /// list, if there is one, and the count goes down by one either way.
    pub fn remove_entity(&mut self, entity: Entity)
        requires
            old(self).num_of_entities > 0,
        ensures
            final(self).num_of_entities == old(self).num_of_entities - 1,
            final(self).entities@ == removed(old(self).entities@, entity),
    {
        proof {
            lemma_first_index_of(self.entities@, entity);
        }
        let mut i: usize = 0;
        while i < self.entities.len() && !(self.entities[i] == entity)
            invariant
                i <= self.entities@.len(),
                self.entities@ == old(self).entities@,
                forall|k: int| 0 <= k < i ==> self.entities@[k] != entity,
            decreases self.entities@.len() - i,
        {
            i = i + 1;
        }
        if i < self.entities.len() {
            self.entities.remove(i);
        }
        self.num_of_entities -= 1;
    }

    /// Whether `entity` is in use.
    pub fn has<I: Into<Entity>>(self, entity: I) -> (found: bool)
        ensures
            exists|which: Entity|
                {
                    &&& I::obeys_into_spec() ==> which == entity.into_spec()
                    &&& found == #[trigger] self.entities@.contains(which)
                },
    {
        let which: Entity = entity.into();
        self.has_entity(which)
    }

    /// Whether the entity `entity` is in use.
    pub fn has_entity(&self, entity: Entity) -> (found: bool)
        ensures
            found == self.entities@.contains(entity),
    {
        let mut i: usize = 0;
        while i < self.entities.len() && !(self.entities[i] == entity)
            invariant
                i <= self.entities@.len(),
                forall|k: int| 0 <= k < i ==> self.entities@[k] != entity,
            decreases self.entities@.len() - i,
        {
            i = i + 1;
        }
        let found = i < self.entities.len();
        assert(found == self.entities@.contains(entity)) by {
            if found {
                assert(self.entities@[i as int] == entity);
            }
        }
        found
    }
}

} // verus!
