//! The two managers as one system that numbers the entities it creates.

use vstd::prelude::*;
use core::any::TypeId;
use crate::component::ErasedValue;
use crate::component_manager::ComponentManager;
use crate::entity_builder::EntityBuilder;
use crate::entity_manager::Entity;
use crate::entity_manager::EntityManager;

verus! {

/// A component manager, an entity manager, and the number of the next entity
/// to create.
pub struct EntityComponentSystem {
    component_manager: ComponentManager,
    entity_manager: EntityManager,
    entity_counter: u32,
}

impl Default for EntityComponentSystem {
    fn default() -> (system: Self)
        ensures
            system.created() == 0,
            system.entities().entities@ == Seq::<Entity>::empty(),
            system.entities().num_of_entities == 0,
            system.components().stored() == Map::<(Entity, TypeId), ErasedValue>::empty(),
            system.components().registered() == Set::<TypeId>::empty(),
    {
        EntityComponentSystem::new()
    }
}

impl EntityComponentSystem {
    /// The number of entities created so far, which is the number of the next.
    pub closed spec fn created(&self) -> u32 {
        self.entity_counter
    }

    /// The entity manager, as a specification value.
    pub closed spec fn entities(&self) -> EntityManager {
        self.entity_manager
    }

    /// The component manager, as a specification value.
    pub closed spec fn components(&self) -> ComponentManager {
        self.component_manager
    }

    /// A system without entities, components and registered types.
    pub fn new() -> (system: Self)
        ensures
            system.created() == 0,
            system.entities().entities@ == Seq::<Entity>::empty(),
            system.entities().num_of_entities == 0,
            system.components().stored() == Map::<(Entity, TypeId), ErasedValue>::empty(),
            system.components().registered() == Set::<TypeId>::empty(),
    {
        EntityComponentSystem {
            component_manager: ComponentManager::default(),
            entity_manager: EntityManager::default(),
            entity_counter: 0,
        }
    }

    /// The entity manager.
    pub fn entity_manager(&self) -> (manager: &EntityManager)
        ensures
            *manager == self.entities(),
    {
        &self.entity_manager
    }

    /// Mutable access to the entity manager.
    pub fn entity_manager_mut(&mut self) -> (manager: &mut EntityManager)
        ensures
            *manager == old(self).entities(),
            final(self).entities() == *final(manager),
            final(self).components() == old(self).components(),
            final(self).created() == old(self).created(),
    {
        &mut self.entity_manager
    }

    /// The component manager.
    pub fn component_manager(&self) -> (manager: &ComponentManager)
        ensures
            *manager == self.components(),
    {
        &self.component_manager
    }

    /// Mutable access to the component manager.
    pub fn component_manager_mut(&mut self) -> (manager: &mut ComponentManager)
        ensures
            *manager == old(self).components(),
            final(self).components() == *final(manager),
            final(self).entities() == old(self).entities(),
            final(self).created() == old(self).created(),
    {
        &mut self.component_manager
    }

    /// Starts building the entity with the next number. The builder borrows
    /// both managers: what it does to them is done to this system.
    pub fn create_entity(&mut self) -> (builder: EntityBuilder<'_>)
        requires
            old(self).created() < u32::MAX,
        ensures
            builder.entity == Entity(old(self).created()),
            *builder.entity_manager == old(self).entities(),
            *builder.component_manager == old(self).components(),
            final(self).created() == old(self).created() + 1,
            final(self).entities() == *final(builder.entity_manager),
            final(self).components() == *final(builder.component_manager),
    {
        let entity: Entity = Entity::from(self.entity_counter);
        self.entity_counter += 1;

        EntityBuilder {
            entity,
            entity_manager: &mut self.entity_manager,
            component_manager: &mut self.component_manager,
        }
    }
}

} // verus!
