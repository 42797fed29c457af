//! Building an entity step by step: components first, then the entity itself.

use vstd::prelude::*;
use core::any::TypeId;
use crate::component::ErasedValue;
use crate::component_manager::added;
use crate::component_manager::ComponentManager;
use crate::entity_manager::Entity;
use crate::entity_manager::EntityManager;

verus! {

/// An entity in the making. It borrows the two managers of the system that
/// hands it out: components go to the one as they are given, the entity goes
/// to the other when it is built.
pub struct EntityBuilder<'a> {
    pub entity: Entity,
    pub entity_manager: &'a mut EntityManager,
    pub component_manager: &'a mut ComponentManager,
}

impl<'a> EntityBuilder<'a> {
    /// Gives the entity `component`, if the type of the component is
    /// registered and the entity has no component of that type yet. The
    /// component is filed under its type; `key` is a label for the reader.
    pub fn with<C: 'static + Send + Sync>(self, key: &str, component: C) -> (r: Self)
        ensures
            r.entity == self.entity,
            *r.entity_manager == *old(self.entity_manager),
            r.component_manager.registered() == old(self.component_manager).registered(),
            exists|id: TypeId, value: ErasedValue|
                r.component_manager.stored() == #[trigger] added(
                    old(self.component_manager).stored(),
                    old(self.component_manager).registered(),
                    self.entity,
                    id,
                    value,
                ),
            *final(self.entity_manager) == *final(r.entity_manager),
            *final(self.component_manager) == *final(r.component_manager),
    {
        self.component_manager.add_component_to_entity(self.entity, component);
        self
    }

    /// Puts the next entity of the entity manager in use and returns the
    /// entity that was built.
    pub fn build(self) -> (entity: Entity)
        requires
            old(self.entity_manager).num_of_entities < u32::MAX,
        ensures
            entity == self.entity,
            final(self.entity_manager).entities@ == old(self.entity_manager).entities@.push(
                Entity(old(self.entity_manager).num_of_entities),
            ),
            final(self.entity_manager).num_of_entities == old(self.entity_manager).num_of_entities + 1,
            *final(self.component_manager) == *old(self.component_manager),
    {
        self.entity_manager.add();
        self.entity
    }
}

} // verus!
