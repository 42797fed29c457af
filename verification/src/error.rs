//! The errors that operations on a world report.

use vstd::prelude::*;
use vstd::string::StringExecFns;
use core::any::TypeId;
use crate::component::type_id_of;
use crate::entity::EntityId;
use crate::text::append_decimal;
use crate::text::decimal;

verus! {

/// The handle names no live entity: its slot was never allocated, is free, or
/// has moved on to a later generation.
#[derive(Debug, Clone, Copy, PartialEq, Eq, Structural)]
pub struct NoSuchEntity;

impl NoSuchEntity {
    /// What the error says.
    pub fn message(&self) -> (text: String)
        ensures
            text@ == "The entity no longer exists so the operation cannot be performed"@,
    {
        String::from_str("The entity no longer exists so the operation cannot be performed")
    }
}

/// The sentence that says that the entity with index `entity` has no
/// component of the type called `name`.
pub open spec fn missing_component_text(entity: EntityId, name: Seq<char>) -> Seq<char> {
    "Entity "@ + decimal(entity as nat) + " does not have a ["@ + name + "] component"@
}

/// The entity exists but carries no component of the requested type.
#[derive(Debug, Clone, Copy)]
pub struct EntityMissingComponent(pub(crate) EntityId, pub(crate) TypeId);

impl EntityMissingComponent {
    /// The error for entity index `entity_id` lacking a component of type `T`.
    pub fn new<T: 'static>(entity_id: EntityId) -> (e: Self)
        ensures
            e.entity_index() == entity_id,
    {
        EntityMissingComponent(entity_id, type_id_of::<T>())
    }

    /// The entity index the error is about, as a specification value.
    pub closed spec fn spec_entity_index(&self) -> EntityId {
        self.0
    }

    /// The index of the entity that lacks the component.
    #[verifier::when_used_as_spec(spec_entity_index)]
    pub fn entity_index(&self) -> (i: EntityId)
        ensures
            i == self.spec_entity_index(),
    {
        self.0
    }

    /// What the error says: which entity lacks a component of which type.
    /// `name` is the name of the component type that was asked for; the error
    /// itself holds the type's identifier, which has no text.
    pub fn message(&self, name: &str) -> (text: String)
        ensures
            text@ == missing_component_text(self.entity_index(), name@),
    {
        let mut text = String::from_str("Entity ");
        append_decimal(&mut text, self.0);
        text.append(" does not have a [");
        text.append(name);
        text.append("] component");
        text
    }

    /// The identifier of the component type that was asked for, as a
    /// specification value.
    pub closed spec fn spec_component_type(&self) -> TypeId {
        self.1
    }

    /// The identifier of the component type that was asked for.
    #[verifier::when_used_as_spec(spec_component_type)]
    pub fn component_type(&self) -> (id: TypeId)
        ensures
            id == self.spec_component_type(),
    {
        self.1
    }
}

/// Why an operation on one component of one entity failed.
#[derive(Debug, Clone, Copy)]
pub enum ComponentError {
    EntityMissingComponent(EntityMissingComponent),
    NoSuchEntity(NoSuchEntity),
}

impl ComponentError {
    /// What the error says. `name` is the name of the component type that was
    /// asked for; it is used where the entity lacks the component.
    pub fn message(&self, name: &str) -> (text: String)
        ensures
            self matches ComponentError::EntityMissingComponent(e) ==> text@
                == missing_component_text(e.entity_index(), name@),
            self matches ComponentError::NoSuchEntity(_) ==> text@
                == "The entity no longer exists so the operation cannot be performed"@,
    {
        match self {
            ComponentError::EntityMissingComponent(e) => e.message(name),
            ComponentError::NoSuchEntity(e) => e.message(),
        }
    }
}

/// A query found nothing to hand out.
#[derive(Debug, Clone, Copy, PartialEq, Eq, Structural)]
pub struct FetchError;

} // verus!
