//! Entity handles and the location table's rows.

use vstd::prelude::*;

verus! {

/// The integer behind entity indices, generations and row numbers.
pub type EntityId = u32;

/// Where an entity's row lives: which archetype, and which row of it.
#[derive(Debug, Clone, Copy, PartialEq, Eq, Structural)]
pub struct EntityLocation {
    pub archetype_index: EntityId,
    pub index_in_archetype: EntityId,
}

/// One row of the location table: the slot's current generation and the
/// location of the entity that occupies it.
///
/// A slot's generation is even while an entity occupies it and odd while the
/// slot is free: it starts at 0 and every spawn into a recycled slot and every
/// despawn advances it by one.
#[derive(Debug, Clone, Copy, PartialEq, Eq, Structural)]
pub struct EntityInfo {
    pub generation: EntityId,
    pub location: EntityLocation,
}

/// A handle to an entity: the index of its slot and the generation the slot
/// had when the entity was spawned.
#[derive(Debug, Clone, Copy, Hash, PartialEq, Eq, PartialOrd, Ord, Structural)]
pub struct Entity {
    pub index: EntityId,
    pub generation: EntityId,
}

impl Entity {
    /// The handle's slot index, as a specification value.
    pub open spec fn spec_index(self) -> EntityId {
        self.index
    }

    /// The handle's generation, as a specification value.
    pub open spec fn spec_generation(self) -> EntityId {
        self.generation
    }

    /// The index of the slot this handle names.
    #[verifier::when_used_as_spec(spec_index)]
    pub fn index(self) -> (i: EntityId)
        ensures
            i == self.index,
    {
        self.index
    }

    /// The generation this handle was issued with.
    #[verifier::when_used_as_spec(spec_generation)]
    pub fn generation(self) -> (g: EntityId)
        ensures
            g == self.generation,
    {
        self.generation
    }
}

} // verus!
