//! Stores for entities and their components.
//!
//! The main one is the archetype-based [`world::World`]. Entities are
//! generational handles. Each entity carries a set of components, at most one
//! per component type; entities with the same set of component types share an
//! archetype, a table with one row per entity and one column per component
//! type. Adding or removing a component moves the entity's row to the
//! archetype of its new shape.
//!
//! - [`entity`], [`error`], [`text`]: handles, errors and their messages.
//! - [`component`]: component values with their type erased, and columns.
//! - [`shape`]: sorted lists of component types, and their identifiers.
//! - [`archetype`]: the tables.
//! - [`registry`], [`bundle`]: the numbering of component types, and the
//!   components an entity is spawned with.
//! - [`model`]: what a world is mathematically, and what each operation makes
//!   of it; [`wellformed`]: that each operation keeps it well formed;
//!   [`laws`]: what follows for sequences of operations.
//! - [`world`], [`query`]: the world and the queries on it.
//!
//! Beside it stands a simple store for small numbers of entities:
//! [`entity_manager`] lists entities that are plain numbers,
//! [`component_manager`] keeps their components in one hash map, and [`ecs`]
//! with [`entity_builder`] puts the two together.

pub mod entity;
pub mod error;
pub mod text;
pub mod component;
pub mod shape;
pub mod archetype;
pub mod model;
pub mod wellformed;
pub mod registry;
pub mod bundle;
pub mod world;
pub mod laws;
pub mod query;
pub mod entity_manager;
pub mod component_manager;
pub mod entity_builder;
pub mod ecs;
