//! A verified entity-component-system core.
//!
//! Entities are opaque `(id, generation)` handles; components are
//! type-erased byte values described by a [`type_info::TypeInfo`].
//! Entities with the same component set share an archetype: a columnar
//! store holding one contiguous byte column per component type.

pub mod archetype;
pub mod bundle;
pub mod column;
pub mod command_buffer;
pub mod entity;
pub mod error;
pub mod index_handle;
pub mod query;
pub mod resources;
pub mod schedule;
pub mod setup_graph;
pub mod system;
pub mod type_info;
pub mod world;

