//! An entity-component store: entities are plain identifiers, components are
//! values kept in one table per component type, and queries join the tables
//! on the entity. The functions are verified against contracts over the
//! mathematical content of the store; the one exception is a call into the
//! standard library in `world`, whose contract is stated and taken on trust.

pub mod components;
pub mod entity;
pub mod join;
pub mod laws;
pub mod registry;
pub mod storage;
pub mod systems;
pub mod world;
