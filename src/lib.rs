//! An entity-component-system runtime: typed component storage, an entity
//! directory with recycled identifiers, per-entity component masks, systems
//! whose member sets follow those masks incrementally, an event bus, a
//! scheduler of active systems and a stack of application states.

pub mod bitset;
mod ids;
pub mod registry;
pub mod storage;
pub mod system;
pub mod world;
pub mod membership;
pub mod events;
pub mod scheduler;
pub mod states;
pub mod animation;
pub mod components;
