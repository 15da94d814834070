//! Turn-based dungeon-crawl simulation core: an entity-component world, the
//! per-turn resolution systems, a dungeon generator and a field-of-view engine.

pub mod components;
pub mod fov;
pub mod game;
pub mod grid;
pub mod map;
pub mod observer;
pub mod random;
pub mod rect;
pub mod render;
pub mod spawn;
pub mod store;
pub mod systems;
