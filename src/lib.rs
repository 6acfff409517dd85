//! A turn-based dungeon simulation: map generation, an entity registry,
//! field of view, path search, monster decisions, combat, inventory and the
//! turn scheduler that orders them.

pub mod rect;
pub mod rng;
pub mod components;
pub mod map;
pub mod fov;
pub mod world;
pub mod gamelog;
pub mod combat;
pub mod visibility;
pub mod pathfinding;
pub mod map_indexing;
pub mod monster_ai;
pub mod inventory;
pub mod spawner;
pub mod player;
pub mod state;
pub mod connectivity;
