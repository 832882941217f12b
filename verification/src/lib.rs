//! Verified core of a turn-based western roguelike: grid geometry,
//! deterministic noise, entity components, shared game resources,
//! town layout planning, AI path finding and the NPC behaviour state
//! machine.
pub mod grid_vec;
pub mod noise;
pub mod components;
pub mod resources;
pub mod town;
pub mod ai;
pub mod pathfinding;
pub mod graphics;
pub mod gamemap;
pub mod particles;
pub mod events;
pub mod rules;
pub mod world_check;
pub mod streets;
pub mod outskirts;
pub mod projectile;
pub mod finishing;
pub mod landmarks;
pub mod structures;
pub mod railroad;
pub mod decor;
pub mod frontier;
pub mod influence;
pub mod blocks;
pub mod tactics;
pub mod brain;
pub mod abilities;
pub mod spawning;
pub mod controls;
