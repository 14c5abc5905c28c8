//! Simulation core of a turn-based dungeon crawler: level generation,
//! entities with optional capabilities, collision and movement, visibility
//! bookkeeping and the turn engine.

pub mod components;
pub mod rng;
pub mod color;
pub mod text;
pub mod tile;
pub mod rect;
pub mod state;
pub mod object;
pub mod collision;
pub mod carve;
pub mod spawn;
pub mod generation;
pub mod visibility;
pub mod turn;
