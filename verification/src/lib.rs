//! Authoritative game-server core: fixed-point geometry, dirty-tracked entity
//! state, a quad-tree spatial index, a fixed-tick simulation with collision
//! resolution and sleeping, a hide-and-hunt state machine, per-client
//! delta construction, and a binary wire codec; plus a 2-D grid survival
//! variant with class-based move validation and point/gap mechanics.
use vstd::prelude::*;

pub mod entities;
pub mod game;
pub mod game_config;
pub mod game_world;
pub mod geometry;
pub mod grid;
pub mod incremental_value;
pub mod network;
pub mod quad_tree;
pub mod utils;
pub mod wire;

verus! {

} // verus!
