pub mod entities;
pub mod game;
pub mod game_map;
pub mod incremental_value;
