pub mod entity;
pub mod player;
pub mod prop;
