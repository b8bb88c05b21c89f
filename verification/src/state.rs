//! The state of a game session and its parts.

pub mod gamestate;
pub mod generate;
pub mod inventory;
pub mod map;
pub mod player;
pub mod river;
pub mod serialized;
