//! Game logic of a terminal dodging game: a player moves along the bottom rows
//! of a fixed grid while obstacles fall from the top.

pub mod config;
pub mod player;
pub mod obstacle;
pub mod dash;
pub mod ultimate;
pub mod rules;
pub mod app;
pub mod laws;
