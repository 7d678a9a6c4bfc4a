//! Data model of a single game of Super Smash Brothers Melee, as recorded by Slippi.

pub mod text;
pub mod json;
pub mod io;
pub mod frame;
pub mod game;
