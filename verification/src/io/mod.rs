//! Slippi's file format: what the game data needs of it.

pub mod slippi;
