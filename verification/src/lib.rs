//! Anthill: the rules, world model and dungeon generation of a terminal
//! rogue-like, with their behaviour stated in contracts and proved.

pub mod ai;
pub mod gameplay;
pub mod data;
pub mod proc_gen;
pub mod util;
pub mod world;
