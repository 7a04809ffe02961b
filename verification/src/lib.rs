//! A small text-adventure engine: rooms, items, a player, the commands that
//! move them about, and snapshots of what play has changed.

pub mod command;
pub mod content;
pub mod engine;
pub mod laws;
pub mod model;
pub mod reply;
pub mod rules;
pub mod snapshot;
pub mod table;
pub mod text;
pub mod world;
