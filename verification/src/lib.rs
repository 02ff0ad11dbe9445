//! Rules of a small tile-based mining and building game: which tiles of the
//! map are taken, what an entity is ordered to do next, how it walks a path,
//! which building the player is about to place and who is an enemy of whom.
//! Rendering, input and the engine loop live outside this crate; they hand
//! plain values in and take plain values back.

pub mod entity;
pub mod map;
pub mod buildings;
pub mod player;
pub mod commands;
pub mod path_following;
pub mod ai;
