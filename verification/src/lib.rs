//! Core of a Sokoban-style puzzle game.
//!
//! The library covers the level representation and the playable-level state
//! machine: parsing a textual grid into a [`level::Level`], enforcing
//! push-based movement rules in [`level::playable_level::PlayState`],
//! detecting completion, and reversing prior moves. Rendering, audio and
//! input polling are left to the driver, which feeds abstract intents in and
//! receives abstract outcomes back.

pub mod args;
pub mod entity;
pub mod input;
pub mod level;
pub mod save;
pub mod text;
pub mod tile;
pub mod vec2;
