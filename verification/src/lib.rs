//! A chunked two-dimensional tile map and the menu/in-game state machine
//! that owns it.
//!
//! The map side: [`coords`] splits positions, [`chunk`] holds a block of
//! slots, [`layer`] grows chunks on demand, [`tilemap`] keeps layers in
//! drawing order. The application side: [`entity`] is the arena, [`menu`]
//! and [`game`] are the hooks of the two phases, [`app`] is the state
//! machine, [`input`] decides the direction of movement, and [`keyboard`]
//! reads the engine's keyboard state.

pub mod app;
pub mod chunk;
pub mod coords;
pub mod entity;
pub mod game;
pub mod input;
pub mod keyboard;
pub mod layer;
pub mod menu;
pub mod tile;
pub mod tilemap;
