//! Field-of-view computation for a tile grid: a concentric ring walk around an
//! origin and a restrictive precise angle shadowcaster built on top of it,
//! with the maps, views and systems of a small tile-based game around them.
//!
//! Angles are exact fractions and opacities are integers in units of
//! [`shadowcast::OPAQUE`], so every result is stated and proved exactly.

pub mod circle_iter;
pub mod shadowcast;
pub mod level_map;
pub mod fov;
pub mod lighting;
pub mod world_map;
pub mod components;
pub mod render;
pub mod world_render;
pub mod player_control;
pub mod config;
pub mod ui;
