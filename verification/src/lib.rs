//! A terminal raycaster's verified core: keyboard state, the tile map and
//! the half-block frame encoder.

pub mod input;
pub mod map;
pub mod ray;
pub mod render;
