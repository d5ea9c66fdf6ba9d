//! Verified core of a 2D lunar-lander game: body progression, run outcomes,
//! high-score persistence format, HUD texts and the engine-sound container.

pub mod planets;
pub mod text;
pub mod persistence;
pub mod game_flow;
pub mod ui;
pub mod audio;
pub mod collision;
pub mod terrain;
