//! A grid snake game engine: the board, the movement rule, collision
//! detection, food placement and direction changes, with their contracts.

pub mod geometry;
pub mod food;
pub mod game;
