pub mod bits;
pub mod board;
pub mod coords;
pub mod definitions;
pub mod laws;
pub mod patterns;
pub mod position;
pub mod precalc;
pub mod render;
pub mod rules;
