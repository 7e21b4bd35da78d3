//! A character-cell canvas with exact line rasterisation, and the integer
//! side of an island terrain generator that paints into it.

pub mod cell;
pub mod frame;
pub mod grid;
pub mod input;
pub mod line;
pub mod noise;
pub mod surface;
pub mod terrain;
pub mod vec;
