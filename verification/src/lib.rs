pub mod grid;
pub mod random;
pub mod render;
