pub mod grid;
pub mod puzzle;
pub mod tile;
