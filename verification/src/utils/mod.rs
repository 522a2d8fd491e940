//! Support types: the digit set and the grid geometry.

pub mod bit_map;
pub mod coord;

pub use bit_map::BitMap;
pub use coord::Coord;
