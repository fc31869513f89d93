pub mod direction;
pub mod grid;
pub mod map;
pub mod math;
pub mod model;
pub mod random;
pub mod tile;
