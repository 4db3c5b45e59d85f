pub mod fixed_point;
pub mod grid;
pub mod level;
pub mod noise;
pub mod random;
pub mod terrain;
pub mod tile;
pub mod world;
