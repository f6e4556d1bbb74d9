//! Deterministic content generation and ray traversal for a grid-based world.
//!
//! The grid is cut into square regions, each named by its centre. A region is
//! filled reproducibly from its centre and a fixed seed with a bounded number
//! of asteroids and fuel pods, and a laser ray is traced cell by cell along one
//! of eight compass directions.

mod sampler;
pub mod types;
pub mod center;
pub mod laser;
pub mod populate;
pub mod region_map;

pub use center::calc_center;
pub use laser::get_laser_collisions;
pub use populate::build_range_map;
pub use region_map::RegionMap;
pub use types::{Direction, Error, MapElement, Point};
