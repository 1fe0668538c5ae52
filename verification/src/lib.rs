//! Broad-phase collision detection for circles on a uniform spatial grid.
//!
//! Lengths and coordinates are fixed-point integers: `UNIT` coordinate steps
//! make one world unit. The grid's world size and cell size are given in whole
//! world units.

pub mod geometry;
pub mod collision;
pub mod cells;
pub mod model;
mod sweep;
pub mod grid;
pub mod laws;
pub mod coverage;

pub use crate::collision::Collision;
pub use crate::geometry::{Body, Vector2, UNIT};
pub use crate::grid::{GridError, GridPhysics};
pub use crate::model::GridView;
