//! Field-of-view computation on a rectangular grid of opaque and transparent
//! tiles, by recursive shadowcasting over the eight octants around an observer.
//!
//! Slopes and sub-tile positions are kept as exact integer ratios and
//! half-tile units, so every result is a function of the grid alone.

pub mod corridor;
pub mod farther;
pub mod geometry;
pub mod grid;
pub mod octant;
pub mod open_ground;
pub mod reach;
pub mod scan;
pub mod visibility;
pub mod visible;

pub use geometry::{Pivot, Ratio, Slope};
pub use grid::{GridCoords, TileType, VisibilityError, World};
pub use octant::Octant;
pub use visibility::Visibility;
pub use visible::VisibleTiles;
