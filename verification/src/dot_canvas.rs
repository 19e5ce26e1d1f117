//! The braille canvas: shapes become points, points become dots.
//!
//! Coordinates are fixed-point numbers. One unit of length is `UNIT` ticks,
//! and every generator advances in steps of `STEP` ticks, a quarter of a
//! unit, which is also the distance between two neighbouring dots.
pub use arc::Arc;
pub use circle::Circle;
pub use grid::Context;
pub use grid::Grid;
pub use line::Line;
pub use shape::Dot;
pub use shape::Shape;

pub mod arc;
pub mod center;
pub mod circle;
pub mod grid;
pub mod line;
pub mod overlay;
pub mod root;
pub mod shape;
