//! Vector shapes rendered as fixed-width text.
//!
//! Two engines live here. `dot_canvas` rasterises dots, lines, circles and
//! arcs onto a grid of braille characters, each of which holds a matrix of
//! two by four dots. `unicode_canvas` composes straight and rounded line
//! fragments cell by cell and resolves each cell to one box-drawing glyph.
//!
//! Everything is computed in whole numbers. The braille canvas measures in
//! ticks, 1024 to the unit of length, so that a quarter of a unit, the
//! distance between two dots, is exact; where a position falls between two
//! ticks it is rounded down. The box canvas counts character cells.
pub mod dot_canvas;
pub mod text;
pub mod unicode_canvas;
