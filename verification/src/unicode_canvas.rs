//! The box-drawing canvas: fragments per character cell, resolved to glyphs.
pub use border::Border;
pub use canvas::Canvas;

pub mod border;
pub mod canvas;
pub mod fragment;
pub mod junctions;
pub mod one_to_one;
pub mod order;
pub mod string_buffer;
pub mod unicode_map;
