//! Palette swatch rendering: colors are ordered, laid out as square blocks on
//! a canvas and painted, with the geometry and the ordering proved.

pub mod color_spaces;
pub mod canvas;
pub mod lab;
pub mod layout;
pub mod parse;
pub mod render;
pub mod sorter;
