//! Renderers that turn an encoded bit sequence into text: ASCII art, JSON and SVG.
pub mod ascii;
pub mod json;
pub mod svg;


pub mod text;
