//! Rendering and cursor-navigation core of a terminal text viewer:
//! grapheme segmentation into display cells, soft wrap over a fixed
//! character grid, logical-to-physical cursor resolution, and minimal
//! repaint planning.

pub mod buffer;
pub mod editor;
pub mod layout;
pub mod segment;
