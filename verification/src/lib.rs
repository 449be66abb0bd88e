//! A sparse two-dimensional grid ("board") for turn-based board games.
//!
//! The crate tracks a rectangular coordinate space that can optionally grow,
//! stores only non-empty cell values, and offers ordered iteration over all
//! positions of the current extent, plus a human-readable debug rendering.

pub mod board;
pub mod dimension;
pub mod position;
pub mod render;

pub use board::Board;
pub use board::BoardIter;
pub use dimension::Dimension;
pub use dimension::DimensionError;
pub use dimension::DimensionIterator;
pub use position::Position;
pub use render::TextRender;
