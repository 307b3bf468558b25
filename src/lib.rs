//! A tile-painting engine: a sparse grid of tiles, strokes that paint it as
//! single reversible edits, a bounded undo/redo history and the binary
//! document that saves a workspace.

pub mod tile;
pub mod indexed;
pub mod grid;
pub mod history;
pub mod model;
pub mod editor;
pub mod document;
pub mod input;
