//! Sprite-sheet resource catalog: names derived from image files, grid
//! slicing of sheets, and sprite lookup with a guaranteed fallback.

pub mod catalog;
pub mod error;
pub mod names;
pub mod sheet;
