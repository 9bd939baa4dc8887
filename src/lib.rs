//! A layered raster canvas with a parametric brush engine, flood fill and
//! bounded undo/redo, with every operation specified and verified.

pub mod color;
pub mod canvas;
pub mod history;
pub mod editor;
pub mod brush;
pub mod mask;
pub mod paint;
pub mod project;
pub mod format;
pub mod fill;
