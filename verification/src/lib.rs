//! Renders structured receipt data into a monochrome raster for a thermal
//! printer: mixed right-to-left / left-to-right line layout, glyph
//! rasterization onto a canvas, thresholding to one bit per pixel, packing
//! into the printer's wire formats, and framing of the print session bytes.

pub mod canvas;
pub mod compose;
pub mod config;
pub mod glyphs;
pub mod layout_engine;
pub mod money;
pub mod port;
pub mod raster;
pub mod render;
pub mod runs;
pub mod session;
pub mod shaping;
pub mod strutil;
