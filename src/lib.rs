//! Integer and text core of a sphere ray tracer: selection of the background,
//! reading of command-line coordinates and file names, and the 8-bit RGB
//! raster that rendered pixels are written into and encoded from.

pub mod text;
pub mod background;
pub mod config;
pub mod raster;
