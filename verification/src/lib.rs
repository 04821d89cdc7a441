//! Palette catalogue, palette image sampling and GPU shader program lifecycle
//! for a gradient wallpaper generator, with machine-checked contracts.

pub mod catalog;
pub mod codec;
pub mod palette;
pub mod paths;
pub mod raster;
pub mod shader;
pub mod text;
pub mod wallpaper;
