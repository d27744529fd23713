//! Text-derived watermarks for RGB rasters: the alphabet value of a watermark
//! text, YCbCr conversion in exact fixed-point arithmetic, and the raster planes
//! that the luminance transform works on.

pub mod color;
pub mod raster;
pub mod watermark;
