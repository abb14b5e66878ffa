//! Verified core of a source-code screenshot renderer.
//!
//! The library turns highlighted text runs plus a set of visual options into
//! a composited raster image and decides how that image is delivered: to an
//! explicit file, to a timestamp-named file, or to the platform clipboard.

pub mod capture;
pub mod clipboard;
pub mod codec;
pub mod color;
pub mod config;
pub mod dispatch;
pub mod error;
pub mod font;
pub mod raster;
pub mod registry;
pub mod render;
pub mod text;
pub mod watermark;
