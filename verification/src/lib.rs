//! Verified core of an SVG-icon export library.
//!
//! The crate has two independent components:
//! - a rasterizer pipeline that parses an SVG description, computes a
//!   fit-and-center transform, validates the rendered pixels and encodes
//!   them as PNG (`geometry`, `raster`);
//! - a color rewriter that substitutes the reserved `currentColor` token
//!   with a caller-supplied color (`color`).

pub mod color;
pub mod geometry;
pub mod raster;
