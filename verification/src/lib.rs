//! A verified codec for the Netpbm PPM/PGM image family (P2/P3/P5/P6),
//! together with a small engine of pixel-level manipulations.
//!
//! The codec turns raw file bytes into a canonical in-memory image and back;
//! the manipulation engine maps images to new images. Both directions are
//! specified against one mathematical model of the pixel data, and the
//! round-trip law `decode(encode(x, kind)) == Ok(x)` is proved for every
//! well-formed image and both raster kinds.

pub mod args;
pub mod encode;
pub mod header;
pub mod image;
pub mod laws;
pub mod manip;
pub mod raster;
