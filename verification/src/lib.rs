//! Pixel-sorting engine: reorders the pixels of an RGBA raster image by a
//! chosen channel or by a value derived from the HSL color model, producing
//! the classic "pixel sorting" glitch effect.
//!
//! The engine is pure: it maps an in-memory image and a sorting mode to a new
//! in-memory image of the same dimensions whose pixels are a stably sorted
//! permutation of the input. Decoding and encoding of concrete file formats
//! are left to the caller.

pub mod format;
pub mod keys;
pub mod pixel;
pub mod sort;
