//! Radar coverage over a digital elevation model: the discrete core.
//!
//! The elevation arithmetic itself works on floating-point values and lives
//! outside this verified library; what is verified here is the integer and
//! structural logic around it: the shape of an elevation grid and its
//! row-major layout, the decoding of SRTM `.hgt` tiles, the order in which
//! grid cells are visited, and the decisions that sort cells into visible and
//! occluded ones.

pub mod error;
pub mod hgt;
pub mod grid;
pub mod coverage;
