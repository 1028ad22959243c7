//! A run-length codec for raster images in the BRUH container format.
//!
//! A pixel grid is scanned row by row, runs of identical colours are
//! collected (at most 255 pixels per run), and the runs are framed behind an
//! eight-byte header holding the width and the height. Decoding inverts each
//! step. Every function states its result over the mathematical models in
//! [`rle`] and [`container`], and the laws that tie encoding and decoding
//! together are proved in [`laws`].

pub mod pixel;
pub mod error;
pub mod wire;
pub mod rle;
pub mod grid;
pub mod container;
pub mod codec;
pub mod laws;
pub mod raster;

pub use error::CodecError;
pub use pixel::{Pixel, Run};
