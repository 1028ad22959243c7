//! The ways in which decoding and rasterizing can fail.

use vstd::prelude::*;

verus! {

/// Why an operation of the codec was refused.
#[derive(Clone, Copy, Debug, PartialEq, Eq, Structural)]
pub enum CodecError {
    /// The bytes are no container: the header is cut short, the records do
    /// not fill whole groups of four bytes, or the pixel count that the
    /// header announces cannot be addressed.
    Format,
    /// The runs together hold more pixels than the header announces.
    OutOfBounds,
    /// The image cannot be painted: a side is zero, or too long for a canvas.
    Encoding,
}

} // verus!
