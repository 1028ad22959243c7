//! Colours and runs of colours.

use vstd::prelude::*;

verus! {

/// The longest run that the one-byte length field of a record can hold.
pub const MAX_RUN: u8 = 255;

/// An opaque RGB colour with 8 bits per channel. Transparency is not
/// represented: every pixel is taken to be fully opaque.
#[derive(Clone, Copy, Debug, PartialEq, Eq, Structural)]
pub struct Pixel {
    pub r: u8,
    pub g: u8,
    pub b: u8,
}

/// The colour of every buffer slot that no run has written.
pub open spec fn black() -> Pixel {
    Pixel { r: 0, g: 0, b: 0 }
}

impl Pixel {
    /// Builds a pixel from its three channels.
    pub fn new(r: u8, g: u8, b: u8) -> (p: Pixel)
        ensures
            p == (Pixel { r, g, b }),
    {
        Pixel { r, g, b }
    }

    /// The default colour of a fresh pixel buffer.
    pub fn black() -> (p: Pixel)
        ensures
            p == black(),
    {
        Pixel { r: 0, g: 0, b: 0 }
    }
}

/// A number of consecutive pixels of one colour, in scan order.
///
/// A stream that the encoder wrote holds only lengths from 1 to 255. A
/// stream read from foreign bytes may hold a length of 0, which stands for
/// no pixel at all.
#[derive(Clone, Copy, Debug, PartialEq, Eq, Structural)]
pub struct Run {
    pub length: u8,
    pub color: Pixel,
}

} // verus!
