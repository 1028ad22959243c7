//! Encoding a grid into a container and decoding it again.

use crate::container::{
    container_bytes, header_height, header_width, is_container, records, Container,
};
use crate::error::CodecError;
use crate::grid::PixelGrid;
use crate::pixel::Pixel;
use crate::rle::{encode_pixels, expand_runs, rle, unpack};
use vstd::prelude::*;

verus! {

/// The bytes of the container that codes an image.
pub open spec fn encoded_bytes(width: u32, height: u32, pixels: Seq<Pixel>) -> Seq<u8> {
    container_bytes(width, height, rle(pixels))
}

/// What decoding a byte sequence gives: the pixels of the image, or the
/// reason for which the bytes are refused.
pub open spec fn decoded(bytes: Seq<u8>) -> Result<Seq<Pixel>, CodecError> {
    if !is_container(bytes) {
        Err(CodecError::Format)
    } else {
        unpack(records(bytes), (header_width(bytes) * header_height(bytes)) as nat)
    }
}

/// Codes the pixels of a grid as runs, in scan order, and keeps its
/// dimensions. Never fails; a grid without pixels gives an empty stream.
pub fn encode(grid: &PixelGrid) -> (container: Container)
    ensures
        container.spec_width() == grid.spec_width(),
        container.spec_height() == grid.spec_height(),
        container@ == rle(grid@),
{
    let pixels = grid.pixels();
    assert(pixels@.len() == pixels.len());
    let runs = encode_pixels(pixels);
    Container::assemble(grid.width(), grid.height(), runs)
}

/// Expands the runs of a container into a grid of its dimensions.
///
/// Fails with [`CodecError::OutOfBounds`] exactly when the runs hold more
/// pixels than the grid has cells. Where they hold fewer, the cells behind
/// the last run are black.
pub fn decode(container: &Container) -> (grid: Result<PixelGrid, CodecError>)
    ensures
        match grid {
            Ok(g) => {
                &&& unpack(container@, container.spec_pixel_count()) == Ok::<
                    Seq<Pixel>,
                    CodecError,
                >(g@)
                &&& g.spec_width() == container.spec_width()
                &&& g.spec_height() == container.spec_height()
            },
            Err(e) => unpack(container@, container.spec_pixel_count()) == Err::<
                Seq<Pixel>,
                CodecError,
            >(e),
        },
{
    let size = container.pixel_count();
    match expand_runs(container.runs(), size) {
        Ok(pixels) => Ok(PixelGrid::assemble(container.width(), container.height(), pixels)),
        Err(e) => Err(e),
    }
}

/// Encodes a grid and writes the container.
pub fn encode_to_bytes(grid: &PixelGrid) -> (bytes: Vec<u8>)
    ensures
        bytes@ == encoded_bytes(grid.spec_width(), grid.spec_height(), grid@),
{
    encode(grid).to_bytes()
}

/// Reads a container and decodes it.
///
/// Fails with [`CodecError::Format`] exactly when the bytes are no
/// container, and with [`CodecError::OutOfBounds`] exactly when they are one
/// whose runs hold more pixels than its header announces.
pub fn decode_from_bytes(bytes: &[u8]) -> (grid: Result<PixelGrid, CodecError>)
    ensures
        match grid {
            Ok(g) => {
                &&& decoded(bytes@) == Ok::<Seq<Pixel>, CodecError>(g@)
                &&& g.spec_width() == header_width(bytes@)
                &&& g.spec_height() == header_height(bytes@)
            },
            Err(e) => decoded(bytes@) == Err::<Seq<Pixel>, CodecError>(e),
        },
{
    match Container::from_bytes(bytes) {
        Ok(container) => decode(&container),
        Err(e) => Err(e),
    }
}

} // verus!
