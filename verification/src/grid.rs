//! A raster image as a grid of pixels.

use crate::pixel::Pixel;
use vstd::prelude::*;

verus! {

/// A grid of `width` by `height` pixels, stored row by row from the top,
/// each row from the left.
///
/// Both the image handed to the encoder and the pixel buffer that the
/// decoder fills are grids. A grid always holds exactly `width * height`
/// pixels.
#[derive(Debug, PartialEq, Eq)]
pub struct PixelGrid {
    width: u32,
    height: u32,
    pixels: Vec<Pixel>,
}

impl View for PixelGrid {
    type V = Seq<Pixel>;

    /// The pixels in scan order.
    closed spec fn view(&self) -> Seq<Pixel> {
        self.pixels@
    }
}

/// The cell in column `x` of row `y` has a place of its own in scan order.
pub proof fn lemma_cell_index(x: int, y: int, width: int, height: int)
    requires
        0 <= x < width,
        0 <= y < height,
    ensures
        0 <= y * width,
        y * width + x < width * height,
        (y * width + x) % width == x,
        (y * width + x) / width == y,
{
    assert(0 <= y * width) by (nonlinear_arith)
        requires
            0 <= y,
            0 <= width,
    ;
    assert(y * width + x < width * height) by (nonlinear_arith)
        requires
            0 <= x < width,
            0 <= y < height,
    ;
    vstd::arithmetic::div_mod::lemma_fundamental_div_mod_converse(y * width + x, width, y, x);
}

impl PixelGrid {
    /// The number of pixels in a row.
    pub closed spec fn spec_width(&self) -> u32 {
        self.width
    }

    /// The number of rows.
    pub closed spec fn spec_height(&self) -> u32 {
        self.height
    }

    /// A grid holds one pixel for each cell, and no more pixels than a
    /// vector can hold.
    #[verifier::type_invariant]
    pub open spec fn well_formed(&self) -> bool {
        &&& self@.len() == self.spec_width() * self.spec_height()
        &&& self@.len() <= usize::MAX
    }

    /// Builds a grid from its pixels in scan order.
    ///
    /// Returns `None` exactly when the number of pixels is not
    /// `width * height`.
    pub fn new(width: u32, height: u32, pixels: Vec<Pixel>) -> (grid: Option<PixelGrid>)
        ensures
            grid is Some <==> pixels@.len() == width * height,
            grid matches Some(g) ==> g.spec_width() == width && g.spec_height() == height && g@
                == pixels@ && g.well_formed(),
    {
        assert(width * height <= u64::MAX) by (nonlinear_arith)
            requires
                width <= u32::MAX,
                height <= u32::MAX,
        ;
        let cells: u64 = (width as u64) * (height as u64);
        if pixels.len() as u64 == cells {
            Some(PixelGrid { width, height, pixels })
        } else {
            None
        }
    }

    /// Builds a grid from pixels that are known to fill it.
    pub(crate) fn assemble(width: u32, height: u32, pixels: Vec<Pixel>) -> (grid: PixelGrid)
        requires
            pixels@.len() == width * height,
        ensures
            grid.spec_width() == width,
            grid.spec_height() == height,
            grid@ == pixels@,
            grid.well_formed(),
    {
        assert(pixels@.len() == pixels.len());
        PixelGrid { width, height, pixels }
    }

    /// The number of pixels in a row.
    #[verifier::when_used_as_spec(spec_width)]
    pub fn width(&self) -> (w: u32)
        ensures
            w == self.spec_width(),
    {
        self.width
    }

    /// The number of rows.
    #[verifier::when_used_as_spec(spec_height)]
    pub fn height(&self) -> (h: u32)
        ensures
            h == self.spec_height(),
    {
        self.height
    }

    /// The pixels in scan order.
    pub fn pixels(&self) -> (p: &[Pixel])
        ensures
            p@ == self@,
            p@.len() == self.spec_width() * self.spec_height(),
    {
        proof {
            use_type_invariant(self);
        }
        self.pixels.as_slice()
    }

    /// The pixel in column `x` of row `y`, or `None` outside the grid.
    pub fn get(&self, x: u32, y: u32) -> (p: Option<Pixel>)
        ensures
            p is Some <==> x < self.spec_width() && y < self.spec_height(),
            p matches Some(c) ==> c == self@[y * self.spec_width() + x],
    {
        proof {
            use_type_invariant(self);
        }
        if x < self.width && y < self.height {
            proof {
                lemma_cell_index(x as int, y as int, self.width as int, self.height as int);
                assert(self.pixels@.len() == self.pixels.len());
            }
            let index: usize = (y as usize) * (self.width as usize) + (x as usize);
            Some(self.pixels[index])
        } else {
            None
        }
    }
}

} // verus!
