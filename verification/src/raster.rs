//! Painting a decoded grid onto a canvas.
//!
//! The pixel with index `i` in scan order is painted as a square of side one
//! at column `i mod width` of row `i div width`. No two pixels are painted at
//! the same place, so they may be painted in any order, or all at once.

use crate::error::CodecError;
use crate::grid::{lemma_cell_index, PixelGrid};
use crate::pixel::Pixel;
use vstd::prelude::*;

verus! {

/// One filled square of side one: where it goes on the canvas, and its
/// colour.
#[derive(Clone, Copy, Debug, PartialEq, Eq, Structural)]
pub struct PaintOp {
    pub x: u32,
    pub y: u32,
    pub color: Pixel,
}

/// A canvas can be made for these dimensions: no side is zero, and each fits
/// in the signed 32-bit size of a canvas.
pub open spec fn paintable(width: u32, height: u32) -> bool {
    0 < width <= i32::MAX && 0 < height <= i32::MAX
}

/// The square that paints the pixel with the given index.
pub open spec fn paint_at(grid: PixelGrid, index: int) -> PaintOp {
    PaintOp {
        x: (index % (grid.spec_width() as int)) as u32,
        y: (index / (grid.spec_width() as int)) as u32,
        color: grid@[index],
    }
}

/// All squares of a grid, in scan order.
pub open spec fn paint_plan(grid: PixelGrid) -> Seq<PaintOp> {
    Seq::new(grid@.len(), |i: int| paint_at(grid, i))
}

/// The column and the row of a pixel lie inside the grid.
pub proof fn lemma_position_in_grid(width: int, height: int, index: int)
    requires
        0 <= index < width * height,
        0 <= width,
        0 <= height,
    ensures
        0 < width,
        0 <= index % width < width,
        0 <= index / width < height,
        index == (index / width) * width + index % width,
{
    assert(width != 0) by (nonlinear_arith)
        requires
            0 <= index < width * height,
    ;
    vstd::arithmetic::div_mod::lemma_fundamental_div_mod(index, width);
    vstd::arithmetic::div_mod::lemma_mod_bound(index, width);
    let q = index / width;
    let r = index % width;
    assert(index == width * q + r);
    assert(0 <= q < height) by (nonlinear_arith)
        requires
            0 <= r < width,
            0 <= width * q + r < width * height,
            0 <= height,
    ;
    assert(q * width == width * q) by (nonlinear_arith);
}

/// The size of the canvas on which a grid is painted.
///
/// Fails with [`CodecError::Encoding`] exactly when no canvas can be made
/// for the grid: a side is zero, or longer than `i32::MAX`.
pub fn canvas_size(grid: &PixelGrid) -> (size: Result<(i32, i32), CodecError>)
    ensures
        match size {
            Ok((w, h)) => paintable(grid.spec_width(), grid.spec_height()) && w
                == grid.spec_width() && h == grid.spec_height(),
            Err(e) => e == CodecError::Encoding && !paintable(
                grid.spec_width(),
                grid.spec_height(),
            ),
        },
{
    let width = grid.width();
    let height = grid.height();
    if width == 0 || height == 0 || width > i32::MAX as u32 || height > i32::MAX as u32 {
        Err(CodecError::Encoding)
    } else {
        Ok((width as i32, height as i32))
    }
}

/// The square that paints the pixel with the given index, or `None` where
/// the grid has no such pixel.
pub fn paint_op(grid: &PixelGrid, index: usize) -> (op: Option<PaintOp>)
    ensures
        op is Some <==> index < grid@.len(),
        op matches Some(p) ==> p == paint_at(*grid, index as int) && p.x < grid.spec_width() && p.y
            < grid.spec_height(),
{
    let pixels = grid.pixels();
    if index < pixels.len() {
        let width = grid.width() as usize;
        proof {
            lemma_position_in_grid(
                grid.spec_width() as int,
                grid.spec_height() as int,
                index as int,
            );
        }
        let x = (index % width) as u32;
        let y = (index / width) as u32;
        Some(PaintOp { x, y, color: pixels[index] })
    } else {
        None
    }
}

/// The squares that paint a grid, one for each pixel, in scan order.
///
/// Fails with [`CodecError::Encoding`] exactly when no canvas can be made
/// for the grid.
pub fn rasterize(grid: &PixelGrid) -> (plan: Result<Vec<PaintOp>, CodecError>)
    ensures
        match plan {
            Ok(ops) => paintable(grid.spec_width(), grid.spec_height()) && ops@ == paint_plan(
                *grid,
            ),
            Err(e) => e == CodecError::Encoding && !paintable(
                grid.spec_width(),
                grid.spec_height(),
            ),
        },
{
    match canvas_size(grid) {
        Err(e) => Err(e),
        Ok(_) => {
            let pixels = grid.pixels();
            let width = grid.width() as usize;
            let mut ops: Vec<PaintOp> = Vec::new();
            let mut index: usize = 0;
            while index < pixels.len()
                invariant
                    index <= pixels.len(),
                    pixels@ == grid@,
                    pixels@.len() == grid.spec_width() * grid.spec_height(),
                    width == grid.spec_width(),
                    width > 0,
                    ops@.len() == index,
                    forall|i: int| 0 <= i < index ==> ops@[i] == paint_at(*grid, i),
                decreases pixels.len() - index,
            {
                proof {
                    lemma_position_in_grid(
                        grid.spec_width() as int,
                        grid.spec_height() as int,
                        index as int,
                    );
                }
                let x = (index % width) as u32;
                let y = (index / width) as u32;
                ops.push(PaintOp { x, y, color: pixels[index] });
                index += 1;
            }
            assert(ops@ =~= paint_plan(*grid));
            Ok(ops)
        },
    }
}

/// Every pixel is painted inside the canvas, and no two pixels are painted
/// at the same place.
pub proof fn law_paints_never_overlap(grid: PixelGrid, i: int, j: int)
    requires
        grid.well_formed(),
        0 <= i < grid@.len(),
        0 <= j < grid@.len(),
    ensures
        paint_at(grid, i).x < grid.spec_width(),
        paint_at(grid, i).y < grid.spec_height(),
        paint_at(grid, i).x == paint_at(grid, j).x && paint_at(grid, i).y == paint_at(grid, j).y
            ==> i == j,
{
    lemma_position_in_grid(grid.spec_width() as int, grid.spec_height() as int, i);
    lemma_position_in_grid(grid.spec_width() as int, grid.spec_height() as int, j);
}

/// Every cell of the canvas is painted, with the colour of the pixel in that
/// column and row: the cell in column `x` of row `y` by the pixel with index
/// `y * width + x`.
pub proof fn law_paints_cover_canvas(grid: PixelGrid, x: u32, y: u32)
    requires
        grid.well_formed(),
        x < grid.spec_width(),
        y < grid.spec_height(),
    ensures
        0 <= y * grid.spec_width() + x < grid@.len(),
        paint_at(grid, y * grid.spec_width() + x) == (PaintOp {
            x,
            y,
            color: grid@[y * grid.spec_width() + x],
        }),
{
    lemma_cell_index(x as int, y as int, grid.spec_width() as int, grid.spec_height() as int);
}

} // verus!
