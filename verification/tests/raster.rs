use bruh::grid::PixelGrid;
use bruh::raster::{canvas_size, paint_op, rasterize, PaintOp};
use bruh::{CodecError, Pixel};

fn shade(v: u8) -> Pixel {
    Pixel { r: v, g: v, b: v }
}

fn sample() -> PixelGrid {
    let pixels = (0u8..6).map(shade).collect();
    PixelGrid::new(3, 2, pixels).unwrap()
}

#[test]
fn pixels_are_painted_row_by_row() {
    let plan = rasterize(&sample()).unwrap();
    assert_eq!(
        plan,
        vec![
            PaintOp { x: 0, y: 0, color: shade(0) },
            PaintOp { x: 1, y: 0, color: shade(1) },
            PaintOp { x: 2, y: 0, color: shade(2) },
            PaintOp { x: 0, y: 1, color: shade(3) },
            PaintOp { x: 1, y: 1, color: shade(4) },
            PaintOp { x: 2, y: 1, color: shade(5) },
        ]
    );
}

#[test]
fn each_pixel_has_its_own_square() {
    let grid = sample();
    assert_eq!(paint_op(&grid, 0), Some(PaintOp { x: 0, y: 0, color: shade(0) }));
    assert_eq!(paint_op(&grid, 2), Some(PaintOp { x: 2, y: 0, color: shade(2) }));
    assert_eq!(paint_op(&grid, 3), Some(PaintOp { x: 0, y: 1, color: shade(3) }));
    assert_eq!(paint_op(&grid, 5), Some(PaintOp { x: 2, y: 1, color: shade(5) }));
    assert_eq!(paint_op(&grid, 6), None);
    assert_eq!(paint_op(&grid, usize::MAX), None);
    let plan = rasterize(&grid).unwrap();
    for (i, op) in plan.iter().enumerate() {
        assert_eq!(paint_op(&grid, i), Some(*op));
        assert_eq!(grid.get(op.x, op.y), Some(op.color));
        for other in &plan[i + 1..] {
            assert_ne!((op.x, op.y), (other.x, other.y));
        }
    }
}

#[test]
fn single_column_and_single_row() {
    let column = PixelGrid::new(1, 3, vec![shade(1), shade(2), shade(3)]).unwrap();
    assert_eq!(paint_op(&column, 2), Some(PaintOp { x: 0, y: 2, color: shade(3) }));
    let row = PixelGrid::new(3, 1, vec![shade(1), shade(2), shade(3)]).unwrap();
    assert_eq!(paint_op(&row, 2), Some(PaintOp { x: 2, y: 0, color: shade(3) }));
    assert_eq!(canvas_size(&column), Ok((1, 3)));
    assert_eq!(canvas_size(&row), Ok((3, 1)));
}

#[test]
fn image_without_pixels_cannot_be_painted() {
    let empty = PixelGrid::new(0, 0, Vec::new()).unwrap();
    assert_eq!(canvas_size(&empty), Err(CodecError::Encoding));
    assert_eq!(rasterize(&empty), Err(CodecError::Encoding));
    assert_eq!(paint_op(&empty, 0), None);
    let flat = PixelGrid::new(5, 0, Vec::new()).unwrap();
    assert_eq!(rasterize(&flat), Err(CodecError::Encoding));
    let thin = PixelGrid::new(0, 5, Vec::new()).unwrap();
    assert_eq!(canvas_size(&thin), Err(CodecError::Encoding));
}

#[test]
fn side_longer_than_a_canvas_cannot_be_painted() {
    let long = PixelGrid::new(u32::MAX, 0, Vec::new()).unwrap();
    assert_eq!(canvas_size(&long), Err(CodecError::Encoding));
    let sample = sample();
    assert_eq!(canvas_size(&sample), Ok((3, 2)));
}
