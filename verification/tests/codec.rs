use bruh::codec::{decode, decode_from_bytes, encode, encode_to_bytes};
use bruh::container::Container;
use bruh::grid::PixelGrid;
use bruh::rle::{encode_pixels, expand_runs};
use bruh::{CodecError, Pixel, Run};

const BLACK: Pixel = Pixel { r: 0, g: 0, b: 0 };
const RED: Pixel = Pixel { r: 255, g: 0, b: 0 };
const GREEN: Pixel = Pixel { r: 0, g: 255, b: 0 };
const BLUE: Pixel = Pixel { r: 0, g: 0, b: 255 };

fn grid(width: u32, height: u32, pixels: Vec<Pixel>) -> PixelGrid {
    PixelGrid::new(width, height, pixels).expect("one pixel for each cell")
}

fn round_trip(width: u32, height: u32, pixels: Vec<Pixel>) {
    let source = grid(width, height, pixels);
    let bytes = encode_to_bytes(&source);
    let decoded = decode_from_bytes(&bytes).expect("an encoded image decodes");
    assert_eq!(decoded.width(), width);
    assert_eq!(decoded.height(), height);
    assert_eq!(decoded.pixels(), source.pixels());
    assert_eq!(decoded, source);
}

#[test]
fn two_by_two_black_is_one_record() {
    let image = grid(2, 2, vec![BLACK; 4]);
    let container = encode(&image);
    assert_eq!(container.width(), 2);
    assert_eq!(container.height(), 2);
    assert_eq!(container.runs(), &[Run { length: 4, color: BLACK }][..]);
    let bytes = encode_to_bytes(&image);
    assert_eq!(bytes, vec![2, 0, 0, 0, 2, 0, 0, 0, 4, 0, 0, 0]);
    let decoded = decode_from_bytes(&bytes).unwrap();
    assert_eq!(decoded.pixels(), &[BLACK, BLACK, BLACK, BLACK][..]);
    assert_eq!(decoded.width(), 2);
    assert_eq!(decoded.height(), 2);
}

#[test]
fn three_hundred_red_pixels_are_two_records() {
    let image = grid(1, 300, vec![RED; 300]);
    let container = encode(&image);
    assert_eq!(
        container.runs(),
        &[Run { length: 255, color: RED }, Run { length: 45, color: RED }][..]
    );
    let bytes = encode_to_bytes(&image);
    assert_eq!(
        bytes,
        vec![1, 0, 0, 0, 44, 1, 0, 0, 255, 255, 0, 0, 45, 255, 0, 0]
    );
}

#[test]
fn round_trip_of_an_empty_image() {
    let image = grid(0, 0, Vec::new());
    let bytes = encode_to_bytes(&image);
    assert_eq!(bytes, vec![0u8; 8]);
    round_trip(0, 0, Vec::new());
    round_trip(0, 7, Vec::new());
    round_trip(7, 0, Vec::new());
}

#[test]
fn round_trip_of_a_single_pixel() {
    round_trip(1, 1, vec![BLACK]);
    round_trip(1, 1, vec![Pixel { r: 1, g: 2, b: 3 }]);
}

#[test]
fn round_trip_of_one_colour() {
    round_trip(16, 16, vec![GREEN; 256]);
    round_trip(255, 1, vec![BLUE; 255]);
    round_trip(17, 30, vec![BLACK; 510]);
}

#[test]
fn round_trip_of_mixed_colours() {
    let mut pixels = Vec::new();
    for i in 0..600u32 {
        let c = if i % 7 < 3 { RED } else if i % 11 < 5 { GREEN } else { BLUE };
        pixels.push(c);
    }
    for _ in 0..600 {
        pixels.push(BLACK);
    }
    round_trip(40, 30, pixels);
}

#[test]
fn runs_follow_scan_order() {
    let pixels = [RED, RED, GREEN, BLUE, BLUE, BLUE, RED];
    let runs = encode_pixels(&pixels);
    assert_eq!(
        runs,
        vec![
            Run { length: 2, color: RED },
            Run { length: 1, color: GREEN },
            Run { length: 3, color: BLUE },
            Run { length: 1, color: RED },
        ]
    );
}

#[test]
fn leading_black_pixels_are_counted() {
    let runs = encode_pixels(&[BLACK, BLACK, RED]);
    assert_eq!(
        runs,
        vec![Run { length: 2, color: BLACK }, Run { length: 1, color: RED }]
    );
    assert_eq!(encode_pixels(&[]), Vec::<Run>::new());
}

fn check_run_cap(count: usize) {
    let runs = encode_pixels(&vec![GREEN; count]);
    assert_eq!(runs.len(), (count + 254) / 255);
    let mut total = 0usize;
    for (i, run) in runs.iter().enumerate() {
        assert_eq!(run.color, GREEN);
        assert!(run.length >= 1);
        if i + 1 < runs.len() {
            assert_eq!(run.length, 255);
        }
        total += run.length as usize;
    }
    assert_eq!(total, count);
}

#[test]
fn long_runs_are_cut_at_the_cap() {
    check_run_cap(255);
    check_run_cap(256);
    check_run_cap(510);
    check_run_cap(511);
    check_run_cap(1000);
    let runs = encode_pixels(&vec![GREEN; 256]);
    assert_eq!(
        runs,
        vec![Run { length: 255, color: GREEN }, Run { length: 1, color: GREEN }]
    );
}

#[test]
fn a_full_run_is_followed_by_the_next_colour() {
    let mut pixels = vec![RED; 255];
    pixels.push(BLUE);
    let runs = encode_pixels(&pixels);
    assert_eq!(
        runs,
        vec![Run { length: 255, color: RED }, Run { length: 1, color: BLUE }]
    );
}

#[test]
fn header_holds_the_dimensions() {
    let image = grid(300, 2, vec![BLUE; 600]);
    let bytes = encode_to_bytes(&image);
    assert_eq!(&bytes[0..4], &[44, 1, 0, 0]);
    assert_eq!(&bytes[4..8], &[2, 0, 0, 0]);
    let decoded = decode_from_bytes(&bytes).unwrap();
    assert_eq!((decoded.width(), decoded.height()), (300, 2));
}

#[test]
fn encoding_twice_gives_the_same_bytes() {
    let mut pixels = vec![RED; 300];
    pixels.extend(vec![GREEN; 20]);
    let first = encode_to_bytes(&grid(20, 16, pixels.clone()));
    let second = encode_to_bytes(&grid(20, 16, pixels));
    assert_eq!(first, second);
}

#[test]
fn overlong_stream_is_out_of_bounds() {
    // 2 x 2 pixels announced, 5 pixels in the runs.
    let bytes = vec![2, 0, 0, 0, 2, 0, 0, 0, 3, 9, 9, 9, 2, 7, 7, 7];
    assert_eq!(decode_from_bytes(&bytes), Err(CodecError::OutOfBounds));
    let container = Container::new(2, 2, vec![Run { length: 5, color: RED }]).unwrap();
    assert_eq!(decode(&container), Err(CodecError::OutOfBounds));
    let empty = Container::new(0, 0, vec![Run { length: 1, color: RED }]).unwrap();
    assert_eq!(decode(&empty), Err(CodecError::OutOfBounds));
    assert_eq!(
        expand_runs(&[Run { length: 255, color: RED }], 254),
        Err(CodecError::OutOfBounds)
    );
}

#[test]
fn exact_stream_fills_the_buffer() {
    let bytes = vec![2, 0, 0, 0, 2, 0, 0, 0, 3, 9, 8, 7, 1, 1, 2, 3];
    let decoded = decode_from_bytes(&bytes).unwrap();
    let a = Pixel { r: 9, g: 8, b: 7 };
    let b = Pixel { r: 1, g: 2, b: 3 };
    assert_eq!(decoded.pixels(), &[a, a, a, b][..]);
}

#[test]
fn short_stream_leaves_black_behind() {
    let bytes = vec![3, 0, 0, 0, 2, 0, 0, 0, 2, 255, 0, 0];
    let decoded = decode_from_bytes(&bytes).unwrap();
    assert_eq!(decoded.width(), 3);
    assert_eq!(decoded.height(), 2);
    assert_eq!(decoded.pixels(), &[RED, RED, BLACK, BLACK, BLACK, BLACK][..]);
    let header_only = vec![2, 0, 0, 0, 1, 0, 0, 0];
    assert_eq!(decode_from_bytes(&header_only).unwrap().pixels(), &[BLACK, BLACK][..]);
}

#[test]
fn empty_runs_write_nothing() {
    let runs = [
        Run { length: 0, color: GREEN },
        Run { length: 2, color: RED },
        Run { length: 0, color: BLUE },
    ];
    assert_eq!(expand_runs(&runs, 2), Ok(vec![RED, RED]));
    assert_eq!(expand_runs(&runs, 3), Ok(vec![RED, RED, BLACK]));
    assert_eq!(expand_runs(&runs, 1), Err(CodecError::OutOfBounds));
    assert_eq!(expand_runs(&[], 0), Ok(Vec::new()));
}

#[test]
fn malformed_bytes_are_a_format_error() {
    assert_eq!(decode_from_bytes(&[]), Err(CodecError::Format));
    assert_eq!(decode_from_bytes(&[1, 0, 0, 0, 1, 0, 0]), Err(CodecError::Format));
    assert_eq!(
        decode_from_bytes(&[1, 0, 0, 0, 1, 0, 0, 0, 1, 2, 3]),
        Err(CodecError::Format)
    );
    assert_eq!(
        decode_from_bytes(&[1, 0, 0, 0, 1, 0, 0, 0, 1, 2, 3, 4, 5]),
        Err(CodecError::Format)
    );
}

#[test]
fn grid_needs_one_pixel_for_each_cell() {
    assert!(PixelGrid::new(2, 2, vec![RED; 3]).is_none());
    assert!(PixelGrid::new(2, 2, vec![RED; 5]).is_none());
    assert!(PixelGrid::new(0, 3, vec![RED]).is_none());
    assert!(PixelGrid::new(u32::MAX, u32::MAX, Vec::new()).is_none());
    let image = PixelGrid::new(3, 2, vec![RED, GREEN, BLUE, BLACK, RED, GREEN]).unwrap();
    assert_eq!(image.width(), 3);
    assert_eq!(image.height(), 2);
    assert_eq!(image.get(0, 0), Some(RED));
    assert_eq!(image.get(2, 0), Some(BLUE));
    assert_eq!(image.get(0, 1), Some(BLACK));
    assert_eq!(image.get(2, 1), Some(GREEN));
    assert_eq!(image.get(3, 0), None);
    assert_eq!(image.get(0, 2), None);
}

#[test]
fn pixel_builders() {
    assert_eq!(Pixel::new(1, 2, 3), Pixel { r: 1, g: 2, b: 3 });
    assert_eq!(Pixel::black(), BLACK);
    assert_eq!(bruh::pixel::MAX_RUN, 255);
}
