use bruh::container::{Container, HEADER_LEN, RECORD_LEN};
use bruh::wire::{push_u32_le, read_u32_le};
use bruh::{CodecError, Pixel, Run};

#[test]
fn numbers_are_stored_least_significant_byte_first() {
    let mut out = vec![9u8];
    push_u32_le(&mut out, 0x0102_0304);
    assert_eq!(out, vec![9, 4, 3, 2, 1]);
    push_u32_le(&mut out, u32::MAX);
    push_u32_le(&mut out, 0);
    assert_eq!(out, vec![9, 4, 3, 2, 1, 255, 255, 255, 255, 0, 0, 0, 0]);
    assert_eq!(read_u32_le(&out, 1), Some(0x0102_0304));
    assert_eq!(read_u32_le(&out, 5), Some(u32::MAX));
    assert_eq!(read_u32_le(&out, 9), Some(0));
    assert_eq!(read_u32_le(&[0, 1, 0, 0], 0), Some(256));
    assert_eq!(read_u32_le(&[0, 0, 1, 0], 0), Some(65536));
    assert_eq!(read_u32_le(&[0, 0, 0, 1], 0), Some(16777216));
}

#[test]
fn reading_past_the_end_gives_nothing() {
    let bytes = [1u8, 2, 3, 4, 5];
    assert_eq!(read_u32_le(&bytes, 2), None);
    assert_eq!(read_u32_le(&bytes, 5), None);
    assert_eq!(read_u32_le(&bytes, usize::MAX), None);
    assert_eq!(read_u32_le(&[1, 2, 3], 0), None);
    assert_eq!(read_u32_le(&bytes, 1), Some(0x0504_0302));
}

#[test]
fn container_is_header_then_records() {
    let runs = vec![
        Run { length: 3, color: Pixel { r: 10, g: 20, b: 30 } },
        Run { length: 255, color: Pixel { r: 1, g: 2, b: 3 } },
    ];
    let container = Container::new(258, 1, runs.clone()).unwrap();
    assert_eq!(container.width(), 258);
    assert_eq!(container.height(), 1);
    assert_eq!(container.pixel_count(), 258);
    assert_eq!(container.runs(), &runs[..]);
    let bytes = container.to_bytes();
    assert_eq!(
        bytes,
        vec![2, 1, 0, 0, 1, 0, 0, 0, 3, 10, 20, 30, 255, 1, 2, 3]
    );
    assert_eq!(bytes.len(), HEADER_LEN + RECORD_LEN * runs.len());
}

#[test]
fn reading_a_written_container_gives_it_back() {
    let runs = vec![
        Run { length: 0, color: Pixel { r: 0, g: 0, b: 0 } },
        Run { length: 200, color: Pixel { r: 255, g: 254, b: 253 } },
        Run { length: 1, color: Pixel { r: 7, g: 7, b: 7 } },
    ];
    let written = Container::new(70000, 3, runs).unwrap();
    let read = Container::from_bytes(&written.to_bytes()).unwrap();
    assert_eq!(read, written);
    assert_eq!(read.width(), 70000);
    assert_eq!(read.height(), 3);
}

#[test]
fn writing_a_read_container_gives_the_bytes_back() {
    let bytes: Vec<u8> = (0u8..28).map(|b| b.wrapping_mul(37)).collect();
    let container = Container::from_bytes(&bytes).unwrap();
    assert_eq!(container.runs().len(), 5);
    assert_eq!(container.to_bytes(), bytes);
}

#[test]
fn header_alone_is_a_container_without_runs() {
    let container = Container::from_bytes(&[5, 0, 0, 0, 6, 0, 0, 0]).unwrap();
    assert_eq!(container.width(), 5);
    assert_eq!(container.height(), 6);
    assert_eq!(container.pixel_count(), 30);
    assert!(container.runs().is_empty());
}

#[test]
fn cut_header_is_refused() {
    for len in 0..8 {
        assert_eq!(Container::from_bytes(&vec![1u8; len]), Err(CodecError::Format));
    }
}

#[test]
fn cut_record_is_refused() {
    for extra in 1..4 {
        let bytes = vec![1u8; 8 + 4 + extra];
        assert_eq!(Container::from_bytes(&bytes), Err(CodecError::Format));
    }
    assert!(Container::from_bytes(&vec![1u8; 16]).is_ok());
}

#[test]
fn pixel_count_must_be_addressable() {
    let wide = Container::new(u32::MAX, u32::MAX, Vec::new());
    let cells = (u32::MAX as u128) * (u32::MAX as u128);
    if cells <= usize::MAX as u128 {
        assert_eq!(wide.unwrap().pixel_count() as u128, cells);
    } else {
        assert_eq!(wide, Err(CodecError::Format));
    }
    assert!(Container::new(u32::MAX, 1, Vec::new()).is_ok());
    assert!(Container::new(0, u32::MAX, Vec::new()).is_ok());
}
