//! Unsigned 32-bit integers as four bytes, least significant byte first.
//!
//! The byte order is fixed, so that a container written on one machine reads
//! the same on every other.

use vstd::prelude::*;

verus! {

/// The number that four bytes stand for, least significant byte first.
pub open spec fn le_value(bytes: Seq<u8>) -> int
    recommends
        bytes.len() == 4,
{
    bytes[0] + 256 * bytes[1] + 65536 * bytes[2] + 16777216 * bytes[3]
}

/// The four bytes of `value`, least significant byte first.
pub open spec fn le_bytes(value: u32) -> Seq<u8> {
    seq![
        (value % 256) as u8,
        (value / 256 % 256) as u8,
        (value / 65536 % 256) as u8,
        (value / 16777216) as u8,
    ]
}

/// Reading the bytes of a number gives the number back.
pub proof fn lemma_le_value_of_bytes(value: u32)
    ensures
        le_bytes(value).len() == 4,
        le_value(le_bytes(value)) == value,
{
}

/// Writing the number that four bytes stand for gives the bytes back.
pub proof fn lemma_le_bytes_of_value(bytes: Seq<u8>)
    requires
        bytes.len() == 4,
    ensures
        0 <= le_value(bytes) <= u32::MAX,
        le_bytes(le_value(bytes) as u32) == bytes,
{
    lemma_digits(bytes[0] as int, bytes[1] as int, bytes[2] as int, bytes[3] as int);
    assert(le_bytes(le_value(bytes) as u32) =~= bytes);
}

/// The base-256 digits of a number are recovered by division and remainder.
proof fn lemma_digits(d0: int, d1: int, d2: int, d3: int)
    requires
        0 <= d0 < 256,
        0 <= d1 < 256,
        0 <= d2 < 256,
        0 <= d3 < 256,
    ensures
        ({
            let v = d0 + 256 * d1 + 65536 * d2 + 16777216 * d3;
            &&& 0 <= v <= u32::MAX
            &&& v % 256 == d0
            &&& v / 256 % 256 == d1
            &&& v / 65536 % 256 == d2
            &&& v / 16777216 == d3
        }),
{
    let v = d0 + 256 * d1 + 65536 * d2 + 16777216 * d3;
    let v1 = d1 + 256 * d2 + 65536 * d3;
    let v2 = d2 + 256 * d3;
    assert(v == d0 + 256 * v1);
    assert(v / 256 == v1 && v % 256 == d0);
    assert(v1 == d1 + 256 * v2);
    assert(v1 / 256 == v2 && v1 % 256 == d1);
    assert(v == d0 + 256 * d1 + 65536 * v2);
    assert(v / 65536 == v2);
    assert(v2 / 256 == d3 && v2 % 256 == d2);
    assert(v / 16777216 == d3);
}

/// Reads the number stored in the four bytes that start at `offset`.
///
/// Returns `None` exactly when fewer than four bytes are left there.
pub fn read_u32_le(bytes: &[u8], offset: usize) -> (value: Option<u32>)
    ensures
        value is Some <==> offset + 4 <= bytes@.len(),
        value matches Some(v) ==> v == le_value(bytes@.subrange(offset as int, offset + 4)),
{
    if bytes.len() < 4 || offset > bytes.len() - 4 {
        return None;
    }
    let b0: u32 = bytes[offset] as u32;
    let b1: u32 = bytes[offset + 1] as u32;
    let b2: u32 = bytes[offset + 2] as u32;
    let b3: u32 = bytes[offset + 3] as u32;
    Some(b0 + 256 * b1 + 65536 * b2 + 16777216 * b3)
}

/// Appends the four bytes of `value` to `out`.
pub fn push_u32_le(out: &mut Vec<u8>, value: u32)
    ensures
        final(out)@ == old(out)@ + le_bytes(value),
{
    out.push((value % 256) as u8);
    out.push((value / 256 % 256) as u8);
    out.push((value / 65536 % 256) as u8);
    out.push((value / 16777216) as u8);
    assert(out@ =~= old(out)@ + le_bytes(value));
}

} // verus!
