//! What holds of the codec as a whole.
//!
//! Each law is a proof about the models that the contracts of the
//! executable functions are stated over, so it holds of every call of them.

use crate::codec::{decoded, encoded_bytes};
use crate::container::{
    container_bytes, framed, header_height, header_width, is_container, record_at, record_bytes,
    records,
};
use crate::error::CodecError;
use crate::grid::PixelGrid;
use crate::pixel::{Pixel, Run, MAX_RUN};
use crate::rle::{
    expand, fill, leading_run, lemma_expand_concat, lemma_expand_one, lemma_leading_run,
    lemma_leading_run_bounds, lemma_leading_run_repeats, lemma_leading_run_stops, repeat, rle,
    unpack,
};
use crate::wire::{le_bytes, lemma_le_bytes_of_value, lemma_le_value_of_bytes};
use vstd::prelude::*;

verus! {

/// The coding of a sequence that is not empty starts with the leading run of
/// its first pixel and goes on with the coding of what follows that run.
pub proof fn law_first_run(pixels: Seq<Pixel>)
    requires
        pixels.len() > 0,
    ensures
        ({
            let n = leading_run(pixels, pixels[0], MAX_RUN as nat);
            &&& 1 <= n <= 255
            &&& n <= pixels.len()
            &&& rle(pixels).len() == 1 + rle(pixels.skip(n as int)).len()
            &&& rle(pixels)[0] == (Run { length: n as u8, color: pixels[0] })
            &&& forall|i: int|
                1 <= i < rle(pixels).len() ==> rle(pixels)[i] == rle(pixels.skip(n as int))[i - 1]
        }),
{
    lemma_leading_run_bounds(pixels, pixels[0], MAX_RUN as nat);
}

/// Every run that the encoder writes holds at least 1 and at most 255
/// pixels.
pub proof fn law_run_lengths(pixels: Seq<Pixel>)
    ensures
        forall|i: int| 0 <= i < rle(pixels).len() ==> 1 <= #[trigger] rle(pixels)[i].length <= 255,
    decreases pixels.len(),
{
    if pixels.len() > 0 {
        law_first_run(pixels);
        let n = leading_run(pixels, pixels[0], MAX_RUN as nat);
        law_run_lengths(pixels.skip(n as int));
    }
}

/// Expanding the coding of a pixel sequence gives the sequence back.
pub proof fn law_expand_inverts_rle(pixels: Seq<Pixel>)
    ensures
        expand(rle(pixels)) == pixels,
    decreases pixels.len(),
{
    if pixels.len() == 0 {
        assert(expand(rle(pixels)) =~= pixels);
    } else {
        law_first_run(pixels);
        let n = leading_run(pixels, pixels[0], MAX_RUN as nat);
        let first = Run { length: n as u8, color: pixels[0] };
        let rest = pixels.skip(n as int);
        law_expand_inverts_rle(rest);
        lemma_expand_concat(seq![first], rle(rest));
        lemma_expand_one(first);
        lemma_leading_run_repeats(pixels, pixels[0], MAX_RUN as nat);
        assert(repeat(pixels[0], n) + rest =~= pixels);
    }
}

/// The encoder never ends a run early: where two neighbouring runs have the
/// same colour, the first of them is full.
pub proof fn law_runs_are_maximal(pixels: Seq<Pixel>)
    ensures
        forall|i: int|
            0 <= i && i + 1 < rle(pixels).len() && rle(pixels)[i].color == rle(pixels)[i + 1].color
                ==> #[trigger] rle(pixels)[i].length == 255,
    decreases pixels.len(),
{
    if pixels.len() > 0 {
        law_first_run(pixels);
        let n = leading_run(pixels, pixels[0], MAX_RUN as nat);
        let rest = pixels.skip(n as int);
        law_runs_are_maximal(rest);
        lemma_leading_run_stops(pixels, pixels[0], MAX_RUN as nat);
        if rest.len() > 0 {
            law_first_run(rest);
        }
        assert forall|i: int|
            0 <= i && i + 1 < rle(pixels).len() && rle(pixels)[i].color == rle(pixels)[i
                + 1].color implies #[trigger] rle(pixels)[i].length == 255 by {
            if i == 0 {
                assert(rle(pixels)[1] == rle(rest)[0]);
                assert(rest[0] == pixels[n as int]);
            } else {
                assert(rle(pixels)[i] == rle(rest)[i - 1]);
                assert(rle(pixels)[i + 1] == rle(rest)[i]);
            }
        }
    }
}

/// The runs that code `count` pixels of one colour: full runs of 255, and a
/// last run with what is left over.
pub open spec fn capped_runs(color: Pixel, count: nat) -> Seq<Run> {
    Seq::new(
        ((count + 254) / 255) as nat,
        |i: int|
            Run {
                length: if 255 * (i + 1) <= count {
                    255u8
                } else {
                    (count - 255 * i) as u8
                },
                color,
            },
    )
}

/// An image of `count` pixels of one colour is coded in `count / 255` runs,
/// rounded up: each is full but the last, which holds the rest, and together
/// they hold `count` pixels.
pub proof fn law_run_cap(color: Pixel, count: nat)
    ensures
        rle(repeat(color, count)) == capped_runs(color, count),
        rle(repeat(color, count)).len() == (count + 254) / 255,
        expand(rle(repeat(color, count))).len() == count,
    decreases count,
{
    let pixels = repeat(color, count);
    law_expand_inverts_rle(pixels);
    if count == 0 {
        assert(rle(pixels) =~= capped_runs(color, count));
    } else {
        let n: nat = if count < 255 {
            count
        } else {
            255
        };
        lemma_leading_run(pixels, color, MAX_RUN as nat, n);
        law_first_run(pixels);
        let rest = pixels.skip(n as int);
        assert(rest =~= repeat(color, (count - n) as nat));
        law_run_cap(color, (count - n) as nat);
        assert(rle(pixels) =~= capped_runs(color, count));
    }
}

/// A written container is framed, takes eight bytes and four more for each
/// run, and reading it gives back the dimensions and the runs that were
/// written.
pub proof fn law_read_inverts_write(width: u32, height: u32, runs: Seq<Run>)
    ensures
        framed(container_bytes(width, height, runs)),
        container_bytes(width, height, runs).len() == 8 + 4 * runs.len(),
        header_width(container_bytes(width, height, runs)) == width,
        header_height(container_bytes(width, height, runs)) == height,
        records(container_bytes(width, height, runs)) == runs,
{
    let bytes = container_bytes(width, height, runs);
    lemma_le_value_of_bytes(width);
    lemma_le_value_of_bytes(height);
    assert(bytes.subrange(0, 4) =~= le_bytes(width));
    assert(bytes.subrange(4, 8) =~= le_bytes(height));
    assert(bytes.len() == 8 + 4 * runs.len());
    assert forall|k: int| 0 <= k < runs.len() implies record_at(bytes, k) == runs[k] by {
        assert(bytes[8 + 4 * k] == record_bytes(runs)[4 * k]);
        assert(bytes[8 + 4 * k + 1] == record_bytes(runs)[4 * k + 1]);
        assert(bytes[8 + 4 * k + 2] == record_bytes(runs)[4 * k + 2]);
        assert(bytes[8 + 4 * k + 3] == record_bytes(runs)[4 * k + 3]);
    }
    assert(records(bytes) =~= runs);
}

/// Writing what was read from framed bytes gives the same bytes back.
pub proof fn law_write_inverts_read(bytes: Seq<u8>)
    requires
        framed(bytes),
    ensures
        0 <= header_width(bytes) <= u32::MAX,
        0 <= header_height(bytes) <= u32::MAX,
        container_bytes(header_width(bytes) as u32, header_height(bytes) as u32, records(bytes))
            == bytes,
{
    lemma_le_bytes_of_value(bytes.subrange(0, 4));
    lemma_le_bytes_of_value(bytes.subrange(4, 8));
    let width = header_width(bytes) as u32;
    let height = header_height(bytes) as u32;
    let written = container_bytes(width, height, records(bytes));
    assert(written.len() == bytes.len());
    assert forall|i: int| 0 <= i < bytes.len() implies written[i] == bytes[i] by {
        if i < 4 {
            assert(written[i] == bytes.subrange(0, 4)[i]);
        } else if i < 8 {
            assert(written[i] == bytes.subrange(4, 8)[i - 4]);
        } else {
            let j = i - 8;
            assert(written[i] == record_bytes(records(bytes))[j]);
            assert(records(bytes)[j / 4] == record_at(bytes, j / 4));
        }
    }
    assert(written =~= bytes);
}

/// Decoding the bytes that encoding wrote gives back the pixels of the
/// image, whatever its size: no pixels at all, one pixel, or one colour
/// throughout.
pub proof fn law_round_trip(grid: PixelGrid)
    requires
        grid.well_formed(),
    ensures
        unpack(rle(grid@), grid@.len()) == Ok::<Seq<Pixel>, CodecError>(grid@),
        decoded(encoded_bytes(grid.spec_width(), grid.spec_height(), grid@)) == Ok::<
            Seq<Pixel>,
            CodecError,
        >(grid@),
{
    law_read_inverts_write(grid.spec_width(), grid.spec_height(), rle(grid@));
    law_expand_inverts_rle(grid@);
    assert(fill(rle(grid@), grid@.len()) =~= grid@);
}

/// The header of an encoded image holds the width and the height of the
/// image exactly, so a decoded image has the dimensions of the encoded one.
pub proof fn law_header_fidelity(grid: PixelGrid)
    ensures
        header_width(encoded_bytes(grid.spec_width(), grid.spec_height(), grid@))
            == grid.spec_width(),
        header_height(encoded_bytes(grid.spec_width(), grid.spec_height(), grid@))
            == grid.spec_height(),
{
    law_read_inverts_write(grid.spec_width(), grid.spec_height(), rle(grid@));
}

/// A container whose runs hold more pixels than its header announces is
/// refused as out of bounds, and no other container is.
pub proof fn law_bounds_safety(bytes: Seq<u8>)
    requires
        is_container(bytes),
    ensures
        expand(records(bytes)).len() > header_width(bytes) * header_height(bytes) <==> decoded(
            bytes,
        ) == Err::<Seq<Pixel>, CodecError>(CodecError::OutOfBounds),
        decoded(bytes) is Ok ==> decoded(bytes)->Ok_0.len() == header_width(bytes)
            * header_height(bytes),
{
    lemma_le_bytes_of_value(bytes.subrange(0, 4));
    lemma_le_bytes_of_value(bytes.subrange(4, 8));
    assert(0 <= header_width(bytes) * header_height(bytes)) by (nonlinear_arith)
        requires
            0 <= header_width(bytes),
            0 <= header_height(bytes),
    ;
}

/// Two grids with the same dimensions and the same pixels are encoded to the
/// same bytes: the bytes depend on nothing but the image.
pub proof fn law_encoding_is_deterministic(a: PixelGrid, b: PixelGrid)
    requires
        a.spec_width() == b.spec_width(),
        a.spec_height() == b.spec_height(),
        a@ == b@,
    ensures
        rle(a@) == rle(b@),
        encoded_bytes(a.spec_width(), a.spec_height(), a@) == encoded_bytes(
            b.spec_width(),
            b.spec_height(),
            b@,
        ),
{
}

/// An encoded image takes eight bytes for the header and four for each run.
pub proof fn law_encoded_length(width: u32, height: u32, pixels: Seq<Pixel>)
    ensures
        encoded_bytes(width, height, pixels).len() == 8 + 4 * rle(pixels).len(),
        rle(pixels).len() <= pixels.len(),
{
    law_read_inverts_write(width, height, rle(pixels));
    law_run_lengths(pixels);
    law_expand_inverts_rle(pixels);
    lemma_expand_len_at_least(rle(pixels));
}

/// A stream in which no run is empty holds at least as many pixels as runs.
proof fn lemma_expand_len_at_least(runs: Seq<Run>)
    requires
        forall|i: int| 0 <= i < runs.len() ==> 1 <= #[trigger] runs[i].length,
    ensures
        runs.len() <= expand(runs).len(),
    decreases runs.len(),
{
    if runs.len() > 0 {
        lemma_expand_len_at_least(runs.drop_last());
    }
}

} // verus!
