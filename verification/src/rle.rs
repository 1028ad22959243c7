//! Run-length coding of a pixel sequence.
//!
//! The model of the encoder is [`rle`]: the first run is the longest stretch
//! of pixels that repeat the first one, cut at [`MAX_RUN`], and the rest of the
//! sequence is coded the same way. The model of the decoder is [`expand`],
//! and [`fill`] is what lands in a buffer of a given size.

use crate::error::CodecError;
use crate::pixel::{black, Pixel, Run, MAX_RUN};
use vstd::prelude::*;

verus! {

/// `count` pixels of one colour.
pub open spec fn repeat(color: Pixel, count: nat) -> Seq<Pixel> {
    Seq::new(count, |i: int| color)
}

/// The pixels that a stream of runs stands for, in scan order.
pub open spec fn expand(runs: Seq<Run>) -> Seq<Pixel>
    decreases runs.len(),
{
    if runs.len() == 0 {
        Seq::empty()
    } else {
        expand(runs.drop_last()) + repeat(runs.last().color, runs.last().length as nat)
    }
}

/// How many pixels at the front of `pixels` repeat `color`, counted up to `cap`.
pub open spec fn leading_run(pixels: Seq<Pixel>, color: Pixel, cap: nat) -> nat
    decreases cap,
{
    if cap == 0 || pixels.len() == 0 || pixels[0] != color {
        0
    } else {
        1 + leading_run(pixels.skip(1), color, (cap - 1) as nat)
    }
}

/// The run-length coding of `pixels`.
pub open spec fn rle(pixels: Seq<Pixel>) -> Seq<Run>
    decreases pixels.len(),
    via rle_decreases
{
    if pixels.len() == 0 {
        Seq::empty()
    } else {
        let n = leading_run(pixels, pixels[0], MAX_RUN as nat);
        seq![Run { length: n as u8, color: pixels[0] }] + rle(pixels.skip(n as int))
    }
}

#[via_fn]
proof fn rle_decreases(pixels: Seq<Pixel>) {
    if pixels.len() > 0 {
        lemma_leading_run_bounds(pixels, pixels[0], MAX_RUN as nat);
    }
}

/// What a buffer of `size` pixels holds once the runs are written to its
/// front: the expanded runs, then black up to the end.
pub open spec fn fill(runs: Seq<Run>, size: nat) -> Seq<Pixel>
    recommends
        expand(runs).len() <= size,
{
    expand(runs) + repeat(black(), (size - expand(runs).len()) as nat)
}

/// What decoding a stream into a buffer of `size` pixels gives: the filled
/// buffer, or the refusal of a stream that holds more pixels than that.
pub open spec fn unpack(runs: Seq<Run>, size: nat) -> Result<Seq<Pixel>, CodecError> {
    if expand(runs).len() > size {
        Err(CodecError::OutOfBounds)
    } else {
        Ok(fill(runs, size))
    }
}

/// A leading run is never longer than the cap or the sequence, and it holds
/// the first pixel when it is counted for that pixel's colour.
pub proof fn lemma_leading_run_bounds(pixels: Seq<Pixel>, color: Pixel, cap: nat)
    ensures
        leading_run(pixels, color, cap) <= cap,
        leading_run(pixels, color, cap) <= pixels.len(),
        cap > 0 && pixels.len() > 0 && pixels[0] == color ==> leading_run(pixels, color, cap) >= 1,
    decreases cap,
{
    if !(cap == 0 || pixels.len() == 0 || pixels[0] != color) {
        lemma_leading_run_bounds(pixels.skip(1), color, (cap - 1) as nat);
    }
}

/// Every pixel of a leading run has the colour that was counted.
pub proof fn lemma_leading_run_repeats(pixels: Seq<Pixel>, color: Pixel, cap: nat)
    ensures
        forall|j: int| 0 <= j < leading_run(pixels, color, cap) ==> pixels[j] == color,
    decreases cap,
{
    if !(cap == 0 || pixels.len() == 0 || pixels[0] != color) {
        let rest = pixels.skip(1);
        lemma_leading_run_repeats(rest, color, (cap - 1) as nat);
        lemma_leading_run_bounds(rest, color, (cap - 1) as nat);
        assert forall|j: int| 0 <= j < leading_run(pixels, color, cap) implies pixels[j]
            == color by {
            if j > 0 {
                assert(pixels[j] == rest[j - 1]);
            }
        }
    }
}

/// A leading run stops only at the cap, at the end of the sequence, or in
/// front of a pixel of another colour.
pub proof fn lemma_leading_run_stops(pixels: Seq<Pixel>, color: Pixel, cap: nat)
    ensures
        ({
            let n = leading_run(pixels, color, cap);
            n == cap || n == pixels.len() || pixels[n as int] != color
        }),
    decreases cap,
{
    if !(cap == 0 || pixels.len() == 0 || pixels[0] != color) {
        let rest = pixels.skip(1);
        lemma_leading_run_stops(rest, color, (cap - 1) as nat);
        lemma_leading_run_bounds(rest, color, (cap - 1) as nat);
        let m = leading_run(rest, color, (cap - 1) as nat);
        if m < rest.len() {
            assert(rest[m as int] == pixels[m as int + 1]);
        }
    }
}

/// A leading run is pinned down by three facts: its pixels repeat the
/// colour, it is no longer than the cap, and it stops only at the cap, at the
/// end of the sequence, or before a pixel of another colour.
pub proof fn lemma_leading_run(pixels: Seq<Pixel>, color: Pixel, cap: nat, n: nat)
    requires
        n <= cap,
        n <= pixels.len(),
        forall|j: int| 0 <= j < n ==> pixels[j] == color,
        n == cap || n == pixels.len() || pixels[n as int] != color,
    ensures
        leading_run(pixels, color, cap) == n,
    decreases n,
{
    if n > 0 {
        let rest = pixels.skip(1);
        assert forall|j: int| 0 <= j < n - 1 implies rest[j] == color by {
            assert(rest[j] == pixels[j + 1]);
        }
        lemma_leading_run(rest, color, (cap - 1) as nat, (n - 1) as nat);
    }
}

/// The coding of a sequence from `start` on begins with the run that is
/// found there.
pub proof fn lemma_rle_step(pixels: Seq<Pixel>, start: int, n: nat)
    requires
        0 <= start,
        1 <= n <= MAX_RUN,
        start + n <= pixels.len(),
        forall|j: int| start <= j < start + n ==> pixels[j] == pixels[start],
        n == MAX_RUN || start + n == pixels.len() || pixels[start + n] != pixels[start],
    ensures
        rle(pixels.skip(start)) == seq![Run { length: n as u8, color: pixels[start] }] + rle(
            pixels.skip(start + n),
        ),
{
    let tail = pixels.skip(start);
    let color = pixels[start];
    assert forall|j: int| 0 <= j < n implies #[trigger] tail[j] == color by {
        assert(tail[j] == pixels[start + j]);
    }
    lemma_leading_run(tail, color, MAX_RUN as nat, n);
    assert(tail.skip(n as int) =~= pixels.skip(start + n));
}

/// Expanding two streams one after the other expands their concatenation.
pub proof fn lemma_expand_concat(a: Seq<Run>, b: Seq<Run>)
    ensures
        expand(a + b) == expand(a) + expand(b),
    decreases b.len(),
{
    if b.len() == 0 {
        assert(a + b =~= a);
        assert(expand(a) + expand(b) =~= expand(a));
    } else {
        lemma_expand_concat(a, b.drop_last());
        assert((a + b).drop_last() =~= a + b.drop_last());
        assert((a + b).last() == b.last());
        assert(expand(a + b) =~= expand(a) + expand(b));
    }
}

/// A single run expands to its colour repeated.
pub proof fn lemma_expand_one(run: Run)
    ensures
        expand(seq![run]) == repeat(run.color, run.length as nat),
{
    let one = seq![run];
    assert(one.drop_last() =~= Seq::<Run>::empty());
    assert(expand(one.drop_last()) =~= Seq::<Pixel>::empty());
    assert(expand(one) =~= repeat(run.color, run.length as nat));
}

/// The first `k + 1` runs expand to what the first `k` expand to, followed by
/// the pixels of run `k`.
pub proof fn lemma_expand_take_next(runs: Seq<Run>, k: int)
    requires
        0 <= k < runs.len(),
    ensures
        expand(runs.take(k + 1)) == expand(runs.take(k)) + repeat(
            runs[k].color,
            runs[k].length as nat,
        ),
{
    assert(runs.take(k + 1).drop_last() =~= runs.take(k));
}

/// A prefix of a stream expands to no more pixels than the whole stream.
pub proof fn lemma_expand_take_len(runs: Seq<Run>, k: int)
    requires
        0 <= k <= runs.len(),
    ensures
        expand(runs.take(k)).len() <= expand(runs).len(),
{
    lemma_expand_concat(runs.take(k), runs.skip(k));
    assert(runs.take(k) + runs.skip(k) =~= runs);
}

/// Codes a pixel sequence as runs.
///
/// One pass over the pixels: a run grows while the colour repeats and the
/// run is shorter than [`MAX_RUN`], and is written out when either stops
/// holding.
pub fn encode_pixels(pixels: &[Pixel]) -> (runs: Vec<Run>)
    ensures
        runs@ == rle(pixels@),
{
    let mut last_color = Pixel::black();
    let mut run_length: u8 = 0;
    let mut runs: Vec<Run> = Vec::new();
    let mut i: usize = 0;
    assert(pixels@.skip(0) =~= pixels@);
    while i < pixels.len()
        invariant
            i <= pixels.len(),
            run_length <= i,
            i > 0 ==> run_length > 0,
            forall|j: int| i - run_length <= j < i ==> pixels@[j] == last_color,
            runs@ + rle(pixels@.skip(i - run_length)) == rle(pixels@),
        decreases pixels.len() - i,
    {
        let current = pixels[i];
        if current == last_color && run_length < MAX_RUN {
            run_length += 1;
        } else {
            if run_length > 0 {
                proof {
                    lemma_rle_step(pixels@, i - run_length, run_length as nat);
                    assert(runs@.push(Run { length: run_length, color: last_color }) + rle(
                        pixels@.skip(i as int),
                    ) =~= runs@ + rle(pixels@.skip(i - run_length)));
                }
                runs.push(Run { length: run_length, color: last_color });
            }
            last_color = current;
            run_length = 1;
        }
        i += 1;
    }
    if run_length > 0 {
        proof {
            lemma_rle_step(pixels@, i - run_length, run_length as nat);
            assert(pixels@.skip(i as int) =~= Seq::<Pixel>::empty());
            assert(runs@.push(Run { length: run_length, color: last_color }) =~= runs@ + rle(
                pixels@.skip(i - run_length),
            ));
        }
        runs.push(Run { length: run_length, color: last_color });
    } else {
        assert(runs@ + rle(pixels@.skip(0)) =~= runs@);
    }
    runs
}

/// Writes the runs one after the other to the front of a fresh buffer of
/// `size` black pixels.
///
/// Fails with [`CodecError::OutOfBounds`] exactly when the runs hold more
/// than `size` pixels; nothing is ever written past the end of the buffer.
/// Slots behind the last run stay black.
pub fn expand_runs(runs: &[Run], size: usize) -> (out: Result<Vec<Pixel>, CodecError>)
    ensures
        match out {
            Ok(buffer) => unpack(runs@, size as nat) == Ok::<Seq<Pixel>, CodecError>(buffer@),
            Err(e) => unpack(runs@, size as nat) == Err::<Seq<Pixel>, CodecError>(e),
        },
{
    let mut buffer: Vec<Pixel> = vec![Pixel::black(); size];
    let mut pos: usize = 0;
    let mut k: usize = 0;
    assert(runs@.take(0) =~= Seq::<Run>::empty());
    assert(buffer@ =~= expand(runs@.take(0)) + repeat(black(), size as nat));
    while k < runs.len()
        invariant
            k <= runs.len(),
            pos <= size,
            pos == expand(runs@.take(k as int)).len(),
            buffer@ == expand(runs@.take(k as int)) + repeat(black(), (size - pos) as nat),
        decreases runs.len() - k,
    {
        let run = runs[k];
        let mut j: u8 = 0;
        proof {
            lemma_expand_take_next(runs@, k as int);
        }
        assert(buffer@ =~= expand(runs@.take(k as int)) + repeat(run.color, 0) + repeat(
            black(),
            (size - pos) as nat,
        ));
        while j < run.length
            invariant
                k < runs.len(),
                run == runs@[k as int],
                j <= run.length,
                pos <= size,
                pos == expand(runs@.take(k as int)).len() + j,
                buffer@ == expand(runs@.take(k as int)) + repeat(run.color, j as nat) + repeat(
                    black(),
                    (size - pos) as nat,
                ),
            decreases run.length - j,
        {
            if pos >= size {
                proof {
                    lemma_expand_take_next(runs@, k as int);
                    lemma_expand_take_len(runs@, k + 1);
                }
                return Err(CodecError::OutOfBounds);
            }
            buffer[pos] = run.color;
            assert(buffer@ =~= expand(runs@.take(k as int)) + repeat(run.color, (j + 1) as nat)
                + repeat(black(), (size - pos - 1) as nat));
            pos += 1;
            j += 1;
        }
        k += 1;
    }
    assert(runs@.take(k as int) =~= runs@);
    Ok(buffer)
}

} // verus!
