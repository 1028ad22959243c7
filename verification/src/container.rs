//! The container: an eight-byte header and the records of the runs.
//!
//! ```text
//! offset 0   width, four bytes, least significant first
//! offset 4   height, four bytes, least significant first
//! offset 8   one record of four bytes for each run:
//!            the length of the run, then red, green and blue
//! ```

use crate::error::CodecError;
use crate::pixel::{Pixel, Run};
use crate::wire::{le_bytes, le_value, push_u32_le, read_u32_le};
use vstd::prelude::*;

verus! {

/// The number of bytes in front of the first record.
pub const HEADER_LEN: usize = 8;

/// The number of bytes of one record.
pub const RECORD_LEN: usize = 4;

/// Byte `j` of the record of `run`.
pub open spec fn run_byte(run: Run, j: int) -> u8 {
    if j == 0 {
        run.length
    } else if j == 1 {
        run.color.r
    } else if j == 2 {
        run.color.g
    } else {
        run.color.b
    }
}

/// The records of a stream of runs, one after the other.
pub open spec fn record_bytes(runs: Seq<Run>) -> Seq<u8> {
    Seq::new(4 * runs.len(), |i: int| run_byte(runs[i / 4], i % 4))
}

/// The bytes of the container with the given header and runs.
pub open spec fn container_bytes(width: u32, height: u32, runs: Seq<Run>) -> Seq<u8> {
    le_bytes(width) + le_bytes(height) + record_bytes(runs)
}

/// The bytes hold a whole header and whole records.
pub open spec fn framed(bytes: Seq<u8>) -> bool {
    bytes.len() >= 8 && (bytes.len() - 8) % 4 == 0
}

/// The width that the header announces.
pub open spec fn header_width(bytes: Seq<u8>) -> int {
    le_value(bytes.subrange(0, 4))
}

/// The height that the header announces.
pub open spec fn header_height(bytes: Seq<u8>) -> int {
    le_value(bytes.subrange(4, 8))
}

/// The run that record `k` holds.
pub open spec fn record_at(bytes: Seq<u8>, k: int) -> Run {
    Run {
        length: bytes[8 + 4 * k],
        color: Pixel { r: bytes[8 + 4 * k + 1], g: bytes[8 + 4 * k + 2], b: bytes[8 + 4 * k + 3] },
    }
}

/// The runs that the records behind the header hold.
pub open spec fn records(bytes: Seq<u8>) -> Seq<Run> {
    Seq::new(((bytes.len() - 8) / 4) as nat, |k: int| record_at(bytes, k))
}

/// The bytes are a container: they are framed, and the number of pixels that
/// the header announces can be addressed on this machine.
pub open spec fn is_container(bytes: Seq<u8>) -> bool {
    framed(bytes) && header_width(bytes) * header_height(bytes) <= usize::MAX
}

/// The dimensions of an image and the stream of runs that codes its pixels.
///
/// The number of pixels, `width * height`, always fits in a `usize`.
#[derive(Debug, PartialEq, Eq)]
pub struct Container {
    width: u32,
    height: u32,
    runs: Vec<Run>,
}

impl View for Container {
    type V = Seq<Run>;

    /// The runs in stream order.
    closed spec fn view(&self) -> Seq<Run> {
        self.runs@
    }
}

impl Container {
    /// The width of the image.
    pub closed spec fn spec_width(&self) -> u32 {
        self.width
    }

    /// The height of the image.
    pub closed spec fn spec_height(&self) -> u32 {
        self.height
    }

    /// The pixels of the image can be counted in a `usize`.
    #[verifier::type_invariant]
    pub open spec fn well_formed(&self) -> bool {
        self.spec_width() * self.spec_height() <= usize::MAX
    }

    /// The number of pixels of the image.
    pub open spec fn spec_pixel_count(&self) -> nat {
        (self.spec_width() * self.spec_height()) as nat
    }

    /// Puts dimensions and runs together.
    ///
    /// Fails with [`CodecError::Format`] exactly when `width * height` does
    /// not fit in a `usize`.
    pub fn new(width: u32, height: u32, runs: Vec<Run>) -> (container: Result<
        Container,
        CodecError,
    >)
        ensures
            match container {
                Ok(c) => width * height <= usize::MAX && c.spec_width() == width && c.spec_height()
                    == height && c@ == runs@ && c.well_formed(),
                Err(e) => e == CodecError::Format && width * height > usize::MAX,
            },
    {
        assert(0 <= width * height <= u64::MAX) by (nonlinear_arith)
            requires
                0 <= width <= u32::MAX,
                0 <= height <= u32::MAX,
        ;
        let cells: u64 = (width as u64) * (height as u64);
        if cells <= usize::MAX as u64 {
            Ok(Container { width, height, runs })
        } else {
            Err(CodecError::Format)
        }
    }

    /// Puts together dimensions and runs of an image whose pixels are known
    /// to be countable.
    pub(crate) fn assemble(width: u32, height: u32, runs: Vec<Run>) -> (container: Container)
        requires
            width * height <= usize::MAX,
        ensures
            container.spec_width() == width,
            container.spec_height() == height,
            container@ == runs@,
            container.well_formed(),
    {
        Container { width, height, runs }
    }

    /// The width of the image.
    #[verifier::when_used_as_spec(spec_width)]
    pub fn width(&self) -> (w: u32)
        ensures
            w == self.spec_width(),
    {
        self.width
    }

    /// The height of the image.
    #[verifier::when_used_as_spec(spec_height)]
    pub fn height(&self) -> (h: u32)
        ensures
            h == self.spec_height(),
    {
        self.height
    }

    /// The number of pixels of the image.
    pub fn pixel_count(&self) -> (n: usize)
        ensures
            n == self.spec_pixel_count(),
    {
        proof {
            use_type_invariant(self);
            assert(0 <= self.width * self.height) by (nonlinear_arith);
        }
        (self.width as usize) * (self.height as usize)
    }

    /// The runs in stream order.
    pub fn runs(&self) -> (r: &[Run])
        ensures
            r@ == self@,
    {
        self.runs.as_slice()
    }

    /// Writes the container: the header, then one record for each run, in
    /// stream order.
    pub fn to_bytes(&self) -> (bytes: Vec<u8>)
        ensures
            bytes@ == container_bytes(self.spec_width(), self.spec_height(), self@),
    {
        let mut bytes: Vec<u8> = Vec::new();
        push_u32_le(&mut bytes, self.width);
        push_u32_le(&mut bytes, self.height);
        let ghost header = bytes@;
        assert(header =~= le_bytes(self.width) + le_bytes(self.height));
        assert(record_bytes(self.runs@.take(0)) =~= Seq::<u8>::empty());
        let mut k: usize = 0;
        while k < self.runs.len()
            invariant
                k <= self.runs.len(),
                bytes@ == header + record_bytes(self.runs@.take(k as int)),
            decreases self.runs.len() - k,
        {
            let run = self.runs[k];
            bytes.push(run.length);
            bytes.push(run.color.r);
            bytes.push(run.color.g);
            bytes.push(run.color.b);
            proof {
                let done = self.runs@.take(k as int);
                let next = self.runs@.take(k + 1);
                assert(record_bytes(next) =~= record_bytes(done).push(run.length).push(
                    run.color.r,
                ).push(run.color.g).push(run.color.b)) by {
                    assert forall|i: int| 0 <= i < 4 * next.len() implies record_bytes(next)[i]
                        == record_bytes(done).push(run.length).push(run.color.r).push(
                        run.color.g,
                    ).push(run.color.b)[i] by {
                        if i < 4 * k {
                            assert(next[i / 4] == done[i / 4]);
                        } else {
                            assert(i / 4 == k);
                            assert(next[i / 4] == run);
                        }
                    }
                }
                assert(bytes@ =~= header + record_bytes(next));
            }
            k += 1;
        }
        assert(self.runs@.take(k as int) =~= self.runs@);
        bytes
    }

    /// Reads a container.
    ///
    /// Fails with [`CodecError::Format`] exactly when the bytes are no
    /// container: fewer than eight bytes, a record region that is no multiple
    /// of four bytes long, or a pixel count that does not fit in a `usize`.
    pub fn from_bytes(bytes: &[u8]) -> (container: Result<Container, CodecError>)
        ensures
            match container {
                Ok(c) => is_container(bytes@) && c.spec_width() == header_width(bytes@)
                    && c.spec_height() == header_height(bytes@) && c@ == records(bytes@)
                    && c.well_formed(),
                Err(e) => e == CodecError::Format && !is_container(bytes@),
            },
    {
        if bytes.len() < HEADER_LEN || (bytes.len() - HEADER_LEN) % RECORD_LEN != 0 {
            return Err(CodecError::Format);
        }
        let width = match read_u32_le(bytes, 0) {
            Some(w) => w,
            None => { return Err(CodecError::Format); },
        };
        let height = match read_u32_le(bytes, 4) {
            Some(h) => h,
            None => { return Err(CodecError::Format); },
        };
        let count: usize = (bytes.len() - HEADER_LEN) / RECORD_LEN;
        let mut runs: Vec<Run> = Vec::new();
        let mut k: usize = 0;
        while k < count
            invariant
                framed(bytes@),
                bytes@.len() <= usize::MAX,
                count == (bytes@.len() - 8) / 4,
                k <= count,
                runs@.len() == k,
                forall|m: int| 0 <= m < k ==> runs@[m] == record_at(bytes@, m),
            decreases count - k,
        {
            let at: usize = HEADER_LEN + RECORD_LEN * k;
            let run = Run {
                length: bytes[at],
                color: Pixel { r: bytes[at + 1], g: bytes[at + 2], b: bytes[at + 3] },
            };
            runs.push(run);
            k += 1;
        }
        assert(runs@ =~= records(bytes@));
        Container::new(width, height, runs)
    }
}

} // verus!
