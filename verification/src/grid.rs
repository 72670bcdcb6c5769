//! The pixel grid the stego layer reads and writes.
//!
//! A decoded image is held as plain bytes: `channels` bytes per pixel (3
//! for RGB, 4 for RGBA), pixels row-major (y outer, x inner), so the
//! channel bytes of pixel (x, y) start at `(y * width + x) * channels`.
//! The image file layer decodes into this shape and re-encodes from it.

use vstd::prelude::*;

verus! {

/// Where channel `c` of pixel (x, y) lives in the grid's bytes.
pub open spec fn chan_index(width: int, channels: int, x: int, y: int, c: int) -> int {
    (y * width + x) * channels + c
}

/// A channel byte with its least-significant bit forced to `bit`.
pub open spec fn set_lsb(b: u8, bit: bool) -> u8 {
    if bit {
        b | 1
    } else {
        b & 0xfe
    }
}

/// The least-significant bit of a channel byte.
pub open spec fn lsb(b: u8) -> bool {
    b & 1 == 1
}

pub proof fn lemma_set_lsb(b: u8, bit: bool)
    ensures
        lsb(set_lsb(b, bit)) == bit,
        set_lsb(b, bit) & 0xfe == b & 0xfe,
{
    assert(((b | 1) & 1 == 1) && ((b & 0xfe) & 1 != 1) && ((b | 1) & 0xfe == b & 0xfe) && ((b
        & 0xfe) & 0xfe == b & 0xfe)) by (bit_vector);
}

/// A channel index stays inside the grid's bytes.
pub proof fn lemma_chan_index_bounds(width: int, height: int, channels: int, x: int, y: int, c: int)
    requires
        0 <= x < width,
        0 <= y < height,
        0 <= c < channels,
    ensures
        0 <= chan_index(width, channels, x, y, c) < width * height * channels,
{
    assert((y * width + x) * channels + c < width * height * channels) by (nonlinear_arith)
        requires
            0 <= x < width,
            0 <= y < height,
            0 <= c < channels,
    ;
    assert((y * width + x) * channels + c >= 0) by (nonlinear_arith)
        requires
            0 <= x,
            0 <= y,
            0 <= c,
            0 < width,
            0 < channels,
    ;
}

/// Distinct (coordinate, channel) pairs land on distinct bytes.
pub proof fn lemma_chan_index_injective(
    width: int,
    height: int,
    channels: int,
    x1: int,
    y1: int,
    c1: int,
    x2: int,
    y2: int,
    c2: int,
)
    requires
        0 <= x1 < width,
        0 <= y1 < height,
        0 <= c1 < channels,
        0 <= x2 < width,
        0 <= y2 < height,
        0 <= c2 < channels,
        chan_index(width, channels, x1, y1, c1) == chan_index(width, channels, x2, y2, c2),
    ensures
        x1 == x2 && y1 == y2 && c1 == c2,
{
    let p1 = y1 * width + x1;
    let p2 = y2 * width + x2;
    assert(p1 == p2 && c1 == c2) by (nonlinear_arith)
        requires
            0 <= c1 < channels,
            0 <= c2 < channels,
            p1 >= 0,
            p2 >= 0,
            p1 * channels + c1 == p2 * channels + c2,
    ;
    assert(y1 == y2 && x1 == x2) by (nonlinear_arith)
        requires
            0 <= x1 < width,
            0 <= x2 < width,
            y1 >= 0,
            y2 >= 0,
            y1 * width + x1 == y2 * width + x2,
    ;
}

/// A decoded image as plain channel bytes.
pub struct PixelGrid {
    width: u32,
    height: u32,
    channels: u8,
    data: Vec<u8>,
}

impl PixelGrid {
    pub closed spec fn spec_width(&self) -> u32 {
        self.width
    }

    pub closed spec fn spec_height(&self) -> u32 {
        self.height
    }

    pub closed spec fn spec_channels(&self) -> u8 {
        self.channels
    }

    pub closed spec fn spec_data(&self) -> Seq<u8> {
        self.data@
    }

    /// Well-formed: a supported color model and exactly one byte per
    /// channel of every pixel.
    pub open spec fn wf(&self) -> bool {
        &&& (self.spec_channels() == 3 || self.spec_channels() == 4)
        &&& self.spec_data().len() == self.spec_width() as int * self.spec_height() as int
            * self.spec_channels() as int
    }

    /// Wraps a raw channel buffer, accepting it only when the channel
    /// count is a supported color model and the buffer holds exactly one
    /// byte per channel of every pixel.
    pub fn new(width: u32, height: u32, channels: u8, data: Vec<u8>) -> (r: Option<PixelGrid>)
        ensures
            match r {
                Some(g) => {
                    &&& g.wf()
                    &&& g.spec_width() == width
                    &&& g.spec_height() == height
                    &&& g.spec_channels() == channels
                    &&& g.spec_data() == data@
                },
                None => !((channels == 3 || channels == 4) && data@.len() == width as int
                    * height as int * channels as int),
            },
    {
        if channels != 3 && channels != 4 {
            return None;
        }
        proof {
            assert((width as int) * (height as int) * (channels as int) <= 0xffff_ffff
                * 0xffff_ffff * 0xff)
                by (nonlinear_arith)
                requires
                    0 <= (width as int) <= 0xffff_ffff,
                    0 <= (height as int) <= 0xffff_ffff,
                    0 <= (channels as int) <= 0xff,
            ;
        }
        let expected: u128 = (width as u128) * (height as u128) * (channels as u128);
        if (data.len() as u128) != expected {
            return None;
        }
        Some(PixelGrid { width, height, channels, data })
    }

    pub fn width(&self) -> (r: u32)
        ensures
            r == self.spec_width(),
    {
        self.width
    }

    pub fn height(&self) -> (r: u32)
        ensures
            r == self.spec_height(),
    {
        self.height
    }

    pub fn channels(&self) -> (r: u8)
        ensures
            r == self.spec_channels(),
    {
        self.channels
    }

    /// The raw channel bytes, for re-encoding to an image.
    pub fn data(&self) -> (r: &Vec<u8>)
        ensures
            r@ == self.spec_data(),
    {
        &self.data
    }

    /// The position of one channel byte, computed without overflow: the
    /// index is below the buffer length, which fits a usize.
    fn index_of(&self, x: u32, y: u32, c: u8) -> (idx: usize)
        requires
            self.wf(),
            x < self.spec_width(),
            y < self.spec_height(),
            c < self.spec_channels(),
        ensures
            idx == chan_index(
                self.spec_width() as int,
                self.spec_channels() as int,
                x as int,
                y as int,
                c as int,
            ),
            idx < self.spec_data().len(),
    {
        let n = self.data.len();
        proof {
            lemma_chan_index_bounds(
                self.width as int,
                self.height as int,
                self.channels as int,
                x as int,
                y as int,
                c as int,
            );
            assert(y as int * self.width as int <= 0xffff_ffff * 0xffff_ffff)
                by (nonlinear_arith)
                requires
                    (y as int) <= 0xffff_ffff,
                    (self.width as int) <= 0xffff_ffff,
                    0 <= (y as int),
                    0 <= (self.width as int),
            ;
            assert(((y as int) * (self.width as int) + (x as int)) * (self.channels as int) + (
            c as int) < (n as int));
            assert(y as int * self.width as int + x as int <= (y as int * self.width as int
                + x as int) * self.channels as int)
                by (nonlinear_arith)
                requires
                    0 <= y as int * self.width as int + x as int,
                    (self.channels as int) >= 1,
            ;
        }
        let idx64: u64 = ((y as u64) * (self.width as u64) + (x as u64)) * (self.channels as u64)
            + (c as u64);
        idx64 as usize
    }

    /// The byte of one channel of one pixel.
    pub fn get_channel(&self, x: u32, y: u32, c: u8) -> (b: u8)
        requires
            self.wf(),
            x < self.spec_width(),
            y < self.spec_height(),
            c < self.spec_channels(),
        ensures
            b == self.spec_data()[chan_index(
                self.spec_width() as int,
                self.spec_channels() as int,
                x as int,
                y as int,
                c as int,
            )],
    {
        let idx = self.index_of(x, y, c);
        self.data[idx]
    }

    /// Overwrites the least-significant bit of one channel byte, leaving
    /// its other seven bits and every other byte untouched.
    pub fn write_lsb(&mut self, x: u32, y: u32, c: u8, bit: bool)
        requires
            old(self).wf(),
            x < old(self).spec_width(),
            y < old(self).spec_height(),
            c < old(self).spec_channels(),
        ensures
            final(self).wf(),
            final(self).spec_width() == old(self).spec_width(),
            final(self).spec_height() == old(self).spec_height(),
            final(self).spec_channels() == old(self).spec_channels(),
            final(self).spec_data() == old(self).spec_data().update(
                chan_index(
                    old(self).spec_width() as int,
                    old(self).spec_channels() as int,
                    x as int,
                    y as int,
                    c as int,
                ),
                set_lsb(
                    old(self).spec_data()[chan_index(
                        old(self).spec_width() as int,
                        old(self).spec_channels() as int,
                        x as int,
                        y as int,
                        c as int,
                    )],
                    bit,
                ),
            ),
    {
        let idx = self.index_of(x, y, c);
        let b = self.data[idx];
        let nb = if bit {
            b | 1
        } else {
            b & 0xfe
        };
        self.data.set(idx, nb);
    }
}

} // verus!
