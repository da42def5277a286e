//! The pixel and image data model: four 8-bit channels per pixel, a raster
//! held as a row-major pixel sequence, and the checked conversions between a
//! flat byte buffer and a typed pixel sequence.

use vstd::prelude::*;

verus! {

/// One RGBA pixel: four 8-bit channels in fixed order (red, green, blue,
/// alpha). A pixel has no identity beyond its channel values.
#[derive(Clone, Copy, PartialEq, Eq, Structural, Debug)]
pub struct Pixel {
    pub r: u8,
    pub g: u8,
    pub b: u8,
    pub a: u8,
}

/// The engine's only error: the pixel count handed to construction or
/// reconstruction does not match `width * height`, or the raster is
/// degenerate (zero pixels).
#[derive(Clone, Copy, PartialEq, Eq, Structural, Debug)]
pub enum SortError {
    InvalidDimensions,
}

/// A raster image: `pixels` holds exactly `width * height` pixels in
/// row-major order (row 0 left to right, then row 1, and so on).
#[derive(Debug)]
pub struct Image {
    pub width: usize,
    pub height: usize,
    pub pixels: Vec<Pixel>,
}

impl Image {
    /// Well-formed: positive dimensions and exactly `width * height` pixels.
    pub open spec fn wf(self) -> bool {
        &&& self.width >= 1
        &&& self.height >= 1
        &&& self.pixels@.len() == self.width * self.height
    }

    /// Checked construction: accepts exactly the well-formed combinations of
    /// dimensions and pixel count, and rejects everything else.
    pub fn new(width: usize, height: usize, pixels: Vec<Pixel>) -> (res: Result<Image, SortError>)
        ensures
            match res {
                Ok(img) => {
                    &&& img.wf()
                    &&& img.width == width
                    &&& img.height == height
                    &&& img.pixels@ == pixels@
                },
                Err(e) => {
                    &&& !(width >= 1 && height >= 1 && pixels@.len() == width * height)
                    &&& e == SortError::InvalidDimensions
                },
            },
    {
        if width == 0 || height == 0 {
            return Err(SortError::InvalidDimensions);
        }
        proof {
            assert((width as int) * (height as int) < 0x1_0000_0000_0000_0000_0000_0000_0000_0000)
                by (nonlinear_arith)
                requires
                    (width as int) < 0x1_0000_0000_0000_0000,
                    (height as int) < 0x1_0000_0000_0000_0000,
            ;
        }
        let prod: u128 = (width as u128) * (height as u128);
        if prod != pixels.len() as u128 {
            return Err(SortError::InvalidDimensions);
        }
        Ok(Image { width, height, pixels })
    }
}

/// The channel that stands at offset `j` (0 to 3) inside a pixel's four-byte
/// representation.
pub open spec fn channel_at(p: Pixel, j: int) -> u8 {
    if j == 0 {
        p.r
    } else if j == 1 {
        p.g
    } else if j == 2 {
        p.b
    } else {
        p.a
    }
}

/// Flattens a pixel sequence into its byte buffer: four bytes per pixel, in
/// channel order red, green, blue, alpha.
pub fn pixels_to_bytes(pixels: &Vec<Pixel>) -> (out: Vec<u8>)
    ensures
        out@.len() == 4 * pixels@.len(),
        forall|k: int|
            0 <= k < pixels@.len() ==> {
                &&& out@[4 * k] == pixels@[k].r
                &&& out@[4 * k + 1] == pixels@[k].g
                &&& out@[4 * k + 2] == pixels@[k].b
                &&& out@[4 * k + 3] == pixels@[k].a
            },
{
    let mut out: Vec<u8> = Vec::new();
    let mut i: usize = 0;
    while i < pixels.len()
        invariant
            i <= pixels@.len(),
            out@.len() == 4 * i,
            forall|k: int|
                0 <= k < i ==> {
                    &&& out@[4 * k] == pixels@[k].r
                    &&& out@[4 * k + 1] == pixels@[k].g
                    &&& out@[4 * k + 2] == pixels@[k].b
                    &&& out@[4 * k + 3] == pixels@[k].a
                },
        decreases pixels@.len() - i,
    {
        let p = pixels[i];
        out.push(p.r);
        out.push(p.g);
        out.push(p.b);
        out.push(p.a);
        i = i + 1;
    }
    out
}

/// Groups a flat byte buffer into pixels, four bytes per pixel in channel
/// order red, green, blue, alpha. Succeeds exactly when the buffer length is
/// a multiple of four.
pub fn pixels_from_bytes(bytes: &Vec<u8>) -> (res: Result<Vec<Pixel>, SortError>)
    ensures
        match res {
            Ok(pixels) => {
                &&& bytes@.len() % 4 == 0
                &&& pixels@.len() == bytes@.len() / 4
                &&& forall|k: int|
                    0 <= k < pixels@.len() ==> {
                        &&& pixels@[k].r == bytes@[4 * k]
                        &&& pixels@[k].g == bytes@[4 * k + 1]
                        &&& pixels@[k].b == bytes@[4 * k + 2]
                        &&& pixels@[k].a == bytes@[4 * k + 3]
                    }
            },
            Err(e) => {
                &&& bytes@.len() % 4 != 0
                &&& e == SortError::InvalidDimensions
            },
        },
{
    if bytes.len() % 4 != 0 {
        return Err(SortError::InvalidDimensions);
    }
    let n = bytes.len() / 4;
    let mut pixels: Vec<Pixel> = Vec::new();
    let mut i: usize = 0;
    while i < n
        invariant
            i <= n,
            n == bytes@.len() / 4,
            bytes@.len() % 4 == 0,
            bytes@.len() <= usize::MAX,
            pixels@.len() == i,
            forall|k: int|
                0 <= k < i ==> {
                    &&& pixels@[k].r == bytes@[4 * k]
                    &&& pixels@[k].g == bytes@[4 * k + 1]
                    &&& pixels@[k].b == bytes@[4 * k + 2]
                    &&& pixels@[k].a == bytes@[4 * k + 3]
                },
        decreases n - i,
    {
        assert(4 * i + 4 <= bytes@.len());
        let base = 4 * i;
        let p = Pixel { r: bytes[base], g: bytes[base + 1], b: bytes[base + 2], a: bytes[base + 3] };
        pixels.push(p);
        i = i + 1;
    }
    Ok(pixels)
}

} // verus!
