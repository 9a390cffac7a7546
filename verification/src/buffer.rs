//! The decoded image: RGB8 samples, row by row.

use vstd::prelude::*;
use crate::color::Rgb;
use crate::error::PaletteError;

verus! {

/// The pixels that a run of RGB bytes holds. Bytes behind the last whole
/// pixel are not counted.
pub open spec fn pixels_of(bytes: Seq<u8>) -> Seq<Rgb> {
    Seq::new(
        (bytes.len() / 3) as nat,
        |i: int| Rgb { r: bytes[3 * i], g: bytes[3 * i + 1], b: bytes[3 * i + 2] },
    )
}

/// An image of `width` by `height` pixels is not empty and takes exactly
/// `len` bytes.
pub open spec fn fits(width: u32, height: u32, len: nat) -> bool {
    width > 0 && height > 0 && len == 3 * (width * height)
}

/// An image in memory. It is never empty: both dimensions are positive, and
/// there are three bytes for each pixel.
pub struct PixelBuffer {
    width: u32,
    height: u32,
    data: Vec<u8>,
}

impl View for PixelBuffer {
    type V = Seq<Rgb>;

    /// The pixels, row by row.
    closed spec fn view(&self) -> Seq<Rgb> {
        pixels_of(self.data@)
    }
}

impl PixelBuffer {
    #[verifier::type_invariant]
    spec fn well_formed(&self) -> bool {
        fits(self.width, self.height, self.data@.len())
    }

    /// Number of pixels in a row.
    pub closed spec fn columns(&self) -> u32 {
        self.width
    }

    /// Number of rows.
    pub closed spec fn rows(&self) -> u32 {
        self.height
    }

    /// The samples: red, green and blue of each pixel in turn.
    pub closed spec fn bytes(&self) -> Seq<u8> {
        self.data@
    }

    /// Takes over the samples of a decoded image. A buffer with a zero
    /// dimension, or one whose length is not three bytes per pixel, is
    /// refused.
    pub fn new(width: u32, height: u32, data: Vec<u8>) -> (made: Result<PixelBuffer, PaletteError>)
        ensures
            match made {
                Ok(buffer) => {
                    &&& fits(width, height, data@.len())
                    &&& buffer.columns() == width
                    &&& buffer.rows() == height
                    &&& buffer.bytes() == data@
                    &&& buffer@ == pixels_of(data@)
                    &&& buffer@.len() == width * height
                },
                Err(error) => error == PaletteError::InvalidInput && !fits(
                    width,
                    height,
                    data@.len(),
                ),
            },
    {
        if width == 0 || height == 0 {
            return Err(PaletteError::InvalidInput);
        }
        assert(0 < width * height <= 0xffff_ffff * 0xffff_ffff) by (nonlinear_arith)
            requires
                0 < width <= 0xffff_ffff,
                0 < height <= 0xffff_ffff,
        ;
        let area: u64 = width as u64 * height as u64;
        let needed: u128 = 3 * (area as u128);
        if data.len() as u128 != needed {
            return Err(PaletteError::InvalidInput);
        }
        let buffer = PixelBuffer { width, height, data };
        assert(buffer@.len() == width * height);
        Ok(buffer)
    }

    /// Number of pixels in a row.
    pub fn width(&self) -> (width: u32)
        ensures
            width == self.columns(),
            width > 0,
    {
        proof {
            use_type_invariant(self);
        }
        self.width
    }

    /// Number of rows.
    pub fn height(&self) -> (height: u32)
        ensures
            height == self.rows(),
            height > 0,
    {
        proof {
            use_type_invariant(self);
        }
        self.height
    }

    /// Number of pixels.
    pub fn pixel_count(&self) -> (count: usize)
        ensures
            count == self@.len(),
            count == self.columns() * self.rows(),
            count > 0,
            self.bytes().len() == 3 * count,
            self@ == pixels_of(self.bytes()),
    {
        proof {
            use_type_invariant(self);
            assert(self.width * self.height > 0) by (nonlinear_arith)
                requires
                    self.width > 0,
                    self.height > 0,
            ;
            assert(self.data@.len() == 3 * (self.width * self.height));
        }
        self.data.len() / 3
    }

    /// The pixel at `index`, counted row by row.
    pub fn pixel(&self, index: usize) -> (color: Rgb)
        requires
            index < self@.len(),
        ensures
            color == self@[index as int],
    {
        proof {
            use_type_invariant(self);
            assert(self@.len() == self.data@.len() / 3);
        }
        let len: usize = self.data.len();
        assert(3 * index + 2 < len);
        let at: usize = 3 * index;
        Rgb { r: self.data[at], g: self.data[at + 1], b: self.data[at + 2] }
    }

    /// The samples: red, green and blue of each pixel in turn.
    pub fn as_bytes(&self) -> (data: &Vec<u8>)
        ensures
            data@ == self.bytes(),
            pixels_of(data@) == self@,
    {
        &self.data
    }
}

} // verus!
