//! Choosing the quantizer.
//!
//! Median cut works on bytes and runs here. K-means works on floating-point
//! Oklab colors, which this library does not hold: for that quantizer the
//! caller is told how many clusters to form.

use vstd::prelude::*;
use crate::buffer::PixelBuffer;
use crate::color::Rgb;
use crate::error::PaletteError;
use crate::median_cut::{agrees, generate_color_thief, median_cut_palette};
use crate::options::{Backend, Options};

verus! {

/// How far the quantization has come.
#[derive(Debug)]
pub enum Quantization {
    /// Done: the representative colors, found by median cut.
    Palette(Vec<Rgb>),
    /// Left to the caller: the image is to be clustered by k-means into at
    /// most `clusters` colors.
    Clustering { clusters: u8 },
}

/// Starts a palette generation: runs the median-cut quantizer, or asks for
/// the k-means clustering, as `options.backend` says. Either way a request
/// for zero colors is refused.
pub fn quantize(buffer: &PixelBuffer, options: &Options) -> (step: Result<
    Quantization,
    PaletteError,
>)
    ensures
        match options.backend {
            Backend::ColorThief => match step {
                Ok(Quantization::Palette(palette)) => agrees(
                    Ok(palette),
                    median_cut_palette(buffer.bytes(), options.colors),
                ),
                Ok(Quantization::Clustering { .. }) => false,
                Err(error) => agrees(
                    Err(error),
                    median_cut_palette(buffer.bytes(), options.colors),
                ),
            },
            Backend::Okolors => step == if options.colors == 0 {
                Err::<Quantization, PaletteError>(PaletteError::InvalidColorCount)
            } else {
                Ok::<Quantization, PaletteError>(
                    (Quantization::Clustering { clusters: options.colors }),
                )
            },
        },
{
    match options.backend {
        Backend::ColorThief => match generate_color_thief(buffer, options.colors) {
            Ok(palette) => Ok(Quantization::Palette(palette)),
            Err(error) => Err(error),
        },
        Backend::Okolors => {
            if options.colors == 0 {
                Err(PaletteError::InvalidColorCount)
            } else {
                Ok(Quantization::Clustering { clusters: options.colors })
            }
        },
    }
}

} // verus!
