//! Terminal color schemes from the colors of an image.
//!
//! The library quantizes an RGB8 pixel buffer into a few representative
//! colors and plans how those colors become a palette: their order by
//! luminance, which of them are anchored toward black and white, which get a
//! bold counterpart, and whether the whole palette is inverted for a light
//! theme.

pub mod buffer;
pub mod color;
pub mod error;
pub mod median_cut;
pub mod options;
pub mod order;
pub mod pipeline;
pub mod quantize;

pub use crate::buffer::PixelBuffer;
pub use crate::color::Rgb;
pub use crate::error::{PaletteError, QuantizeFault};
pub use crate::median_cut::generate_color_thief;
pub use crate::options::{Backend, Options};
pub use crate::pipeline::{transform_colors, Swatch, Treatment};
pub use crate::quantize::{quantize, Quantization};
