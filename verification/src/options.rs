//! What the caller chooses: the quantizer, the number of colors and the
//! stages of the pipeline that are switched on.

use vstd::prelude::*;

verus! {

/// The quantizer that reduces the image to its representative colors.
#[derive(Clone, Copy, Debug, PartialEq, Eq, Structural)]
pub enum Backend {
    /// Median cut over a histogram of the RGB cube.
    ColorThief,
    /// Weighted k-means clustering in the Oklab color space.
    Okolors,
}

/// The settings of one palette generation.
#[derive(Clone, Copy, Debug, PartialEq, Eq, Structural)]
pub struct Options {
    /// Number of colors to generate, bold variants not counted.
    pub colors: u8,
    /// Generate a light color scheme: the palette is handed out lightest
    /// color first.
    pub light: bool,
    /// Skip the bold variants.
    pub no_bold: bool,
    /// Leave the darkest and the lightest color as the quantizer found them.
    pub no_adjust: bool,
    /// The quantizer to use.
    pub backend: Backend,
}

impl Options {
    /// Eight colors from the k-means quantizer, with every stage of the
    /// pipeline switched on and a dark theme.
    pub fn new() -> (options: Options)
        ensures
            options == (Options {
                colors: 8,
                light: false,
                no_bold: false,
                no_adjust: false,
                backend: Backend::Okolors,
            }),
    {
        Options { colors: 8, light: false, no_bold: false, no_adjust: false, backend: Backend::Okolors }
    }
}

impl Default for Options {
    fn default() -> (options: Options)
        ensures
            options == (Options {
                colors: 8,
                light: false,
                no_bold: false,
                no_adjust: false,
                backend: Backend::Okolors,
            }),
    {
        Options::new()
    }
}

} // verus!
