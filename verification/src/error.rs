//! Why a palette could not be generated.

use vstd::prelude::*;
use vstd::string::*;

verus! {

/// A failure inside the median-cut quantizer.
#[derive(Clone, Copy, Debug, PartialEq, Eq, Structural)]
pub enum QuantizeFault {
    /// A box of the color cube that holds no pixel was to be cut.
    InvalidVBox,
    /// No plane was found that cuts a box in two.
    VBoxCutFailed,
}

/// A fatal error: no palette is returned, not even a partial one.
#[derive(Clone, Copy, Debug, PartialEq, Eq, Structural)]
pub enum PaletteError {
    /// The pixel buffer has a zero dimension, or its length does not match
    /// its dimensions.
    InvalidInput,
    /// Fewer than one color was asked for.
    InvalidColorCount,
    /// The image has more pixels than the median-cut quantizer can count.
    Oversized,
    /// The median-cut quantizer gave up.
    Quantizer(QuantizeFault),
}

/// The words in which an error is reported.
pub open spec fn message_text(error: PaletteError) -> Seq<char> {
    match error {
        PaletteError::InvalidInput => "the image is empty or does not match its dimensions"@,
        PaletteError::InvalidColorCount => "at least one color must be asked for"@,
        PaletteError::Oversized => "the image has too many pixels for the median-cut quantizer"@,
        PaletteError::Quantizer(QuantizeFault::InvalidVBox) => "an invalid VBox"@,
        PaletteError::Quantizer(QuantizeFault::VBoxCutFailed) => "failed to cut a VBox"@,
    }
}

impl PaletteError {
    /// The error in words, for the user.
    pub fn message(&self) -> (text: String)
        ensures
            text@ == message_text(*self),
    {
        match self {
            PaletteError::InvalidInput => String::from_str(
                "the image is empty or does not match its dimensions",
            ),
            PaletteError::InvalidColorCount => String::from_str(
                "at least one color must be asked for",
            ),
            PaletteError::Oversized => String::from_str(
                "the image has too many pixels for the median-cut quantizer",
            ),
            PaletteError::Quantizer(QuantizeFault::InvalidVBox) => String::from_str(
                "an invalid VBox",
            ),
            PaletteError::Quantizer(QuantizeFault::VBoxCutFailed) => String::from_str(
                "failed to cut a VBox",
            ),
        }
    }
}

} // verus!
