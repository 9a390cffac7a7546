//! The median-cut quantizer.
//!
//! An image with no more distinct colors than were asked for needs no
//! quantizer: its palette is its colors, each once, in the order in which
//! they first occur. Any other image goes to `color_thief`, which cuts a
//! histogram of the RGB cube into boxes; what comes back is cleared of
//! repetitions and cut down to the number of colors asked for.

use vstd::prelude::*;
use crate::buffer::{pixels_of, PixelBuffer};
use crate::color::Rgb;
use crate::error::{PaletteError, QuantizeFault};

verus! {

/// `color_thief` looks at one pixel and then skips three times this many.
pub const SAMPLING_QUALITY: u8 = 5;

/// The largest buffer that is handed to `color_thief`, in bytes. Its sums of
/// channel values are 32 bits wide: with more than eight million sampled
/// pixels they could overflow.
pub const MAX_QUANTIZER_BYTES: usize = 360_000_000;

/// The colors of a list, each once, in the order of their first occurrence.
pub open spec fn distinct_colors(colors: Seq<Rgb>) -> Seq<Rgb>
    decreases colors.len(),
{
    if colors.len() == 0 {
        Seq::<Rgb>::empty()
    } else {
        let earlier = distinct_colors(colors.drop_last());
        if earlier.contains(colors.last()) {
            earlier
        } else {
            earlier.push(colors.last())
        }
    }
}

/// What is kept of the colors that the quantizer found: each once, and no
/// more than `colors` of them, the first ones.
pub open spec fn refined(found: Seq<Rgb>, colors: u8) -> Seq<Rgb> {
    let unique = distinct_colors(found);
    if unique.len() <= colors {
        unique
    } else {
        unique.take(colors as int)
    }
}

/// The number of colors that `color_thief` is asked for. It hands out one
/// color less than it is asked for, unless it is asked for fewer than eight.
pub open spec fn box_limit(colors: u8) -> u8 {
    if colors < 255 {
        (colors + 1) as u8
    } else {
        255
    }
}

/// What `color_thief::get_palette` returns for RGB bytes: the palette, as a
/// function of the bytes, the sampling quality and the number of colors.
pub uninterp spec fn thief_palette(pixels: Seq<u8>, quality: u8, max_colors: u8) -> Result<
    Seq<Rgb>,
    QuantizeFault,
>;

/// The outcome of the quantizer, settled: a palette is refined, a fault is
/// passed on.
pub open spec fn settled(found: Result<Seq<Rgb>, QuantizeFault>, colors: u8) -> Result<
    Seq<Rgb>,
    PaletteError,
> {
    match found {
        Ok(list) => Ok(refined(list, colors)),
        Err(fault) => Err(PaletteError::Quantizer(fault)),
    }
}

/// The median-cut palette of an image, given as RGB bytes.
pub open spec fn median_cut_palette(bytes: Seq<u8>, colors: u8) -> Result<Seq<Rgb>, PaletteError> {
    let present = distinct_colors(pixels_of(bytes));
    if colors == 0 {
        Err(PaletteError::InvalidColorCount)
    } else if present.len() <= colors {
        Ok(present)
    } else if bytes.len() > MAX_QUANTIZER_BYTES {
        Err(PaletteError::Oversized)
    } else {
        settled(thief_palette(bytes, SAMPLING_QUALITY, box_limit(colors)), colors)
    }
}

/// The outcome `got` is the outcome `expected`.
pub open spec fn agrees(got: Result<Vec<Rgb>, PaletteError>, expected: Result<Seq<Rgb>, PaletteError>)
    -> bool {
    match got {
        Ok(palette) => expected == Ok::<Seq<Rgb>, PaletteError>(palette@),
        Err(error) => expected == Err::<Seq<Rgb>, PaletteError>(error),
    }
}

/// The distinct colors of the first pixels are the first of the distinct
/// colors of all pixels.
pub proof fn lemma_distinct_prefix(colors: Seq<Rgb>, upto: int)
    requires
        0 <= upto <= colors.len(),
    ensures
        distinct_colors(colors.take(upto)).len() <= distinct_colors(colors).len(),
        distinct_colors(colors.take(upto)) == distinct_colors(colors).take(
            distinct_colors(colors.take(upto)).len() as int,
        ),
    decreases colors.len(),
{
    let part = distinct_colors(colors.take(upto));
    if upto == colors.len() {
        assert(colors.take(upto) =~= colors);
        assert(part =~= part.take(part.len() as int));
    } else {
        let shorter = colors.drop_last();
        assert(shorter.take(upto) =~= colors.take(upto));
        lemma_distinct_prefix(shorter, upto);
        assert(part =~= distinct_colors(colors).take(part.len() as int));
    }
}

/// No color occurs twice among the distinct colors, and they are the colors
/// of the list.
pub proof fn lemma_distinct_colors(colors: Seq<Rgb>)
    ensures
        distinct_colors(colors).no_duplicates(),
        distinct_colors(colors).len() <= colors.len(),
        forall|color: Rgb| #[trigger] distinct_colors(colors).contains(color) ==> colors.contains(color),
        forall|color: Rgb| #[trigger] colors.contains(color) ==> distinct_colors(colors).contains(color),
    decreases colors.len(),
{
    let unique = distinct_colors(colors);
    if colors.len() > 0 {
        let shorter = colors.drop_last();
        let earlier = distinct_colors(shorter);
        lemma_distinct_colors(shorter);
        assert forall|color: Rgb| unique.contains(color) <==> colors.contains(color) by {
            if unique.contains(color) {
                let p = choose|p: int| 0 <= p < unique.len() && unique[p] == color;
                if p < earlier.len() {
                    assert(earlier[p] == color);
                    assert(earlier.contains(color));
                    assert(shorter.contains(color));
                    let q = choose|q: int| 0 <= q < shorter.len() && shorter[q] == color;
                    assert(colors[q] == color);
                } else {
                    assert(colors[colors.len() - 1] == color);
                }
            }
            if colors.contains(color) {
                let q = choose|q: int| 0 <= q < colors.len() && colors[q] == color;
                if q < shorter.len() {
                    assert(shorter[q] == color);
                    assert(shorter.contains(color));
                    assert(earlier.contains(color));
                    let p = choose|p: int| 0 <= p < earlier.len() && earlier[p] == color;
                    assert(unique[p] == color);
                } else if earlier.contains(color) {
                } else {
                    assert(unique[unique.len() - 1] == color);
                }
            }
        }
    }
}

/// Count invariant: the refined palette has at most `colors` colors, none of
/// them twice, and each of them is one that the quantizer found.
pub proof fn lemma_refined_is_bounded(found: Seq<Rgb>, colors: u8)
    ensures
        refined(found, colors).len() <= colors,
        refined(found, colors).len() <= found.len(),
        refined(found, colors).no_duplicates(),
        forall|color: Rgb| refined(found, colors).contains(color) ==> found.contains(color),
{
    lemma_distinct_colors(found);
    let unique = distinct_colors(found);
    let kept = refined(found, colors);
    assert forall|color: Rgb| kept.contains(color) implies found.contains(color) by {
        let p = choose|p: int| 0 <= p < kept.len() && kept[p] == color;
        assert(unique[p] == color);
        assert(unique.contains(color));
    }
}

/// Count invariant: a median-cut palette has at most `colors` colors, none
/// of them twice. Where the image has no more than `colors` distinct colors,
/// the palette is those colors, neither more nor fewer.
pub proof fn lemma_median_cut_count(bytes: Seq<u8>, colors: u8)
    ensures
        median_cut_palette(bytes, colors) matches Ok(palette) ==> (palette.len() <= colors
            && palette.no_duplicates()),
        0 < colors && distinct_colors(pixels_of(bytes)).len() <= colors ==> median_cut_palette(
            bytes,
            colors,
        ) == Ok::<Seq<Rgb>, PaletteError>(distinct_colors(pixels_of(bytes))),
{
    lemma_distinct_colors(pixels_of(bytes));
    match thief_palette(bytes, SAMPLING_QUALITY, box_limit(colors)) {
        Ok(list) => {
            lemma_refined_is_bounded(list, colors);
        },
        Err(_) => {},
    }
}

/// Adds `color` to the colors found so far, unless it is among them.
fn remember(found: &mut Vec<Rgb>, color: Rgb)
    ensures
        final(found)@ == if old(found)@.contains(color) {
            old(found)@
        } else {
            old(found)@.push(color)
        },
{
    let mut at: usize = 0;
    while at < found.len()
        invariant
            at <= found.len(),
            found@ == old(found)@,
            forall|p: int| 0 <= p < at ==> found@[p] != color,
        decreases found.len() - at,
    {
        if found[at] == color {
            return ;
        }
        at += 1;
    }
    found.push(color);
}

/// The colors of a list, each once, in the order of their first occurrence.
pub fn dedupe(colors: &Vec<Rgb>) -> (unique: Vec<Rgb>)
    ensures
        unique@ == distinct_colors(colors@),
{
    let mut unique: Vec<Rgb> = Vec::new();
    let mut at: usize = 0;
    while at < colors.len()
        invariant
            at <= colors.len(),
            unique@ == distinct_colors(colors@.take(at as int)),
        decreases colors.len() - at,
    {
        proof {
            assert(colors@.take(at + 1).drop_last() =~= colors@.take(at as int));
        }
        remember(&mut unique, colors[at]);
        at += 1;
    }
    proof {
        assert(colors@.take(colors.len() as int) =~= colors@);
    }
    unique
}

/// The distinct colors of an image in the order of their first occurrence,
/// as far as the caller cares for them: the search stops at the first color
/// beyond `limit`.
pub fn distinct_pixels(buffer: &PixelBuffer, limit: u8) -> (found: Vec<Rgb>)
    ensures
        found@ == if distinct_colors(buffer@).len() <= limit {
            distinct_colors(buffer@)
        } else {
            distinct_colors(buffer@).take(limit + 1)
        },
{
    let count: usize = buffer.pixel_count();
    let mut found: Vec<Rgb> = Vec::new();
    let mut at: usize = 0;
    while at < count
        invariant
            at <= count,
            count == buffer@.len(),
            found.len() <= limit,
            found@ == distinct_colors(buffer@.take(at as int)),
        decreases count - at,
    {
        proof {
            assert(buffer@.take(at + 1).drop_last() =~= buffer@.take(at as int));
        }
        remember(&mut found, buffer.pixel(at));
        at += 1;
        if found.len() > limit as usize {
            proof {
                lemma_distinct_prefix(buffer@, at as int);
            }
            return found;
        }
    }
    proof {
        assert(buffer@.take(count as int) =~= buffer@);
    }
    found
}

/// Clears a palette of repeated colors and keeps no more than `colors` of
/// what is left, the first ones.
pub fn refine_palette(found: &Vec<Rgb>, colors: u8) -> (kept: Vec<Rgb>)
    ensures
        kept@ == refined(found@, colors),
        kept.len() <= colors,
        kept@.no_duplicates(),
{
    proof {
        lemma_refined_is_bounded(found@, colors);
    }
    let mut kept = dedupe(found);
    if kept.len() > colors as usize {
        kept.truncate(colors as usize);
    }
    kept
}

/// Settles what the quantizer returned: its palette is refined, its fault
/// becomes the library's error.
pub fn settle(found: Result<Vec<Rgb>, QuantizeFault>, colors: u8) -> (outcome: Result<
    Vec<Rgb>,
    PaletteError,
>)
    ensures
        match found {
            Ok(list) => agrees(outcome, settled(Ok(list@), colors)),
            Err(fault) => agrees(outcome, settled(Err(fault), colors)),
        },
{
    match found {
        Ok(list) => Ok(refine_palette(&list, colors)),
        Err(fault) => Err(PaletteError::Quantizer(fault)),
    }
}

/// Calls `color_thief::get_palette` on RGB bytes. The palette that comes
/// back, or the error, is the one that `thief_palette` names: the function
/// draws on nothing but its arguments. It is kept from three inputs on which
/// `get_palette` panics: a quality outside 1 to 10, fewer than two colors,
/// and more sampled pixels than its 32-bit sums can take.
#[verifier::external_body]
fn thief_get_palette(pixels: &Vec<u8>, quality: u8, max_colors: u8) -> (found: Result<
    Vec<Rgb>,
    QuantizeFault,
>)
    requires
        1 <= quality <= 10,
        max_colors >= 2,
        pixels@.len() <= 72_000_000 * quality,
    ensures
        thief_palette(pixels@, quality, max_colors) == match found {
            Ok(list) => Ok::<Seq<Rgb>, QuantizeFault>(list@),
            Err(fault) => Err::<Seq<Rgb>, QuantizeFault>(fault),
        },
{
    match color_thief::get_palette(pixels, color_thief::ColorFormat::Rgb, quality, max_colors) {
        Ok(list) => Ok(list.into_iter().map(|c| Rgb { r: c.r, g: c.g, b: c.b }).collect()),
        Err(color_thief::Error::InvalidVBox) => Err(QuantizeFault::InvalidVBox),
        Err(color_thief::Error::VBoxCutFailed) => Err(QuantizeFault::VBoxCutFailed),
    }
}

/// Generates a palette of at most `colors` colors by median cut.
///
/// An image with no more than `colors` distinct colors yields exactly those
/// colors: a solid image yields one. Fails if `colors` is zero, if
/// `color_thief` is needed and the buffer is larger than
/// `MAX_QUANTIZER_BYTES`, or if `color_thief` fails.
pub fn generate_color_thief(buffer: &PixelBuffer, colors: u8) -> (outcome: Result<
    Vec<Rgb>,
    PaletteError,
>)
    ensures
        agrees(outcome, median_cut_palette(buffer.bytes(), colors)),
        outcome matches Ok(palette) ==> (palette.len() <= colors && palette@.no_duplicates()),
        0 < colors && distinct_colors(buffer@).len() <= colors ==> (outcome matches Ok(palette)
            && palette@ == distinct_colors(buffer@)),
{
    proof {
        lemma_median_cut_count(buffer.bytes(), colors);
    }
    if colors == 0 {
        return Err(PaletteError::InvalidColorCount);
    }
    let bytes = buffer.as_bytes();
    let present = distinct_pixels(buffer, colors);
    if present.len() <= colors as usize {
        return Ok(present);
    }
    if bytes.len() > MAX_QUANTIZER_BYTES {
        return Err(PaletteError::Oversized);
    }
    let max_colors: u8 = if colors < 255 {
        colors + 1
    } else {
        255
    };
    settle(thief_get_palette(bytes, SAMPLING_QUALITY, max_colors), colors)
}

} // verus!
