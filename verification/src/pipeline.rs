//! The transformation pipeline.
//!
//! The pipeline decides what becomes of the quantizer's colors: luminance
//! sort, contrast anchoring, bold variants, per-color adjustment and
//! light-theme inversion, in this order. Its result is a plan: one
//! [`Swatch`] per color of the final palette, naming the quantized color it
//! is made from and the treatments that color receives. The caller measures
//! the luminance keys and carries the treatments out in its color model.

use vstd::prelude::*;
use crate::options::Options;
use crate::order::{comes_before, lemma_luminance_order_exists, luminance_order, sort_by_luminance};

verus! {

/// Share of pure black, or pure white, in a contrast anchor, in percent.
pub const ANCHOR_WEIGHT_PERCENT: u8 = 90;

/// Luminance keys are the relative luminance, which lies between 0 and 1,
/// multiplied by this factor and cut off to an integer.
pub const LUMINANCE_KEY_SCALE: i32 = 1000;

/// One color of the final palette.
#[derive(Clone, Copy, Debug, PartialEq, Eq, Structural)]
pub struct Swatch {
    /// Index of the quantized color that this swatch is made from.
    pub source: usize,
    /// The color is mixed toward pure black.
    pub darkened: bool,
    /// The color is mixed toward pure white.
    pub lightened: bool,
    /// The color is a bold variant: it is lightened by the bold delta.
    pub bold: bool,
}

/// One change to a color, carried out in the caller's color model.
#[derive(Clone, Copy, Debug, PartialEq, Eq, Structural)]
pub enum Treatment {
    /// Mix toward pure black with weight `ANCHOR_WEIGHT_PERCENT`.
    AnchorDark,
    /// Mix toward pure white with weight `ANCHOR_WEIGHT_PERCENT`.
    AnchorLight,
    /// Lighten by the bold delta.
    Embolden,
    /// Rotate the hue by the configured angle.
    RotateHue,
    /// Lighten by the configured lightness delta.
    Lighten,
    /// Saturate by the configured saturation delta.
    Saturate,
}

/// The quantized color `source` as the quantizer found it.
pub open spec fn plain(source: usize) -> Swatch {
    Swatch { source, darkened: false, lightened: false, bold: false }
}

/// `swatch`, anchored toward black.
pub open spec fn toward_black(swatch: Swatch) -> Swatch {
    Swatch { darkened: true, ..swatch }
}

/// `swatch`, anchored toward white.
pub open spec fn toward_white(swatch: Swatch) -> Swatch {
    Swatch { lightened: true, ..swatch }
}

/// The bold variant of `swatch`.
pub open spec fn bold_variant(swatch: Swatch) -> Swatch {
    Swatch { bold: true, ..swatch }
}

/// The colors in the given order, each still untreated.
pub open spec fn plain_swatches(order: Seq<usize>) -> Seq<Swatch> {
    Seq::new(order.len(), |p: int| plain(order[p]))
}

/// Contrast anchoring: the first swatch goes toward black, then the last one
/// toward white. In a palette of one color both fall on that color. An empty
/// palette stays empty.
pub open spec fn anchored(swatches: Seq<Swatch>) -> Seq<Swatch> {
    if swatches.len() == 0 {
        swatches
    } else {
        let darkened = swatches.update(0, toward_black(swatches[0]));
        darkened.update(swatches.len() - 1, toward_white(darkened[swatches.len() - 1]))
    }
}

/// Bold synthesis: the swatches, followed by the bold variant of each in the
/// same order.
pub open spec fn emboldened(swatches: Seq<Swatch>) -> Seq<Swatch> {
    swatches + Seq::new(swatches.len(), |p: int| bold_variant(swatches[p]))
}

/// Light-theme inversion: the swatches in reverse.
pub open spec fn inverted(swatches: Seq<Swatch>) -> Seq<Swatch> {
    Seq::new(swatches.len(), |p: int| swatches[swatches.len() - 1 - p])
}

/// The plan of the whole pipeline for colors with the given luminance keys.
pub open spec fn palette_plan(keys: Seq<i32>, options: Options) -> Seq<Swatch> {
    let sorted = plain_swatches(luminance_order(keys));
    let contrasted = if options.no_adjust { sorted } else { anchored(sorted) };
    let doubled = if options.no_bold { contrasted } else { emboldened(contrasted) };
    if options.light { inverted(doubled) } else { doubled }
}

/// Some swatch of the plan is made from the quantized color `source`.
pub open spec fn uses_color(plan: Seq<Swatch>, source: usize) -> bool {
    exists|p: int| 0 <= p < plan.len() && (#[trigger] plan[p]).source == source
}

/// The treatments that a swatch receives, in the order in which they are
/// carried out: anchoring, bold lightening, then the adjustments that every
/// color gets: hue, lightness, saturation.
pub open spec fn treatments_of(swatch: Swatch) -> Seq<Treatment> {
    (if swatch.darkened { seq![Treatment::AnchorDark] } else { Seq::<Treatment>::empty() })
        + (if swatch.lightened { seq![Treatment::AnchorLight] } else { Seq::<Treatment>::empty() })
        + (if swatch.bold { seq![Treatment::Embolden] } else { Seq::<Treatment>::empty() })
        + seq![Treatment::RotateHue, Treatment::Lighten, Treatment::Saturate]
}

impl Swatch {
    /// The treatments of this swatch, first to last.
    pub fn treatments(&self) -> (list: Vec<Treatment>)
        ensures
            list@ == treatments_of(*self),
    {
        let mut list: Vec<Treatment> = Vec::new();
        if self.darkened {
            list.push(Treatment::AnchorDark);
        }
        if self.lightened {
            list.push(Treatment::AnchorLight);
        }
        if self.bold {
            list.push(Treatment::Embolden);
        }
        list.push(Treatment::RotateHue);
        list.push(Treatment::Lighten);
        list.push(Treatment::Saturate);
        assert(list@ =~= treatments_of(*self));
        list
    }
}

/// Starts a plan: the colors in the given order, none of them treated yet.
pub fn arrange(order: &Vec<usize>) -> (swatches: Vec<Swatch>)
    ensures
        swatches@ == plain_swatches(order@),
{
    let mut swatches: Vec<Swatch> = Vec::new();
    let mut at: usize = 0;
    while at < order.len()
        invariant
            at <= order.len(),
            swatches.len() == at,
            forall|p: int| 0 <= p < at ==> #[trigger] swatches@[p] == plain(order@[p]),
        decreases order.len() - at,
    {
        swatches.push(Swatch { source: order[at], darkened: false, lightened: false, bold: false });
        at += 1;
    }
    assert(swatches@ =~= plain_swatches(order@));
    swatches
}

/// Contrast anchoring: marks the first swatch to be mixed toward black and
/// the last one toward white.
pub fn anchor_contrast(swatches: Vec<Swatch>) -> (contrasted: Vec<Swatch>)
    ensures
        contrasted@ == anchored(swatches@),
{
    let mut contrasted = swatches;
    let count: usize = contrasted.len();
    if count > 0 {
        let first = contrasted[0];
        contrasted.set(0, Swatch {
            source: first.source,
            darkened: true,
            lightened: first.lightened,
            bold: first.bold,
        });
        let last = contrasted[count - 1];
        contrasted.set(count - 1, Swatch {
            source: last.source,
            darkened: last.darkened,
            lightened: true,
            bold: last.bold,
        });
    }
    contrasted
}

/// Bold synthesis: appends the bold variant of every swatch, in the same
/// order, behind the swatches themselves.
pub fn synthesize_bold(swatches: Vec<Swatch>) -> (doubled: Vec<Swatch>)
    ensures
        doubled@ == emboldened(swatches@),
{
    let mut doubled = swatches;
    let count: usize = doubled.len();
    let ghost base = doubled@;
    let mut at: usize = 0;
    while at < count
        invariant
            at <= count,
            count == base.len(),
            doubled.len() == count + at,
            forall|p: int| 0 <= p < count ==> #[trigger] doubled@[p] == base[p],
            forall|p: int| count <= p < count + at ==> #[trigger] doubled@[p] == bold_variant(base[p - count]),
        decreases count - at,
    {
        let original = doubled[at];
        doubled.push(Swatch {
            source: original.source,
            darkened: original.darkened,
            lightened: original.lightened,
            bold: true,
        });
        at += 1;
    }
    assert(doubled@ =~= emboldened(base));
    doubled
}

/// Light-theme inversion: reverses the plan.
pub fn invert(swatches: Vec<Swatch>) -> (reversed: Vec<Swatch>)
    ensures
        reversed@ == inverted(swatches@),
{
    let count: usize = swatches.len();
    let mut reversed: Vec<Swatch> = Vec::new();
    let mut at: usize = 0;
    while at < count
        invariant
            at <= count,
            count == swatches.len(),
            reversed.len() == at,
            forall|p: int| 0 <= p < at ==> #[trigger] reversed@[p] == swatches@[count - 1 - p],
        decreases count - at,
    {
        reversed.push(swatches[count - 1 - at]);
        at += 1;
    }
    assert(reversed@ =~= inverted(swatches@));
    reversed
}

/// The plan has one swatch per quantized color, twice as many with bold
/// variants, and every swatch names one of the quantized colors.
pub proof fn lemma_plan_shape(keys: Seq<i32>, options: Options)
    requires
        keys.len() <= usize::MAX,
    ensures
        palette_plan(keys, options).len() == if options.no_bold {
            keys.len()
        } else {
            2 * keys.len()
        },
        forall|p: int|
            0 <= p < palette_plan(keys, options).len() ==> (#[trigger] palette_plan(
                keys,
                options,
            )[p]).source < keys.len(),
{
    lemma_luminance_order_exists(keys);
    let order = luminance_order(keys);
    let plan = palette_plan(keys, options);
    let count = keys.len() as int;
    assert(order.len() == count);
    assert forall|p: int| 0 <= p < plan.len() implies (#[trigger] plan[p]).source < keys.len() by {
        let before = if options.light { plan.len() - 1 - p } else { p };
        let rank = if before < count { before } else { before - count };
        assert(order[rank] < count);
        assert(plan[p].source == order[rank]);
    }
}

/// Order invariant: without inversion the base colors, which are the first
/// `keys.len()` swatches, stand in ascending order of their luminance keys.
/// So the first is no lighter, and the last base color no darker, than any
/// other base color.
pub proof fn lemma_base_colors_ascend(keys: Seq<i32>, options: Options)
    requires
        keys.len() <= usize::MAX,
        !options.light,
    ensures
        palette_plan(keys, options).len() >= keys.len(),
        forall|p: int, q: int|
            #![trigger palette_plan(keys, options)[p], palette_plan(keys, options)[q]]
            0 <= p <= q < keys.len() ==> keys[palette_plan(keys, options)[p].source as int]
                <= keys[palette_plan(keys, options)[q].source as int],
        forall|p: int|
            0 <= p < keys.len() ==> keys[palette_plan(keys, options)[0].source as int] <= keys[(
            #[trigger] palette_plan(keys, options)[p]).source as int],
        forall|p: int|
            0 <= p < keys.len() ==> keys[(#[trigger] palette_plan(keys, options)[p]).source as int]
                <= keys[palette_plan(keys, options)[keys.len() - 1].source as int],
{
    lemma_luminance_order_exists(keys);
    let order = luminance_order(keys);
    let plan = palette_plan(keys, options);
    assert(order.len() == keys.len());
    assert forall|p: int| 0 <= p < keys.len() implies (#[trigger] plan[p]).source == order[p] by {}
    assert forall|p: int, q: int|
        #![trigger plan[p], plan[q]]
        0 <= p <= q < keys.len() implies keys[plan[p].source as int] <= keys[plan[q].source as int] by {
        if p < q {
            assert(comes_before(keys, order[p] as int, order[q] as int));
        }
    }
}

/// Bold doubling: with bold variants the plan is exactly twice as long as
/// the list of quantized colors, and the swatches at `i` and `i + keys.len()`
/// differ in nothing but the bold lightening. In a dark theme the bold
/// variant is the second of the two, in a light theme the first.
pub proof fn lemma_bold_doubles(keys: Seq<i32>, options: Options)
    requires
        keys.len() <= usize::MAX,
        !options.no_bold,
    ensures
        palette_plan(keys, options).len() == 2 * keys.len(),
        !options.light ==> forall|i: int|
            0 <= i < keys.len() ==> {
                &&& !(#[trigger] palette_plan(keys, options)[i]).bold
                &&& palette_plan(keys, options)[i + keys.len()] == bold_variant(
                    palette_plan(keys, options)[i],
                )
            },
        options.light ==> forall|i: int|
            0 <= i < keys.len() ==> {
                &&& !palette_plan(keys, options)[i + keys.len()].bold
                &&& #[trigger] palette_plan(keys, options)[i] == bold_variant(
                    palette_plan(keys, options)[i + keys.len()],
                )
            },
{
    lemma_luminance_order_exists(keys);
    let order = luminance_order(keys);
    let plan = palette_plan(keys, options);
    let count = keys.len() as int;
    assert(order.len() == count);
    let sorted = plain_swatches(order);
    let contrasted = if options.no_adjust { sorted } else { anchored(sorted) };
    let doubled = emboldened(contrasted);
    assert(contrasted.len() == count);
    assert forall|p: int| 0 <= p < count implies !(#[trigger] contrasted[p]).bold by {}
    if options.light {
        assert forall|i: int| 0 <= i < count implies {
            &&& !plan[i + count].bold
            &&& #[trigger] plan[i] == bold_variant(plan[i + count])
        } by {
            assert(plan[i] == doubled[2 * count - 1 - i]);
            assert(plan[i + count] == doubled[count - 1 - i]);
            assert(!contrasted[count - 1 - i].bold);
        }
    } else {
        assert forall|i: int| 0 <= i < count implies {
            &&& !(#[trigger] plan[i]).bold
            &&& plan[i + count] == bold_variant(plan[i])
        } by {
            assert(plan[i] == contrasted[i]);
            assert(!contrasted[i].bold);
        }
    }
}

/// Inversion round trip: inverting a plan twice gives the plan back.
pub proof fn lemma_inversion_round_trip(swatches: Seq<Swatch>)
    ensures
        inverted(inverted(swatches)) == swatches,
{
    assert(inverted(inverted(swatches)) =~= swatches);
}

/// The light theme is the dark theme in reverse, and reversing it once more
/// gives the dark theme back.
pub proof fn lemma_light_theme_inverts(keys: Seq<i32>, options: Options)
    ensures
        palette_plan(keys, (Options { light: true, ..options })) == inverted(
            palette_plan(keys, (Options { light: false, ..options })),
        ),
        inverted(palette_plan(keys, (Options { light: true, ..options }))) == palette_plan(
            keys,
            (Options { light: false, ..options }),
        ),
{
    lemma_inversion_round_trip(palette_plan(keys, (Options { light: false, ..options })));
}

/// With anchoring and bold variants switched off the plan is the quantized
/// colors themselves in a new order: each appears in it, and no swatch gets
/// any treatment beyond the three adjustments that every color gets.
pub proof fn lemma_plain_plan_keeps_colors(keys: Seq<i32>, options: Options)
    requires
        keys.len() <= usize::MAX,
        options.no_adjust,
        options.no_bold,
    ensures
        palette_plan(keys, options).len() == keys.len(),
        forall|p: int|
            0 <= p < keys.len() ==> {
                &&& (#[trigger] palette_plan(keys, options)[p]).source < keys.len()
                &&& palette_plan(keys, options)[p] == plain(palette_plan(keys, options)[p].source)
                &&& treatments_of(palette_plan(keys, options)[p]) == seq![
                    Treatment::RotateHue,
                    Treatment::Lighten,
                    Treatment::Saturate,
                ]
            },
        forall|i: usize| i < keys.len() ==> #[trigger] uses_color(palette_plan(keys, options), i),
{
    lemma_luminance_order_exists(keys);
    let order = luminance_order(keys);
    let plan = palette_plan(keys, options);
    let count = keys.len() as int;
    assert(order.len() == count);
    assert forall|p: int| 0 <= p < count implies {
        &&& (#[trigger] plan[p]).source < keys.len()
        &&& plan[p] == plain(plan[p].source)
        &&& treatments_of(plan[p]) == seq![
            Treatment::RotateHue,
            Treatment::Lighten,
            Treatment::Saturate,
        ]
    } by {
        let rank = if options.light { count - 1 - p } else { p };
        assert(order[rank] < count);
        assert(plan[p] == plain(order[rank]));
        assert(treatments_of(plan[p]) =~= seq![
            Treatment::RotateHue,
            Treatment::Lighten,
            Treatment::Saturate,
        ]);
    }
    assert forall|i: usize| i < keys.len() implies #[trigger] uses_color(plan, i) by {
        assert(order.contains(i));
        let rank = choose|rank: int| 0 <= rank < order.len() && order[rank] == i;
        let p = if options.light { count - 1 - rank } else { rank };
        assert(plan[p].source == i);
    }
}

/// Plans the palette for quantized colors with the given luminance keys:
/// `keys[i]` is the key of color `i`. The stages run in a fixed order:
/// luminance sort, contrast anchoring unless `no_adjust`, bold synthesis
/// unless `no_bold`, and inversion if `light`.
pub fn transform_colors(keys: &Vec<i32>, options: &Options) -> (plan: Vec<Swatch>)
    ensures
        plan@ == palette_plan(keys@, *options),
        plan.len() == if options.no_bold {
            keys.len() as int
        } else {
            2 * keys.len()
        },
        forall|p: int| 0 <= p < plan.len() ==> (#[trigger] plan@[p]).source < keys.len(),
{
    proof {
        assert(keys@.len() == keys.len());
        lemma_plan_shape(keys@, *options);
    }
    let order = sort_by_luminance(keys);
    let mut plan = arrange(&order);
    if !options.no_adjust {
        plan = anchor_contrast(plan);
    }
    if !options.no_bold {
        plan = synthesize_bold(plan);
    }
    if options.light {
        plan = invert(plan);
    }
    plan
}

} // verus!
