//! Colors as the quantizers hand them out: three 8-bit channels.

use vstd::prelude::*;
use vstd::string::*;

verus! {

/// A color in the RGB cube.
#[derive(Clone, Copy, Debug, PartialEq, Eq, Structural)]
pub struct Rgb {
    pub r: u8,
    pub g: u8,
    pub b: u8,
}

/// The hexadecimal digit for `value`, which is below 16.
pub open spec fn hex_digit(value: int, uppercase: bool) -> char {
    if uppercase {
        "0123456789ABCDEF"@[value]
    } else {
        "0123456789abcdef"@[value]
    }
}

/// The two hexadecimal digits of a channel, high digit first.
pub open spec fn hex_byte(channel: u8, uppercase: bool) -> Seq<char> {
    seq![hex_digit(channel as int / 16, uppercase), hex_digit(channel as int % 16, uppercase)]
}

/// `#RRGGBB`: a number sign and the digits of red, green and blue.
pub open spec fn hex_string(color: Rgb, uppercase: bool) -> Seq<char> {
    seq!['#'] + hex_byte(color.r, uppercase) + hex_byte(color.g, uppercase) + hex_byte(
        color.b,
        uppercase,
    )
}

/// Appends the two hexadecimal digits of `channel` to `out`.
fn push_hex_byte(out: &mut String, channel: u8, uppercase: bool)
    ensures
        final(out)@ == old(out)@ + hex_byte(channel, uppercase),
{
    proof {
        reveal_strlit("0123456789ABCDEF");
        reveal_strlit("0123456789abcdef");
    }
    let digits: &str = if uppercase {
        "0123456789ABCDEF"
    } else {
        "0123456789abcdef"
    };
    assert(digits@.len() == 16);
    assert(digits.is_ascii());
    let high: usize = (channel / 16) as usize;
    let low: usize = (channel % 16) as usize;
    let ghost before = out@;
    out.append(digits.substring_ascii(high, high + 1));
    out.append(digits.substring_ascii(low, low + 1));
    assert(out@ =~= before + hex_byte(channel, uppercase));
}

impl Rgb {
    /// The color with the given channels.
    pub fn new(r: u8, g: u8, b: u8) -> (color: Rgb)
        ensures
            color == (Rgb { r, g, b }),
    {
        Rgb { r, g, b }
    }

    /// The color as `#RRGGBB`, with the digits above nine in upper or in
    /// lower case.
    pub fn to_hex_string(&self, uppercase: bool) -> (text: String)
        ensures
            text@ == hex_string(*self, uppercase),
            text@.len() == 7,
    {
        let mut text = String::new();
        proof {
            reveal_strlit("#");
        }
        text.append("#");
        push_hex_byte(&mut text, self.r, uppercase);
        push_hex_byte(&mut text, self.g, uppercase);
        push_hex_byte(&mut text, self.b, uppercase);
        assert(text@ =~= hex_string(*self, uppercase));
        text
    }
}

} // verus!
