//! Colors and flat shading.

use vstd::prelude::*;
use crate::fixed::UNIT;
use crate::fixed::round_div;
use crate::fixed::clamp_int;
use crate::fixed::div_round;
use crate::fixed::lemma_round_div_size;

verus! {

/// A color by its red, green and blue channels and its opacity.
#[derive(Debug, Clone, Copy, PartialEq, Eq, Structural)]
pub struct Color {
    pub r: u8,
    pub g: u8,
    pub b: u8,
    pub a: u8,
}

/// One channel scaled by the raw factor `factor`: the product rounded to a
/// whole number and limited to the range of a channel.
pub open spec fn shade_channel(channel: int, factor: int) -> int {
    clamp_int(round_div(channel * factor, UNIT as int), 0, 255)
}

/// A color with its red, green and blue channels scaled by `factor`; the
/// opacity stays.
pub open spec fn shade(color: Color, factor: int) -> Color {
    Color {
        r: shade_channel(color.r as int, factor) as u8,
        g: shade_channel(color.g as int, factor) as u8,
        b: shade_channel(color.b as int, factor) as u8,
        a: color.a,
    }
}

impl Color {
    /// The color with the four channels given.
    pub fn new(r: u8, g: u8, b: u8, a: u8) -> (c: Color)
        ensures
            c == (Color { r, g, b, a }),
    {
        Color { r, g, b, a }
    }
}

/// Scales one channel by `factor`.
fn channel_mul(channel: u8, factor: i64) -> (c: u8)
    ensures
        c == shade_channel(channel as int, factor as int),
{
    proof {
        assert(-0x100 * 0x8000_0000_0000_0000 <= channel * factor <= 0x100 * 0x8000_0000_0000_0000)
            by (nonlinear_arith)
            requires
                0 <= channel <= 0x100,
                -0x8000_0000_0000_0000 <= factor <= 0x8000_0000_0000_0000,
        ;
    }
    let product: i128 = (channel as i128) * (factor as i128);
    let scaled: i128 = div_round(product, UNIT as i128);
    if scaled < 0 {
        0
    } else if scaled > 255 {
        255
    } else {
        scaled as u8
    }
}

/// `color` with its red, green and blue channels scaled by the raw factor
/// `factor`, each rounded and limited to the range of a channel; the opacity is
/// kept.
pub fn color_mul(color: &Color, factor: i64) -> (shaded: Color)
    ensures
        shaded == shade(*color, factor as int),
{
    let r = channel_mul(color.r, factor);
    let g = channel_mul(color.g, factor);
    let b = channel_mul(color.b, factor);
    let a = color.a;

    Color { r, g, b, a }
}

/// A factor that is not positive leaves no light: the three channels are zero.
pub proof fn lemma_shade_dark(color: Color, factor: int)
    requires
        factor <= 0,
    ensures
        shade(color, factor) == (Color { r: 0, g: 0, b: 0, a: color.a }),
{
    assert(color.r * factor <= 0 && color.g * factor <= 0 && color.b * factor <= 0)
        by (nonlinear_arith)
        requires
            factor <= 0,
            color.r >= 0,
            color.g >= 0,
            color.b >= 0,
    ;
    lemma_round_div_size(color.r * factor, UNIT as int);
    lemma_round_div_size(color.g * factor, UNIT as int);
    lemma_round_div_size(color.b * factor, UNIT as int);
}

} // verus!
