//! Colours of the framebuffer terminal.

use vstd::prelude::*;

verus! {

/// A colour as the framebuffer stores it: blue, green and red bytes.
#[derive(Debug, Clone, Copy, PartialEq, Eq, Structural)]
pub struct Color {
    pub b: u8,
    pub g: u8,
    pub r: u8,
}

/// One channel of `top` drawn with opacity `alpha` (out of 255) over `bottom`.
pub open spec fn blend_channel(top: u8, bottom: u8, alpha: u8) -> u8 {
    ((bottom * (255 - alpha) + top * alpha) / 255) as u8
}

impl Color {
    /// The colour with these red, green and blue bytes.
    pub fn rgb(r: u8, g: u8, b: u8) -> (c: Color)
        ensures
            c == (Color { b, g, r }),
    {
        Color { b, g, r }
    }

    /// White.
    pub fn white() -> (c: Color)
        ensures
            c == (Color { b: 255, g: 255, r: 255 }),
    {
        Color::rgb(255, 255, 255)
    }

    /// Black.
    pub fn black() -> (c: Color)
        ensures
            c == (Color { b: 0, g: 0, r: 0 }),
    {
        Color::rgb(0, 0, 0)
    }

    /// Red.
    pub fn red() -> (c: Color)
        ensures
            c == (Color { b: 0, g: 0, r: 255 }),
    {
        Color::rgb(255, 0, 0)
    }

    /// Green.
    pub fn green() -> (c: Color)
        ensures
            c == (Color { b: 0, g: 255, r: 0 }),
    {
        Color::rgb(0, 255, 0)
    }

    /// Blue.
    pub fn blue() -> (c: Color)
        ensures
            c == (Color { b: 255, g: 0, r: 0 }),
    {
        Color::rgb(0, 0, 255)
    }

    /// Cyan.
    pub fn cyan() -> (c: Color)
        ensures
            c == (Color { b: 255, g: 255, r: 0 }),
    {
        Color::rgb(0, 255, 255)
    }

    /// Magenta.
    pub fn magenta() -> (c: Color)
        ensures
            c == (Color { b: 255, g: 0, r: 255 }),
    {
        Color::rgb(255, 0, 255)
    }

    /// Yellow.
    pub fn yellow() -> (c: Color)
        ensures
            c == (Color { b: 0, g: 255, r: 255 }),
    {
        Color::rgb(255, 255, 0)
    }

    /// The pixel value of the colour: red in bits 16 to 23, green in bits 8
    /// to 15 and blue in bits 0 to 7.
    pub fn as_u32(self) -> (v: u32)
        ensures
            v == self.r * 0x1_0000 + self.g * 0x100 + self.b,
    {
        let r = self.r as u32;
        let g = self.g as u32;
        let b = self.b as u32;
        assert((r << 16) | (g << 8) | b == r * 0x1_0000 + g * 0x100 + b) by (bit_vector)
            requires
                r < 256,
                g < 256,
                b < 256,
        ;
        (r << 16) | (g << 8) | b
    }

    /// `self` drawn with opacity `alpha` (out of 255) over `other`, channel by channel.
    pub fn blend(self, other: Color, alpha: u8) -> (c: Color)
        ensures
            c.r == blend_channel(self.r, other.r, alpha),
            c.g == blend_channel(self.g, other.g, alpha),
            c.b == blend_channel(self.b, other.b, alpha),
    {
        let alpha = alpha as u32;
        let inv_alpha = 255 - alpha;
        Color {
            r: blend_u32(self.r as u32, other.r as u32, alpha, inv_alpha),
            g: blend_u32(self.g as u32, other.g as u32, alpha, inv_alpha),
            b: blend_u32(self.b as u32, other.b as u32, alpha, inv_alpha),
        }
    }
}

/// One channel of a blend, on `u32`.
fn blend_u32(top: u32, bottom: u32, alpha: u32, inv_alpha: u32) -> (c: u8)
    requires
        top < 256,
        bottom < 256,
        alpha < 256,
        inv_alpha == 255 - alpha,
    ensures
        c == blend_channel(top as u8, bottom as u8, alpha as u8),
{
    assert(bottom * inv_alpha + top * alpha <= 255 * 255) by (nonlinear_arith)
        requires
            top < 256,
            bottom < 256,
            alpha < 256,
            inv_alpha == 255 - alpha,
    ;
    let sum = bottom * inv_alpha + top * alpha;
    assert(sum / 255 <= 255) by (nonlinear_arith)
        requires
            sum <= 255 * 255,
    ;
    (sum / 255) as u8
}

/// Drawing with full opacity gives the top colour, with none the bottom one.
pub proof fn lemma_blend_extremes(top: u8, bottom: u8)
    ensures
        blend_channel(top, bottom, 255) == top,
        blend_channel(top, bottom, 0) == bottom,
{
    assert((bottom * 0 + top * 255) / 255 == top) by (nonlinear_arith);
    assert((bottom * 255 + top * 0) / 255 == bottom) by (nonlinear_arith);
}

/// A blended channel lies between the two channels it mixes, whatever the
/// opacity: nothing overflows or wraps.
pub proof fn lemma_blend_between(top: u8, bottom: u8, alpha: u8)
    ensures
        (if top <= bottom { top } else { bottom }) <= blend_channel(top, bottom, alpha),
        blend_channel(top, bottom, alpha) <= (if top <= bottom { bottom } else { top }),
{
    let lo: int = if top <= bottom { top as int } else { bottom as int };
    let hi: int = if top <= bottom { bottom as int } else { top as int };
    let a = alpha as int;
    let sum = bottom * (255 - a) + top * a;
    assert(lo * 255 <= sum <= hi * 255) by (nonlinear_arith)
        requires
            lo <= top <= hi,
            lo <= bottom <= hi,
            0 <= a <= 255,
            sum == bottom * (255 - a) + top * a,
    ;
    assert(lo <= sum / 255 <= hi) by (nonlinear_arith)
        requires
            lo * 255 <= sum <= hi * 255,
    ;
}

/// Distinct colours have distinct pixel values.
pub proof fn lemma_pixel_value_injective(c1: Color, c2: Color)
    requires
        c1.r * 0x1_0000 + c1.g * 0x100 + c1.b == c2.r * 0x1_0000 + c2.g * 0x100 + c2.b,
    ensures
        c1 == c2,
{
}

} // verus!
