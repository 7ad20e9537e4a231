//! RGB colors for the pixel buffer.

use vstd::prelude::*;
use vstd::arithmetic::div_mod::lemma_div_is_ordered;

verus! {

/// The sprite transparency sentinel, as a packed `0xRRGGBB` value: pixels
/// of exactly this color are skipped when a billboard is composited.
pub const TRANSPARENT_RGB: u32 = 0xFFFFFF;

/// An RGB color sample.
#[derive(Clone, Copy, PartialEq, Eq, Structural, Debug)]
pub struct Color {
    pub r: u8,
    pub g: u8,
    pub b: u8,
}

/// A color channel scaled by the fraction `num / den` and clamped to the
/// channel range; a non-positive factor darkens to zero.
pub open spec fn scale_channel(c: int, num: int, den: int) -> int {
    let v = (c * num) / den;
    if v < 0 {
        0
    } else if v > 255 {
        255
    } else {
        v
    }
}

impl Color {
    /// The packed `0xRRGGBB` value of this color.
    pub open spec fn to_u32_spec(self) -> int {
        self.r * 0x10000 + self.g * 0x100 + self.b
    }

    /// The color a packed `0xRRGGBB` value denotes; bits above the low 24
    /// are ignored.
    pub open spec fn from_hex_spec(v: int) -> Color {
        Color {
            r: (v / 0x10000 % 0x100) as u8,
            g: (v / 0x100 % 0x100) as u8,
            b: (v % 0x100) as u8,
        }
    }

    /// Unpacks a `0xRRGGBB` value; bits above the low 24 are ignored.
    pub fn from_hex(v: u32) -> (c: Color)
        ensures
            c == Color::from_hex_spec(v as int),
            c.r == v as int / 0x10000 % 0x100,
            c.g == v as int / 0x100 % 0x100,
            c.b == v as int % 0x100,
    {
        Color { r: (v / 0x10000 % 0x100) as u8, g: (v / 0x100 % 0x100) as u8, b: (v % 0x100) as u8 }
    }

    /// Packs the channels back into a `0xRRGGBB` value.
    pub fn to_u32(&self) -> (v: u32)
        ensures
            v == self.to_u32_spec(),
            v <= TRANSPARENT_RGB,
    {
        self.r as u32 * 0x10000 + self.g as u32 * 0x100 + self.b as u32
    }

    /// The color with every channel scaled by `num / den` and clamped.
    pub open spec fn scaled_spec(self, num: int, den: int) -> Color {
        Color {
            r: scale_channel(self.r as int, num, den) as u8,
            g: scale_channel(self.g as int, num, den) as u8,
            b: scale_channel(self.b as int, num, den) as u8,
        }
    }

    /// Scales every channel by `num / den`, clamping to the channel range:
    /// the cosmetic floor/ceiling gradient of the first-person view.
    pub fn scaled(&self, num: i64, den: i64) -> (c: Color)
        requires
            0 < den <= 0x10000,
            -0x10000 <= num <= 0x10000,
        ensures
            c == self.scaled_spec(num as int, den as int),
            c.r == scale_channel(self.r as int, num as int, den as int),
            c.g == scale_channel(self.g as int, num as int, den as int),
            c.b == scale_channel(self.b as int, num as int, den as int),
    {
        Color {
            r: scale_one(self.r, num, den),
            g: scale_one(self.g, num, den),
            b: scale_one(self.b, num, den),
        }
    }
}

fn scale_one(c: u8, num: i64, den: i64) -> (s: u8)
    requires
        0 < den <= 0x10000,
        -0x10000 <= num <= 0x10000,
    ensures
        s == scale_channel(c as int, num as int, den as int),
{
    if num <= 0 {
        proof {
            assert(c as int * num as int <= 0) by (nonlinear_arith)
                requires 0 <= c as int && num as int <= 0;
            lemma_div_is_ordered(c as int * num as int, 0, den as int);
        }
        0
    } else {
        proof {
            assert(0 <= c as int * num as int <= 255 * 0x10000) by (nonlinear_arith)
                requires 0 <= c as int <= 255 && 0 < num as int <= 0x10000;
        }
        let v: i64 = c as i64 * num / den;
        proof {
            lemma_div_is_ordered(0, c as int * num as int, den as int);
        }
        if v > 255 {
            255
        } else {
            v as u8
        }
    }
}

} // verus!
