//! Packed-pixel colors.
//!
//! A [`Color`] is one linear-RGB sample with 8-bit channels. The display
//! takes one packed 32-bit value per pixel, laid out as
//! `alpha << 24 | red << 16 | green << 8 | blue` with alpha fixed at 255;
//! [`ColorEncode::encode`] produces that value. Raw channel values coming out
//! of the gradient arithmetic are clamped into `0..=255` before packing, and
//! clamping never wraps.

use vstd::prelude::*;

verus! {

/// One color with 8-bit red, green and blue channels.
#[derive(Clone, Copy, PartialEq, Eq, Structural, Debug)]
pub struct Color {
    pub red: u8,
    pub green: u8,
    pub blue: u8,
}

/// The packed pixel for the given channels: opaque alpha, then red, green
/// and blue, eight bits each.
pub open spec fn packed(r: u8, g: u8, b: u8) -> u32 {
    0xFF00_0000u32 | ((r as u32) << 16) | ((g as u32) << 8) | (b as u32)
}

/// The red channel of a packed pixel.
pub open spec fn red_spec(p: u32) -> u8 {
    ((p >> 16) & 0xFF) as u8
}

/// The green channel of a packed pixel.
pub open spec fn green_spec(p: u32) -> u8 {
    ((p >> 8) & 0xFF) as u8
}

/// The blue channel of a packed pixel.
pub open spec fn blue_spec(p: u32) -> u8 {
    (p & 0xFF) as u8
}

/// A raw channel value forced into `0..=255`.
pub open spec fn clamp_spec(v: int) -> u8 {
    if v < 0 {
        0
    } else if v > 255 {
        255
    } else {
        v as u8
    }
}

/// Types that can render themselves as one packed display pixel.
pub trait ColorEncode {
    /// The packed pixel this value stands for.
    spec fn encoded(&self) -> u32;

    /// Packs the value into a 32-bit display pixel.
    fn encode(&self) -> (p: u32)
        ensures
            p == self.encoded(),
    ;
}

impl ColorEncode for Color {
    open spec fn encoded(&self) -> u32 {
        packed(self.red, self.green, self.blue)
    }

    fn encode(&self) -> (p: u32) {
        let r: u32 = self.red as u32;
        let g: u32 = self.green as u32;
        let b: u32 = self.blue as u32;
        0xFF00_0000u32 | (r << 16) | (g << 8) | b
    }
}

/// Clamps a raw channel value into `0..=255`.
pub fn clamp_channel(v: i64) -> (r: u8)
    ensures
        r == clamp_spec(v as int),
{
    if v < 0 {
        0
    } else if v > 255 {
        255
    } else {
        v as u8
    }
}

/// Packing is lossless: each channel of the packed pixel reads back as the
/// channel that went in, and the alpha byte is 255.
pub proof fn lemma_pack_unpack(r: u8, g: u8, b: u8)
    ensures
        red_spec(packed(r, g, b)) == r,
        green_spec(packed(r, g, b)) == g,
        blue_spec(packed(r, g, b)) == b,
        packed(r, g, b) >> 24 == 255,
{
    lemma_pack_unpack_bv(r as u32, g as u32, b as u32);
}

proof fn lemma_pack_unpack_bv(r: u32, g: u32, b: u32) by (bit_vector)
    requires
        r < 256,
        g < 256,
        b < 256,
    ensures
        ((0xFF00_0000u32 | (r << 16) | (g << 8) | b) >> 16) & 0xFF == r,
        ((0xFF00_0000u32 | (r << 16) | (g << 8) | b) >> 8) & 0xFF == g,
        (0xFF00_0000u32 | (r << 16) | (g << 8) | b) & 0xFF == b,
        (0xFF00_0000u32 | (r << 16) | (g << 8) | b) >> 24 == 255,
{
}

/// The bit layout agrees with the arithmetic reading of the packed pixel:
/// `255 * 2^24 + red * 2^16 + green * 2^8 + blue`.
pub proof fn lemma_packed_arithmetic(r: u8, g: u8, b: u8)
    ensures
        packed(r, g, b) == 0xFF00_0000 + (r as int) * 0x1_0000 + (g as int) * 0x100 + (b as int),
{
    lemma_packed_arithmetic_bv(r as u32, g as u32, b as u32);
}

proof fn lemma_packed_arithmetic_bv(r: u32, g: u32, b: u32) by (bit_vector)
    requires
        r < 256,
        g < 256,
        b < 256,
    ensures
        (0xFF00_0000u32 | (r << 16) | (g << 8) | b) == 0xFF00_0000 + r * 0x1_0000 + g * 0x100 + b,
{
}

/// Law: color encoding is idempotent under re-clamping. Clamp any raw
/// channel values and pack them; decoding the packed pixel, clamping again
/// and re-encoding yields the very same packed value.
pub proof fn lemma_encode_reclamp_idempotent(r: int, g: int, b: int)
    ensures
        ({
            let p = packed(clamp_spec(r), clamp_spec(g), clamp_spec(b));
            packed(
                clamp_spec(red_spec(p) as int),
                clamp_spec(green_spec(p) as int),
                clamp_spec(blue_spec(p) as int),
            ) == p
        }),
{
    let cr = clamp_spec(r);
    let cg = clamp_spec(g);
    let cb = clamp_spec(b);
    lemma_pack_unpack(cr, cg, cb);
}

} // verus!
