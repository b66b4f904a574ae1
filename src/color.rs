use vstd::prelude::*;

verus! {

/// Fixed-point scale of a shading intensity: `INTENSITY_ONE` stands for 1.0.
pub const INTENSITY_ONE: i32 = 256;

/// A color with three 8-bit channels.
#[derive(Clone, Copy, Debug, PartialEq, Eq, Structural)]
pub struct Color {
    pub r: u8,
    pub g: u8,
    pub b: u8,
}

/// The packed form `0xRRGGBB` of three channels.
pub open spec fn packed(r: u8, g: u8, b: u8) -> int {
    r * 65536 + g * 256 + b
}

/// A channel scaled by the fixed-point `intensity` (rounded down), then clamped
/// to `0..=255`.
pub open spec fn scale_channel(c: u8, intensity: int) -> int {
    let v = (c * intensity) / (INTENSITY_ONE as int);
    if v < 0 {
        0
    } else if v > 255 {
        255
    } else {
        v
    }
}

impl Color {
    pub fn new(r: u8, g: u8, b: u8) -> (c: Color)
        ensures
            c.r == r,
            c.g == g,
            c.b == b,
    {
        Color { r, g, b }
    }

    pub open spec fn hex(self) -> int {
        packed(self.r, self.g, self.b)
    }

    /// Each channel scaled by `intensity` and clamped.
    pub open spec fn scaled(self, intensity: int) -> Color {
        Color {
            r: scale_channel(self.r, intensity) as u8,
            g: scale_channel(self.g, intensity) as u8,
            b: scale_channel(self.b, intensity) as u8,
        }
    }

    /// The color packed as `0xRRGGBB`.
    pub fn to_hex(&self) -> (h: u32)
        ensures
            h == self.hex(),
    {
        (self.r as u32) * 65536 + (self.g as u32) * 256 + (self.b as u32)
    }

    /// Each channel multiplied by `intensity / INTENSITY_ONE` and clamped to
    /// `0..=255`; a negative intensity gives black.
    pub fn scale(&self, intensity: i32) -> (c: Color)
        ensures
            c.r == scale_channel(self.r, intensity as int),
            c.g == scale_channel(self.g, intensity as int),
            c.b == scale_channel(self.b, intensity as int),
            c == self.scaled(intensity as int),
    {
        Color {
            r: scale_u8(self.r, intensity),
            g: scale_u8(self.g, intensity),
            b: scale_u8(self.b, intensity),
        }
    }
}

fn scale_u8(c: u8, intensity: i32) -> (r: u8)
    ensures
        r == scale_channel(c, intensity as int),
{
    if intensity <= 0 {
        assert((c * intensity) <= 0) by (nonlinear_arith)
            requires
                intensity <= 0,
                c >= 0,
        ;
        0
    } else {
        assert((c as u64) * (intensity as u64) <= 255 * 0x7fff_ffff) by (nonlinear_arith)
            requires
                c <= 255,
                0 < intensity <= 0x7fff_ffff,
        ;
        let p: u64 = (c as u64) * (intensity as u64);
        let v: u64 = p / 256;
        if v > 255 {
            255
        } else {
            v as u8
        }
    }
}

} // verus!
