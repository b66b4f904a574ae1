use vstd::prelude::*;
use crate::color::Color;
use crate::fragment::Fragment;

verus! {

/// The width of one stripe along model-space x, in fixed point: half a unit.
pub const STRIPE_WIDTH: i32 = 512;

/// The index of the stripe that model-space `x` falls in: `x / STRIPE_WIDTH`
/// rounded toward zero.
pub open spec fn stripe_index(x: int) -> int {
    if x >= 0 {
        x / (STRIPE_WIDTH as int)
    } else {
        -((-x) / (STRIPE_WIDTH as int))
    }
}

/// Red on stripes of even index, blue on the others.
pub open spec fn stripe_color(x: int) -> Color {
    if stripe_index(x) % 2 == 0 {
        Color { r: 255, g: 0, b: 0 }
    } else {
        Color { r: 0, g: 0, b: 255 }
    }
}

/// The color of a fragment: its stripe color scaled by its intensity.
pub open spec fn shade(f: Fragment) -> Color {
    stripe_color(f.vertex_position.x as int).scaled(f.intensity as int)
}

/// How fragments are colored: red and blue stripes across model-space x, or
/// one flat base color; either is scaled by the fragment's intensity.
#[derive(Clone, Copy, Debug, PartialEq, Eq, Structural)]
pub enum Shading {
    Stripes,
    Flat(Color),
}

/// The color that `policy` gives a fragment.
pub open spec fn shade_with(policy: Shading, f: Fragment) -> Color {
    match policy {
        Shading::Stripes => shade(f),
        Shading::Flat(base) => base.scaled(f.intensity as int),
    }
}

/// Colors a fragment by the chosen policy.
pub fn shade_fragment(policy: &Shading, fragment: &Fragment) -> (c: Color)
    ensures
        c == shade_with(*policy, *fragment),
{
    match policy {
        Shading::Stripes => fragment_shader(fragment),
        Shading::Flat(base) => base.scale(fragment.intensity),
    }
}

/// Shades a fragment with red and blue stripes across model-space x, scaled by
/// the fragment's intensity.
pub fn fragment_shader(fragment: &Fragment) -> (c: Color)
    ensures
        c == shade(*fragment),
{
    let x: i64 = fragment.vertex_position.x as i64;
    let magnitude: u64 = if x < 0 {
        (-x) as u64
    } else {
        x as u64
    };
    let index: u64 = magnitude / 512;
    let base = if index % 2 == 0 {
        Color::new(255, 0, 0)
    } else {
        Color::new(0, 0, 255)
    };
    proof {
        let xi = fragment.vertex_position.x as int;
        if xi < 0 {
            assert(stripe_index(xi) == -(index as int));
            assert((-(index as int)) % 2 == 0 <==> (index as int) % 2 == 0);
        }
    }
    base.scale(fragment.intensity)
}

} // verus!
