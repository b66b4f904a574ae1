use vstd::prelude::*;
use crate::vertex::Vec3i;

verus! {

/// One rasterized pixel: its position, its shading intensity (fixed point,
/// `INTENSITY_ONE` for 1.0), its interpolated depth and its interpolated
/// model-space position.
#[derive(Clone, Copy, Debug, PartialEq, Eq, Structural)]
pub struct Fragment {
    pub x: i32,
    pub y: i32,
    pub intensity: i32,
    pub depth: i64,
    pub vertex_position: Vec3i,
}

impl Fragment {
    pub fn new(x: i32, y: i32, intensity: i32, depth: i64, vertex_position: Vec3i) -> (f: Fragment)
        ensures
            f == (Fragment { x, y, intensity, depth, vertex_position }),
    {
        Fragment { x, y, intensity, depth, vertex_position }
    }
}

} // verus!
