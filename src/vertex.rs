use vstd::prelude::*;
use crate::color::Color;

verus! {

/// Fixed-point scale of model-space coordinates: `UNIT` stands for 1.0.
pub const UNIT: i32 = 1024;

/// A model-space position in fixed point (`UNIT` per unit).
#[derive(Clone, Copy, Debug, PartialEq, Eq, Structural)]
pub struct Vec3i {
    pub x: i32,
    pub y: i32,
    pub z: i32,
}

/// A surface normal in fixed point; only its direction matters.
#[derive(Clone, Copy, Debug, PartialEq, Eq, Structural)]
pub struct Normal {
    pub x: i16,
    pub y: i16,
    pub z: i16,
}

/// A position after the transform: pixel coordinates and a depth.
#[derive(Clone, Copy, Debug, PartialEq, Eq, Structural)]
pub struct ScreenPoint {
    pub x: i16,
    pub y: i16,
    pub z: i32,
}

/// A mesh vertex. `transformed_position` and `transformed_normal` are filled
/// in by the vertex transform; until then they hold zero and the normal.
#[derive(Clone, Copy, Debug)]
pub struct Vertex {
    pub position: Vec3i,
    pub normal: Normal,
    pub tex_coords: (i32, i32),
    pub color: Color,
    pub transformed_position: ScreenPoint,
    pub transformed_normal: Normal,
}

impl Vec3i {
    pub fn new(x: i32, y: i32, z: i32) -> (v: Vec3i)
        ensures
            v == (Vec3i { x, y, z }),
    {
        Vec3i { x, y, z }
    }
}

impl Normal {
    pub fn new(x: i16, y: i16, z: i16) -> (n: Normal)
        ensures
            n == (Normal { x, y, z }),
    {
        Normal { x, y, z }
    }
}

impl ScreenPoint {
    pub fn new(x: i16, y: i16, z: i32) -> (p: ScreenPoint)
        ensures
            p == (ScreenPoint { x, y, z }),
    {
        ScreenPoint { x, y, z }
    }
}

impl Vertex {
    /// A vertex that has not been transformed yet.
    pub fn new(position: Vec3i, normal: Normal, tex_coords: (i32, i32), color: Color) -> (v: Vertex)
        ensures
            v.position == position,
            v.normal == normal,
            v.tex_coords == tex_coords,
            v.color == color,
            v.transformed_position == (ScreenPoint { x: 0, y: 0, z: 0 }),
            v.transformed_normal == normal,
    {
        Vertex {
            position,
            normal,
            tex_coords,
            color,
            transformed_position: ScreenPoint { x: 0, y: 0, z: 0 },
            transformed_normal: normal,
        }
    }

    /// The same vertex with its screen position set.
    pub fn with_screen_position(&self, p: ScreenPoint) -> (v: Vertex)
        ensures
            v.position == self.position,
            v.normal == self.normal,
            v.tex_coords == self.tex_coords,
            v.color == self.color,
            v.transformed_position == p,
            v.transformed_normal == self.normal,
    {
        Vertex {
            position: self.position,
            normal: self.normal,
            tex_coords: self.tex_coords,
            color: self.color,
            transformed_position: p,
            transformed_normal: self.normal,
        }
    }
}

} // verus!
