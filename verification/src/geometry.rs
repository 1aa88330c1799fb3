//! Plain integer geometry: vectors, rotations, transforms and colors.
//!
//! Linear quantities are stored in thousandths of a world unit; rotation
//! components and color channels are likewise fixed-point integers. The
//! library never computes with rotations, scales or colors — they are carried
//! through spawning and serialization unchanged — so the only requirement is
//! that each scalar stays within [`SCALAR_BOUND`], which keeps every sum and
//! doubling in the geometry code free of overflow.

use vstd::prelude::*;

verus! {

/// Every serialized scalar is kept within this magnitude.
pub const SCALAR_BOUND: i64 = 0x2000_0000_0000_0000;

/// Whether a scalar is within the magnitude the content format admits.
pub open spec fn scalar_ok(v: int) -> bool {
    -SCALAR_BOUND <= v <= SCALAR_BOUND
}

/// A point or direction, in thousandths of a world unit.
#[derive(Clone, Copy, PartialEq, Eq, Structural, Debug)]
pub struct Vec3 {
    pub x: i64,
    pub y: i64,
    pub z: i64,
}

/// A rotation, stored as four raw quaternion components.
#[derive(Clone, Copy, PartialEq, Eq, Structural, Debug)]
pub struct Quat {
    pub x: i64,
    pub y: i64,
    pub z: i64,
    pub w: i64,
}

/// Position, rotation and scale of one piece of geometry.
#[derive(Clone, Copy, PartialEq, Eq, Structural, Debug)]
pub struct Transform {
    pub translation: Vec3,
    pub rotation: Quat,
    pub scale: Vec3,
}

/// An RGBA color, each channel in thousandths.
#[derive(Clone, Copy, PartialEq, Eq, Structural, Debug)]
pub struct Color {
    pub r: i64,
    pub g: i64,
    pub b: i64,
    pub a: i64,
}

pub open spec fn vec3_ok(v: Vec3) -> bool {
    scalar_ok(v.x as int) && scalar_ok(v.y as int) && scalar_ok(v.z as int)
}

pub open spec fn quat_ok(q: Quat) -> bool {
    scalar_ok(q.x as int) && scalar_ok(q.y as int) && scalar_ok(q.z as int) && scalar_ok(q.w as int)
}

pub open spec fn transform_ok(t: Transform) -> bool {
    vec3_ok(t.translation) && quat_ok(t.rotation) && vec3_ok(t.scale)
}

pub open spec fn color_ok(c: Color) -> bool {
    scalar_ok(c.r as int) && scalar_ok(c.g as int) && scalar_ok(c.b as int) && scalar_ok(c.a as int)
}

impl Vec3 {
    /// The origin.
    pub fn zero() -> (v: Vec3)
        ensures
            v == (Vec3 { x: 0, y: 0, z: 0 }),
    {
        Vec3 { x: 0, y: 0, z: 0 }
    }
}

impl Quat {
    /// The identity rotation, in unit thousandths.
    pub fn identity() -> (q: Quat)
        ensures
            q == (Quat { x: 0, y: 0, z: 0, w: 1000 }),
    {
        Quat { x: 0, y: 0, z: 0, w: 1000 }
    }
}

impl Transform {
    /// The identity transform: origin, no rotation, unit scale.
    pub fn identity() -> (t: Transform)
        ensures
            t == spec_transform_identity(),
    {
        Transform {
            translation: Vec3 { x: 0, y: 0, z: 0 },
            rotation: Quat { x: 0, y: 0, z: 0, w: 1000 },
            scale: Vec3 { x: 1000, y: 1000, z: 1000 },
        }
    }

    /// A transform translated to `(x, y, z)`, with no rotation and unit scale.
    pub fn from_xyz(x: i64, y: i64, z: i64) -> (t: Transform)
        ensures
            t.translation == (Vec3 { x, y, z }),
            t.rotation == spec_transform_identity().rotation,
            t.scale == spec_transform_identity().scale,
    {
        Transform {
            translation: Vec3 { x, y, z },
            rotation: Quat { x: 0, y: 0, z: 0, w: 1000 },
            scale: Vec3 { x: 1000, y: 1000, z: 1000 },
        }
    }
}

pub open spec fn spec_transform_identity() -> Transform {
    Transform {
        translation: Vec3 { x: 0, y: 0, z: 0 },
        rotation: Quat { x: 0, y: 0, z: 0, w: 1000 },
        scale: Vec3 { x: 1000, y: 1000, z: 1000 },
    }
}

impl Color {
    /// Opaque white.
    pub fn white() -> (c: Color)
        ensures
            c == (Color { r: 1000, g: 1000, b: 1000, a: 1000 }),
    {
        Color { r: 1000, g: 1000, b: 1000, a: 1000 }
    }
}

} // verus!
