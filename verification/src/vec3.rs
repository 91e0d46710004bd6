//! Triples of coordinate codes.

use crate::code::{negate, spec_negate, NEAR_ZERO, ONE};
use vstd::prelude::*;

verus! {

/// Three coordinate codes, one per axis. Used for points and for the corners
/// of bounding boxes.
#[derive(Clone, Copy, Debug, PartialEq, Eq, Structural)]
pub struct Vec3 {
    pub x: i64,
    pub y: i64,
    pub z: i64,
}

pub type Point3 = Vec3;

pub type Color = Vec3;

impl Vec3 {
    /// The component along `axis` (0, 1 or 2 for x, y, z).
    pub open spec fn axis(self, axis: int) -> i64 {
        if axis == 0 {
            self.x
        } else if axis == 1 {
            self.y
        } else {
            self.z
        }
    }

    /// Componentwise `<=`.
    pub open spec fn le(self, other: Vec3) -> bool {
        self.x <= other.x && self.y <= other.y && self.z <= other.z
    }

    pub fn new(x: i64, y: i64, z: i64) -> (r: Self)
        ensures
            r == (Vec3 { x, y, z }),
    {
        Vec3 { x, y, z }
    }

    /// The vector whose three components are one.
    pub fn ones() -> (r: Self)
        ensures
            r == (Vec3 { x: ONE, y: ONE, z: ONE }),
    {
        Vec3 { x: ONE, y: ONE, z: ONE }
    }

    /// The point whose three codes are zero.
    pub fn zero() -> (r: Self)
        ensures
            r == (Vec3 { x: 0, y: 0, z: 0 }),
    {
        Vec3 { x: 0, y: 0, z: 0 }
    }

    pub fn x(&self) -> (r: i64)
        ensures
            r == self.x,
    {
        self.x
    }

    pub fn y(&self) -> (r: i64)
        ensures
            r == self.y,
    {
        self.y
    }

    pub fn z(&self) -> (r: i64)
        ensures
            r == self.z,
    {
        self.z
    }

    /// Every component lies strictly between the bound `NEAR_ZERO` and its
    /// negative.
    pub open spec fn spec_near_zero(self) -> bool {
        &&& spec_negate(NEAR_ZERO) < self.x < NEAR_ZERO
        &&& spec_negate(NEAR_ZERO) < self.y < NEAR_ZERO
        &&& spec_negate(NEAR_ZERO) < self.z < NEAR_ZERO
    }

    /// Whether the vector is close to zero in all dimensions.
    pub fn near_zero(&self) -> (r: bool)
        ensures
            r == self.spec_near_zero(),
    {
        let s = NEAR_ZERO;
        let lo = negate(s);
        (lo < self.x) && (self.x < s) && (lo < self.y) && (self.y < s) && (lo < self.z) && (self.z
            < s)
    }

    /// The component along axis `idx`; only 0, 1 and 2 name an axis.
    pub fn index(&self, idx: usize) -> (r: i64)
        requires
            idx < 3,
        ensures
            r == self.axis(idx as int),
    {
        if idx == 0 {
            self.x
        } else if idx == 1 {
            self.y
        } else {
            self.z
        }
    }
}

} // verus!
