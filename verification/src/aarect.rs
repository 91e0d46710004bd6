//! Axis-aligned rectangles: what they are made of, and the test that ends
//! their intersection with a ray.

use crate::hittable::{first_hits, Object};
use vstd::prelude::*;

verus! {

/// A rectangle in the plane `z = k`, from `x0` to `x1` and from `y0` to
/// `y1`, of the material `mp`.
#[derive(Clone, Copy, Debug, PartialEq, Eq, Structural)]
pub struct XyRect {
    pub mp: usize,
    pub x0: i64,
    pub x1: i64,
    pub y0: i64,
    pub y1: i64,
    pub k: i64,
}

/// A rectangle in the plane `y = k`, from `x0` to `x1` and from `z0` to
/// `z1`, of the material `mp`.
#[derive(Clone, Copy, Debug, PartialEq, Eq, Structural)]
pub struct XzRect {
    pub mp: usize,
    pub x0: i64,
    pub x1: i64,
    pub z0: i64,
    pub z1: i64,
    pub k: i64,
}

/// A rectangle in the plane `x = k`, from `y0` to `y1` and from `z0` to
/// `z1`, of the material `mp`.
#[derive(Clone, Copy, Debug, PartialEq, Eq, Structural)]
pub struct YzRect {
    pub mp: usize,
    pub y0: i64,
    pub y1: i64,
    pub z0: i64,
    pub z1: i64,
    pub k: i64,
}

/// A ray that meets the plane of a rectangle at the parameter `t`, in the
/// point `(a, b)` of that plane, hits the rectangle from `a0` to `a1` and
/// from `b0` to `b1` exactly when `t` lies in the window and the point lies
/// in the rectangle, edges included.
pub open spec fn spec_rect_hit(
    t: i64,
    a: i64,
    b: i64,
    a0: i64,
    a1: i64,
    b0: i64,
    b1: i64,
    t_min: i64,
    t_max: i64,
) -> bool {
    t_min <= t <= t_max && a0 <= a <= a1 && b0 <= b <= b1
}

fn rect_hit(
    t: i64,
    a: i64,
    b: i64,
    a0: i64,
    a1: i64,
    b0: i64,
    b1: i64,
    t_min: i64,
    t_max: i64,
) -> (r: bool)
    ensures
        r == spec_rect_hit(t, a, b, a0, a1, b0, b1, t_min, t_max),
{
    if t < t_min || t > t_max {
        return false;
    }
    if a < a0 || a > a1 || b < b0 || b > b1 {
        return false;
    }
    true
}

impl XyRect {
    pub fn new(x0: i64, x1: i64, y0: i64, y1: i64, k: i64, mat: usize) -> (r: Self)
        ensures
            r == (XyRect { mp: mat, x0, x1, y0, y1, k }),
    {
        XyRect { mp: mat, x0, x1, y0, y1, k }
    }

    /// Whether a ray that meets the plane at `t`, in the point `(x, y)`,
    /// hits the rectangle in the window from `t_min` to `t_max`.
    pub fn hit(&self, t: i64, x: i64, y: i64, t_min: i64, t_max: i64) -> (r: bool)
        ensures
            r == spec_rect_hit(t, x, y, self.x0, self.x1, self.y0, self.y1, t_min, t_max),
    {
        rect_hit(t, x, y, self.x0, self.x1, self.y0, self.y1, t_min, t_max)
    }
}

impl XzRect {
    pub fn new(x0: i64, x1: i64, z0: i64, z1: i64, k: i64, mat: usize) -> (r: Self)
        ensures
            r == (XzRect { mp: mat, x0, x1, z0, z1, k }),
    {
        XzRect { mp: mat, x0, x1, z0, z1, k }
    }

    /// Whether a ray that meets the plane at `t`, in the point `(x, z)`,
    /// hits the rectangle in the window from `t_min` to `t_max`.
    pub fn hit(&self, t: i64, x: i64, z: i64, t_min: i64, t_max: i64) -> (r: bool)
        ensures
            r == spec_rect_hit(t, x, z, self.x0, self.x1, self.z0, self.z1, t_min, t_max),
    {
        rect_hit(t, x, z, self.x0, self.x1, self.z0, self.z1, t_min, t_max)
    }
}

impl YzRect {
    pub fn new(y0: i64, y1: i64, z0: i64, z1: i64, k: i64, mat: usize) -> (r: Self)
        ensures
            r == (YzRect { mp: mat, y0, y1, z0, z1, k }),
    {
        YzRect { mp: mat, y0, y1, z0, z1, k }
    }

    /// Whether a ray that meets the plane at `t`, in the point `(y, z)`,
    /// hits the rectangle in the window from `t_min` to `t_max`.
    pub fn hit(&self, t: i64, y: i64, z: i64, t_min: i64, t_max: i64) -> (r: bool)
        ensures
            r == spec_rect_hit(t, y, z, self.y0, self.y1, self.z0, self.z1, t_min, t_max),
    {
        rect_hit(t, y, z, self.y0, self.y1, self.z0, self.z1, t_min, t_max)
    }
}

/// A rectangle reports first hits: a ray meets its plane once, so the hit,
/// if there is one, is the same in every window that holds it.
pub proof fn lemma_rect_reports_first_hits(
    t: i64,
    a: i64,
    b: i64,
    a0: i64,
    a1: i64,
    b0: i64,
    b1: i64,
)
    ensures
        first_hits(
            |o: Object, t_min: i64, t_max: i64|
                if spec_rect_hit(t, a, b, a0, a1, b0, b1, t_min, t_max) {
                    Some(t)
                } else {
                    None
                },
        ),
{
}

} // verus!
