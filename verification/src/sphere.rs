//! The decision at the end of a ray-sphere intersection.

use crate::hittable::{first_hits, Object};
use crate::vec3::Point3;
use vstd::prelude::*;

verus! {

/// `t` lies in the window from `t_min` to `t_max`, both ends included.
pub open spec fn in_window(t: i64, t_min: i64, t_max: i64) -> bool {
    t_min <= t <= t_max
}

/// Of the two places where a ray crosses a sphere, the one that counts as
/// the hit: the nearer one if it lies in the window, else the farther one
/// if that lies in the window, else none.
pub open spec fn spec_nearest_root(near: i64, far: i64, t_min: i64, t_max: i64) -> Option<i64> {
    if in_window(near, t_min, t_max) {
        Some(near)
    } else if in_window(far, t_min, t_max) {
        Some(far)
    } else {
        None
    }
}

/// Whether a ray misses a sphere altogether, given the discriminant of the
/// equation for its crossings: it does where the discriminant is below
/// zero.
pub fn misses(discriminant: i64) -> (r: bool)
    ensures
        r == (discriminant < 0),
{
    discriminant < 0
}

/// Picks the hit among the two crossings `near` and `far` of a ray with a
/// sphere.
pub fn nearest_root(near: i64, far: i64, t_min: i64, t_max: i64) -> (r: Option<i64>)
    ensures
        r == spec_nearest_root(near, far, t_min, t_max),
{
    let mut root = near;
    if root < t_min || t_max < root {
        root = far;
        if root < t_min || t_max < root {
            return None;
        }
    }
    Some(root)
}

/// What the equation for the crossings of a ray with a sphere gives: no
/// hit where the discriminant is below zero, else the choice among the two
/// crossings.
pub open spec fn spec_sphere_hit(
    discriminant: i64,
    near: i64,
    far: i64,
    t_min: i64,
    t_max: i64,
) -> Option<i64> {
    if discriminant < 0 {
        None
    } else {
        spec_nearest_root(near, far, t_min, t_max)
    }
}

/// A sphere: its centre, its radius and its material.
#[derive(Clone, Copy, Debug, PartialEq, Eq, Structural)]
pub struct Sphere {
    pub center: Point3,
    pub radius: i64,
    pub mat_ptr: usize,
}

impl Sphere {
    pub fn new(c: Point3, r: i64, m: usize) -> (s: Self)
        ensures
            s == (Sphere { center: c, radius: r, mat_ptr: m }),
    {
        Sphere { center: c, radius: r, mat_ptr: m }
    }

    /// The ray parameter at which a ray hits a sphere, given the
    /// discriminant of the equation for its crossings and the two
    /// crossings. A hit is one of the crossings and lies in the window.
    pub fn hit(discriminant: i64, near: i64, far: i64, t_min: i64, t_max: i64) -> (r: Option<i64>)
        ensures
            r == spec_sphere_hit(discriminant, near, far, t_min, t_max),
            r matches Some(t) ==> t_min <= t <= t_max && (t == near || t == far),
    {
        if misses(discriminant) {
            return None;
        }
        nearest_root(near, far, t_min, t_max)
    }
}

/// There is a hit exactly when one of the two crossings lies in the window,
/// and the hit is then one of the crossings and lies in the window.
pub proof fn lemma_nearest_root_is_a_crossing(near: i64, far: i64, t_min: i64, t_max: i64)
    ensures
        spec_nearest_root(near, far, t_min, t_max) is Some <==> in_window(near, t_min, t_max)
            || in_window(far, t_min, t_max),
        spec_nearest_root(near, far, t_min, t_max) matches Some(t) ==> (t == near || t == far)
            && in_window(t, t_min, t_max),
{
}

/// With the crossings in order, the choice reports first hits: it lies in
/// the window, stays the same in every narrower window that still holds it,
/// and a choice made in a narrower window is the choice in the wider one.
pub proof fn lemma_nearest_root_reports_first_hits(near: i64, far: i64)
    requires
        near <= far,
    ensures
        first_hits(|o: Object, a: i64, b: i64| spec_nearest_root(near, far, a, b)),
{
}

} // verus!
