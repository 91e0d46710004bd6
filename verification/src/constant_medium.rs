//! The stretch of a ray inside a participating medium.

use vstd::prelude::*;

verus! {

/// The stretch of the ray inside a medium that the ray enters at `t1` and
/// leaves at `t2`, cut to the window from `t_min` to `t_max`: the entry is
/// moved up to `t_min` and the exit down to `t_max`; if the entry then does
/// not lie before the exit nothing is left; else an entry behind the ray's
/// origin (a code below zero) is moved to the origin.
pub open spec fn spec_clip(t1: i64, t2: i64, t_min: i64, t_max: i64) -> Option<(i64, i64)> {
    let entry = if t1 < t_min {
        t_min
    } else {
        t1
    };
    let exit = if t2 > t_max {
        t_max
    } else {
        t2
    };
    if entry >= exit {
        None
    } else if entry < 0 {
        Some((0i64, exit))
    } else {
        Some((entry, exit))
    }
}

/// Cuts the stretch from `t1` to `t2` to the window from `t_min` to
/// `t_max`.
pub fn clip(t1: i64, t2: i64, t_min: i64, t_max: i64) -> (r: Option<(i64, i64)>)
    ensures
        r == spec_clip(t1, t2, t_min, t_max),
        r matches Some(s) ==> t_min <= s.1 <= t_max && s.1 <= t2 && (t_min >= 0 ==> t_min <= s.0
            < s.1),
{
    let mut entry = t1;
    let mut exit = t2;
    if entry < t_min {
        entry = t_min;
    }
    if exit > t_max {
        exit = t_max;
    }
    if entry >= exit {
        return None;
    }
    if entry < 0 {
        entry = 0;
    }
    Some((entry, exit))
}

/// Whether a ray is scattered inside the medium, given the length of its
/// way through the medium and the free path drawn for it: it passes
/// through untouched where the free path is the longer one.
pub fn scatters_inside(hit_distance: i64, distance_inside_boundary: i64) -> (r: bool)
    ensures
        r == !(hit_distance > distance_inside_boundary),
{
    !(hit_distance > distance_inside_boundary)
}

} // verus!
