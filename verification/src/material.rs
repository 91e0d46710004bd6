//! The decisions of the materials: whether a surface scatters a ray, and
//! which way.

use crate::code::ONE;
use crate::vec3::{Color, Vec3};
use vstd::prelude::*;

verus! {

/// The direction in which a diffuse surface scatters: the sum of the
/// normal and a random unit vector, or the normal itself where that sum is
/// close to zero.
pub open spec fn spec_scatter_direction(sum: Vec3, normal: Vec3) -> Vec3 {
    if sum.spec_near_zero() {
        normal
    } else {
        sum
    }
}

/// A diffuse surface with the texture `albedo`.
#[derive(Clone, Copy, Debug, PartialEq, Eq, Structural)]
pub struct Lambertian {
    pub albedo: usize,
}

impl Lambertian {
    pub fn new(a: usize) -> (r: Self)
        ensures
            r.albedo == a,
    {
        Lambertian { albedo: a }
    }

    /// The direction of the scattered ray, given the sum of the normal and
    /// a random unit vector. A diffuse surface always scatters, and never
    /// along a vector of no length: with a normal that is not close to
    /// zero the direction is not close to zero either.
    pub fn scatter(&self, sum: Vec3, normal: Vec3) -> (r: Vec3)
        ensures
            r == spec_scatter_direction(sum, normal),
            !normal.spec_near_zero() ==> !r.spec_near_zero() && r != (Vec3 { x: 0, y: 0, z: 0 }),
    {
        if sum.near_zero() {
            normal
        } else {
            sum
        }
    }
}

/// A diffuse surface never scatters along a vector of no length: with a
/// normal that is not close to zero, the direction is not close to zero,
/// and so is not the zero vector.
pub proof fn lemma_scatter_direction_has_length(sum: Vec3, normal: Vec3)
    requires
        !normal.spec_near_zero(),
    ensures
        !spec_scatter_direction(sum, normal).spec_near_zero(),
        spec_scatter_direction(sum, normal) != (Vec3 { x: 0, y: 0, z: 0 }),
{
}

/// A reflecting surface: its colour and how far it blurs the reflection.
#[derive(Clone, Copy, Debug, PartialEq, Eq, Structural)]
pub struct Metal {
    pub albedo: Color,
    pub fuzz: i64,
}

impl Metal {
    /// A metal of the colour `c`. The blur is `f`, held at or below one.
    pub fn new(c: &Color, f: &i64) -> (r: Self)
        ensures
            r.albedo == *c,
            r.fuzz == if *f < ONE {
                *f
            } else {
                ONE
            },
    {
        let f0 = if *f < ONE {
            *f
        } else {
            ONE
        };
        Metal { albedo: *c, fuzz: f0 }
    }

    /// The attenuation of the reflected ray, given the dot product of its
    /// direction with the normal: the ray is absorbed unless it leaves the
    /// surface, that is unless the product is above zero.
    pub fn scatter(&self, dot: i64) -> (r: Option<Color>)
        ensures
            r == if dot > 0 {
                Some(self.albedo)
            } else {
                None::<Color>
            },
    {
        if dot > 0 {
            Some(self.albedo)
        } else {
            None
        }
    }
}

/// What a transparent surface does with a ray.
#[derive(Clone, Copy, Debug, PartialEq, Eq, Structural)]
pub enum Bounce {
    Reflect,
    Refract,
}

/// The ray is reflected where no refraction is possible (the bent sine
/// lies above one) or the reflectance exceeds the draw, and else
/// refracted.
pub open spec fn spec_bounce(bent_sine: i64, reflectance: i64, draw: i64) -> Bounce {
    if bent_sine > ONE || reflectance > draw {
        Bounce::Reflect
    } else {
        Bounce::Refract
    }
}

/// A transparent surface of a given index of refraction.
#[derive(Clone, Copy, Debug, PartialEq, Eq, Structural)]
pub struct Dielectric {
    pub ir: i64,
}

impl Dielectric {
    pub fn new(index_of_refraction: i64) -> (r: Self)
        ensures
            r.ir == index_of_refraction,
    {
        Dielectric { ir: index_of_refraction }
    }

    /// Whether refraction is impossible, given the sine of the angle of
    /// incidence times the refraction ratio: it is where that lies above
    /// one. The ray is then reflected, and nothing needs to be drawn.
    pub fn cannot_refract(bent_sine: i64) -> (r: bool)
        ensures
            r == (bent_sine > ONE),
            r ==> forall|reflectance: i64, draw: i64|
                #[trigger] spec_bounce(bent_sine, reflectance, draw) == Bounce::Reflect,
    {
        bent_sine > ONE
    }

    /// Whether the ray is reflected or refracted. `bent_sine` is the sine
    /// of the angle of incidence times the refraction ratio: above one no
    /// refraction is possible. Else the ray is reflected where the
    /// reflectance exceeds the random draw.
    pub fn scatter(bent_sine: i64, reflectance: i64, draw: i64) -> (r: Bounce)
        ensures
            r == spec_bounce(bent_sine, reflectance, draw),
    {
        if bent_sine > ONE || reflectance > draw {
            Bounce::Reflect
        } else {
            Bounce::Refract
        }
    }
}

/// A ray that meets a transparent surface head-on, with the same index of
/// refraction on both sides, is refracted whatever is drawn: the bent sine
/// and the reflectance are both zero there, and no draw lies below zero.
pub proof fn lemma_head_on_is_refracted(draw: i64)
    requires
        draw >= 0,
    ensures
        spec_bounce(0, 0, draw) == Bounce::Refract,
{
}

} // verus!
