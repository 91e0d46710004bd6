use raytracer::aabb::Aabb;
use raytracer::aarect::{XyRect, XzRect, YzRect};
use raytracer::box_object::{BoxObject, Side};
use raytracer::code::ONE;
use raytracer::constant_medium::{clip, scatters_inside};
use raytracer::hittable::front_face;
use raytracer::material::{Bounce, Dielectric, Lambertian, Metal};
use raytracer::texture::checker_is_odd;
use raytracer::integrator::{ray_color, Encounter, Radiance};
use raytracer::is_ci;
use raytracer::sphere::{misses, nearest_root, Sphere};
use raytracer::vec3::Vec3;

#[test]
fn is_ci_wants_the_exact_word() {
    assert!(is_ci(Some("true")));
    assert!(!is_ci(Some("True")));
    assert!(!is_ci(Some("true ")));
    assert!(!is_ci(Some("tru")));
    assert!(!is_ci(Some("1")));
    assert!(!is_ci(Some("")));
    assert!(!is_ci(Some("tr\u{fc}e")));
    assert!(!is_ci(None));
}

#[test]
fn nearest_root_prefers_the_near_crossing() {
    assert_eq!(nearest_root(3, 8, 0, 10), Some(3));
    assert_eq!(nearest_root(3, 8, 3, 10), Some(3));
    assert_eq!(nearest_root(3, 8, 0, 3), Some(3));
}

#[test]
fn nearest_root_falls_back_to_the_far_crossing() {
    assert_eq!(nearest_root(3, 8, 4, 10), Some(8));
    assert_eq!(nearest_root(-5, 8, 0, 8), Some(8));
    assert_eq!(nearest_root(3, 8, 8, 8), Some(8));
}

#[test]
fn nearest_root_with_no_crossing_in_the_window() {
    assert_eq!(nearest_root(3, 8, 4, 7), None);
    assert_eq!(nearest_root(3, 8, 9, 20), None);
    assert_eq!(nearest_root(3, 8, -4, 2), None);
    assert_eq!(nearest_root(3, 8, 10, 0), None);
}

#[test]
fn rectangles_keep_what_they_are_made_of() {
    let r = XyRect::new(1, 2, 3, 4, 5, 6);
    assert_eq!((r.x0, r.x1, r.y0, r.y1, r.k, r.mp), (1, 2, 3, 4, 5, 6));
    let r = XzRect::new(1, 2, 3, 4, 5, 6);
    assert_eq!((r.x0, r.x1, r.z0, r.z1, r.k, r.mp), (1, 2, 3, 4, 5, 6));
    let r = YzRect::new(1, 2, 3, 4, 5, 6);
    assert_eq!((r.y0, r.y1, r.z0, r.z1, r.k, r.mp), (1, 2, 3, 4, 5, 6));
}

#[test]
fn rectangle_hit_needs_window_and_bounds() {
    let r = XyRect::new(0, 10, 20, 30, 5, 0);
    assert!(r.hit(50, 5, 25, 0, 100));
    assert!(r.hit(0, 0, 20, 0, 100));
    assert!(r.hit(100, 10, 30, 0, 100));
    assert!(!r.hit(101, 5, 25, 0, 100));
    assert!(!r.hit(-1, 5, 25, 0, 100));
    assert!(!r.hit(50, -1, 25, 0, 100));
    assert!(!r.hit(50, 11, 25, 0, 100));
    assert!(!r.hit(50, 5, 19, 0, 100));
    assert!(!r.hit(50, 5, 31, 0, 100));
    let r = XzRect::new(0, 10, 20, 30, 5, 0);
    assert!(r.hit(50, 10, 20, 0, 100));
    assert!(!r.hit(50, 10, 31, 0, 100));
    let r = YzRect::new(0, 10, 20, 30, 5, 0);
    assert!(r.hit(50, 0, 30, 0, 100));
    assert!(!r.hit(50, 11, 30, 0, 100));
}

#[test]
fn box_has_six_faces_through_its_corners() {
    let lo = Vec3::new(1, 2, 3);
    let hi = Vec3::new(11, 12, 13);
    let b = BoxObject::new(lo, hi, 7);
    assert_eq!(b.box_min, lo);
    assert_eq!(b.box_max, hi);
    assert_eq!(
        b.sides,
        vec![
            Side::Xy(XyRect::new(1, 11, 2, 12, 13, 7)),
            Side::Xy(XyRect::new(1, 11, 2, 12, 3, 7)),
            Side::Xz(XzRect::new(1, 11, 3, 13, 12, 7)),
            Side::Xz(XzRect::new(1, 11, 3, 13, 2, 7)),
            Side::Yz(YzRect::new(2, 12, 3, 13, 11, 7)),
            Side::Yz(YzRect::new(2, 12, 3, 13, 1, 7)),
        ]
    );
    assert_eq!(b.bounding_box(), Some(Aabb::new(&lo, &hi)));
}

#[test]
fn clip_cuts_the_stretch_to_the_window() {
    assert_eq!(clip(5, 20, 1, 10), Some((5, 10)));
    assert_eq!(clip(-5, 20, 1, 10), Some((1, 10)));
    assert_eq!(clip(2, 8, 1, 10), Some((2, 8)));
}

#[test]
fn clip_rejects_an_empty_or_reversed_stretch() {
    assert_eq!(clip(5, 5, 1, 10), None);
    assert_eq!(clip(8, 2, 1, 10), None);
    assert_eq!(clip(20, 30, 1, 10), None);
    assert_eq!(clip(-30, -20, 1, 10), None);
}

#[test]
fn clip_moves_an_entry_behind_the_origin_to_it() {
    assert_eq!(clip(-5, 20, -10, 10), Some((0, 10)));
    assert_eq!(clip(-50, 20, -10, 10), Some((0, 10)));
    // the exit is not looked at again
    assert_eq!(clip(-5, -3, -10, 10), Some((0, -3)));
}

#[test]
fn ray_color_with_no_budget_is_black() {
    for met in [Encounter::Miss, Encounter::Absorbed, Encounter::Scattered] {
        assert_eq!(ray_color(0, met), Radiance::Black);
    }
}

#[test]
fn ray_color_by_what_the_ray_met() {
    assert_eq!(ray_color(50, Encounter::Miss), Radiance::Background);
    assert_eq!(ray_color(50, Encounter::Absorbed), Radiance::Emitted);
    assert_eq!(
        ray_color(50, Encounter::Scattered),
        Radiance::EmittedAndScattered { depth: 49 }
    );
    assert_eq!(
        ray_color(1, Encounter::Scattered),
        Radiance::EmittedAndScattered { depth: 0 }
    );
}

#[test]
fn a_path_ends_within_its_budget() {
    let mut depth = 50;
    let mut bounces = 0;
    loop {
        match ray_color(depth, Encounter::Scattered) {
            Radiance::EmittedAndScattered { depth: rest } => {
                depth = rest;
                bounces += 1;
            }
            Radiance::Black => break,
            other => panic!("unexpected {:?}", other),
        }
    }
    assert_eq!(bounces, 50);
}

#[test]
fn without_scattering_the_colour_is_background_or_emission() {
    for depth in 1..=50u8 {
        assert_eq!(ray_color(depth, Encounter::Miss), Radiance::Background);
        assert_eq!(ray_color(depth, Encounter::Absorbed), Radiance::Emitted);
    }
}

#[test]
fn front_face_unless_the_ray_runs_along_the_normal() {
    assert!(front_face(-5));
    assert!(front_face(0));
    assert!(!front_face(1));
}

#[test]
fn checker_is_odd_below_zero() {
    assert!(checker_is_odd(-1));
    assert!(!checker_is_odd(0));
    assert!(!checker_is_odd(1));
}

#[test]
fn diffuse_direction_falls_back_to_the_normal() {
    let surface = Lambertian::new(3);
    assert_eq!(surface.albedo, 3);
    let normal = Vec3::new(0, ONE, 0);
    let tiny = Vec3::new(3, -4, 0);
    let sum = Vec3::new(ONE, ONE, 0);
    assert_eq!(surface.scatter(tiny, normal), normal);
    assert_eq!(surface.scatter(Vec3::zero(), normal), normal);
    assert_eq!(surface.scatter(sum, normal), sum);
    assert!(!surface.scatter(tiny, normal).near_zero());
    assert_ne!(surface.scatter(Vec3::zero(), normal), Vec3::zero());
}

#[test]
fn metal_holds_the_fuzz_at_one() {
    let c = Vec3::new(1, 2, 3);
    assert_eq!(Metal::new(&c, &(ONE - 1)).fuzz, ONE - 1);
    assert_eq!(Metal::new(&c, &ONE).fuzz, ONE);
    assert_eq!(Metal::new(&c, &(ONE + 1)).fuzz, ONE);
    assert_eq!(Metal::new(&c, &0).fuzz, 0);
    assert_eq!(Metal::new(&c, &-7).fuzz, -7);
    assert_eq!(Metal::new(&c, &0).albedo, c);
}

#[test]
fn metal_absorbs_what_points_into_the_surface() {
    let m = Metal::new(&Vec3::new(1, 2, 3), &0);
    assert_eq!(m.scatter(1), Some(Vec3::new(1, 2, 3)));
    assert_eq!(m.scatter(0), None);
    assert_eq!(m.scatter(-1), None);
}

#[test]
fn dielectric_reflects_or_refracts() {
    assert_eq!(Dielectric::new(42).ir, 42);
    // no refraction is possible
    assert_eq!(Dielectric::scatter(ONE + 1, 0, 5), Bounce::Reflect);
    // the reflectance exceeds the draw
    assert_eq!(Dielectric::scatter(ONE, 6, 5), Bounce::Reflect);
    assert_eq!(Dielectric::scatter(ONE, 5, 5), Bounce::Refract);
    assert_eq!(Dielectric::scatter(0, 0, 5), Bounce::Refract);
}

#[test]
fn a_free_path_longer_than_the_way_inside_passes_through() {
    assert!(scatters_inside(3, 5));
    assert!(scatters_inside(5, 5));
    assert!(!scatters_inside(6, 5));
}

#[test]
fn dielectric_cannot_refract_above_one() {
    assert!(Dielectric::cannot_refract(ONE + 1));
    assert!(!Dielectric::cannot_refract(ONE));
    assert!(!Dielectric::cannot_refract(0));
    // whatever the reflectance and the draw, the ray is then reflected
    assert_eq!(Dielectric::scatter(ONE + 1, -9, 9), Bounce::Reflect);
}

#[test]
fn sphere_is_missed_below_a_discriminant_of_zero() {
    assert!(misses(-1));
    assert!(!misses(0));
    assert!(!misses(1));
}

#[test]
fn sphere_hit_by_discriminant_and_crossings() {
    assert_eq!(Sphere::hit(-1, 3, 8, 0, 10), None);
    assert_eq!(Sphere::hit(0, 3, 3, 0, 10), Some(3));
    assert_eq!(Sphere::hit(4, 3, 8, 0, 10), Some(3));
    assert_eq!(Sphere::hit(4, 3, 8, 4, 10), Some(8));
    assert_eq!(Sphere::hit(4, 3, 8, 4, 7), None);
    let s = Sphere::new(Vec3::new(1, 2, 3), 4, 5);
    assert_eq!((s.center, s.radius, s.mat_ptr), (Vec3::new(1, 2, 3), 4, 5));
}
