use raytracer::aabb::{surrounding_box, Aabb};
use raytracer::code::{encode, ONE};
use raytracer::vec3::Vec3;

fn boxed(a: (i64, i64, i64), b: (i64, i64, i64)) -> Aabb {
    Aabb::new(&Vec3::new(a.0, a.1, a.2), &Vec3::new(b.0, b.1, b.2))
}

#[test]
fn union_takes_extremes_per_axis() {
    let a = boxed((0, 5, -3), (4, 9, 2));
    let b = boxed((-2, 6, -1), (3, 12, 1));
    let u = surrounding_box(a, b);
    assert_eq!(u, boxed((-2, 5, -3), (4, 12, 2)));
}

#[test]
fn union_is_commutative_associative_idempotent() {
    let a = boxed((0, 0, 0), (1, 1, 1));
    let b = boxed((-5, 2, 7), (-4, 3, 9));
    let c = boxed((10, -10, 0), (11, -9, 0));
    assert_eq!(surrounding_box(a, b), surrounding_box(b, a));
    assert_eq!(
        surrounding_box(surrounding_box(a, b), c),
        surrounding_box(a, surrounding_box(b, c))
    );
    assert_eq!(surrounding_box(a, a), a);
}

#[test]
fn union_holds_the_corners_of_both() {
    let a = boxed((0, 0, 0), (1, 1, 1));
    let b = boxed((-5, 2, 7), (-4, 3, 9));
    let u = surrounding_box(a, b);
    for p in [a.minimum, a.maximum, b.minimum, b.maximum] {
        assert!(u.minimum.x <= p.x && p.x <= u.maximum.x);
        assert!(u.minimum.y <= p.y && p.y <= u.maximum.y);
        assert!(u.minimum.z <= p.z && p.z <= u.maximum.z);
    }
}

#[test]
fn vec3_components_by_axis() {
    let v = Vec3::new(7, -8, 9);
    assert_eq!((v.x(), v.y(), v.z()), (7, -8, 9));
    assert_eq!((v.index(0), v.index(1), v.index(2)), (7, -8, 9));
    assert_eq!(Vec3::zero(), Vec3::new(0, 0, 0));
}

#[test]
fn envelope_of_no_points_is_none() {
    assert_eq!(Aabb::envelope(&Vec::new()), None);
}

#[test]
fn envelope_is_tight_around_points() {
    let pts = vec![
        Vec3::new(3, -1, 4),
        Vec3::new(-7, 2, 4),
        Vec3::new(0, 0, 9),
    ];
    let b = Aabb::envelope(&pts).unwrap();
    assert_eq!(b, boxed((-7, -1, 4), (3, 2, 9)));
}

#[test]
fn envelope_of_one_point_is_that_point() {
    let p = Vec3::new(5, 6, 7);
    assert_eq!(Aabb::envelope(&vec![p]), Some(Aabb::new(&p, &p)));
}

fn v(x: i64, y: i64, z: i64) -> Vec3 {
    Vec3::new(x, y, z)
}

#[test]
fn slab_hit_when_the_slabs_overlap_in_the_window() {
    // inside x from 2 to 8, y from 3 to 9, z from 1 to 6: all at once from 3 to 6
    assert!(Aabb::hit(&v(2, 3, 1), &v(8, 9, 6), &v(1, 1, 1), 0, 100));
    assert!(Aabb::hit(&v(2, 3, 1), &v(8, 9, 6), &v(1, 1, 1), 5, 100));
    assert!(Aabb::hit(&v(2, 3, 1), &v(8, 9, 6), &v(1, 1, 1), 0, 4));
}

#[test]
fn slab_miss_when_the_window_ends_first_or_begins_last() {
    assert!(!Aabb::hit(&v(2, 3, 1), &v(8, 9, 6), &v(1, 1, 1), 0, 3));
    assert!(!Aabb::hit(&v(2, 3, 1), &v(8, 9, 6), &v(1, 1, 1), 6, 100));
    assert!(!Aabb::hit(&v(2, 3, 1), &v(8, 9, 6), &v(1, 1, 1), 10, 0));
}

#[test]
fn slab_miss_when_the_slabs_do_not_overlap() {
    // inside x from 2 to 4 but inside y only from 5 to 9
    assert!(!Aabb::hit(&v(2, 5, 0), &v(4, 9, 50), &v(1, 1, 1), 0, 100));
    // touching in one instant is a miss
    assert!(!Aabb::hit(&v(2, 4, 0), &v(4, 9, 50), &v(1, 1, 1), 0, 100));
}

#[test]
fn slab_crossings_swap_for_a_direction_below_zero() {
    // on x the ray runs backwards: it crosses the upper plane (at 2)
    // before the lower one (at 8)
    assert!(Aabb::hit(&v(8, 3, 1), &v(2, 9, 6), &v(-1, 1, 1), 0, 100));
    assert!(!Aabb::hit(&v(8, 3, 1), &v(2, 9, 6), &v(1, 1, 1), 0, 100));
    // a direction of exactly zero does not swap
    assert!(Aabb::hit(&v(2, 3, 1), &v(8, 9, 6), &v(0, 0, 0), 0, 100));
}

#[test]
fn ones_holds_the_code_of_one() {
    assert_eq!(Vec3::ones(), Vec3::new(ONE, ONE, ONE));
}

#[test]
fn near_zero_needs_every_component_strictly_inside() {
    let small = encode(1e-9f64.to_bits());
    let minus_small = encode((-1e-9f64).to_bits());
    let edge = encode(1e-8f64.to_bits());
    let minus_edge = encode((-1e-8f64).to_bits());
    assert!(v(0, 0, 0).near_zero());
    assert!(v(small, minus_small, 0).near_zero());
    assert!(!v(edge, 0, 0).near_zero());
    assert!(!v(0, minus_edge, 0).near_zero());
    assert!(!v(0, 0, ONE).near_zero());
    assert!(!v(small, small, encode((-1.0f64).to_bits())).near_zero());
}
