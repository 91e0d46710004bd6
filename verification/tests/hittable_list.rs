use raytracer::aabb::Aabb;
use raytracer::hittable::{Answer, Closest, HitRecord, Object, Query};
use raytracer::hittable_list::HittableList;
use raytracer::vec3::Vec3;

fn bounded(id: usize, lo: i64, hi: i64) -> Object {
    Object {
        id,
        bbox: Some(Aabb::new(&Vec3::new(lo, lo, lo), &Vec3::new(hi, hi, hi))),
    }
}

#[test]
fn new_and_default_lists_are_empty() {
    assert!(HittableList::new().objects.is_empty());
    assert!(HittableList::default().objects.is_empty());
}

#[test]
fn add_appends_and_clear_empties() {
    let mut l = HittableList::new();
    l.add(bounded(3, 0, 1));
    l.add(bounded(1, 5, 6));
    assert_eq!(l.objects, vec![bounded(3, 0, 1), bounded(1, 5, 6)]);
    l.clear();
    assert!(l.objects.is_empty());
}

#[test]
fn empty_list_has_no_box() {
    assert_eq!(HittableList::new().bounding_box(), None);
}

#[test]
fn box_of_a_list_is_the_union_of_the_boxes() {
    let mut l = HittableList::new();
    l.add(bounded(0, 0, 1));
    assert_eq!(l.bounding_box(), bounded(0, 0, 1).bbox);
    l.add(bounded(1, -4, -2));
    l.add(bounded(2, 3, 9));
    assert_eq!(
        l.bounding_box(),
        Some(Aabb::new(&Vec3::new(-4, -4, -4), &Vec3::new(9, 9, 9)))
    );
}

#[test]
fn one_unbounded_object_leaves_the_list_unbounded() {
    for at in 0..3 {
        let mut l = HittableList::new();
        for id in 0..3 {
            if id == at {
                l.add(Object { id, bbox: None });
            } else {
                l.add(bounded(id, 0, 1));
            }
        }
        assert_eq!(l.bounding_box(), None);
    }
}

#[test]
fn closest_keeps_the_latest_hit_and_narrows_the_window() {
    let mut c = Closest::new(1, 100);
    assert_eq!(
        c,
        Closest {
            t_min: 1,
            closest_so_far: 100,
            rec: None
        }
    );
    c.record(&bounded(4, 0, 1), None);
    assert_eq!(c.closest_so_far, 100);
    assert_eq!(c.rec, None);
    c.record(&bounded(4, 0, 1), Some(40));
    assert_eq!(c.closest_so_far, 40);
    assert_eq!(c.rec, Some(HitRecord { t: 40, id: 4 }));
    c.record(&bounded(6, 0, 1), None);
    assert_eq!(c.rec, Some(HitRecord { t: 40, id: 4 }));
    c.record(&bounded(7, 0, 1), Some(40));
    assert_eq!(c.rec, Some(HitRecord { t: 40, id: 7 }));
    assert_eq!(c.t_min, 1);
}

#[test]
fn scan_of_an_empty_list_is_done_at_once() {
    let l = HittableList::new();
    let mut scan = l.hit(0, 10);
    assert_eq!(scan.query(), Query::Done { rec: None });
    scan.step(Answer::Leaf { t: Some(3) });
    assert_eq!(scan.query(), Query::Done { rec: None });
}

#[test]
fn scan_asks_each_object_in_the_window_left() {
    let mut l = HittableList::new();
    l.add(bounded(0, 0, 1));
    l.add(bounded(1, 0, 1));
    l.add(bounded(2, 0, 1));
    let mut scan = l.hit(2, 90);
    assert_eq!(
        scan.query(),
        Query::Leaf {
            object: bounded(0, 0, 1),
            t_min: 2,
            t_max: 90
        }
    );
    // an answer of the wrong kind changes nothing
    scan.step(Answer::Box { hit: true });
    assert_eq!(scan.next, 0);
    scan.step(Answer::Leaf { t: Some(50) });
    assert_eq!(
        scan.query(),
        Query::Leaf {
            object: bounded(1, 0, 1),
            t_min: 2,
            t_max: 50
        }
    );
    scan.step(Answer::Leaf { t: None });
    assert_eq!(
        scan.query(),
        Query::Leaf {
            object: bounded(2, 0, 1),
            t_min: 2,
            t_max: 50
        }
    );
    scan.step(Answer::Leaf { t: Some(7) });
    assert_eq!(
        scan.query(),
        Query::Done {
            rec: Some(HitRecord { t: 7, id: 2 })
        }
    );
}
