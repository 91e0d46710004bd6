//! Axis-aligned bounding boxes and their union.

use crate::vec3::{Point3, Vec3};
use vstd::prelude::*;

verus! {

/// An axis-aligned box given by its two extreme corners.
#[derive(Clone, Copy, Debug, PartialEq, Eq, Structural)]
pub struct Aabb {
    pub minimum: Point3,
    pub maximum: Point3,
}

pub open spec fn spec_min(a: i64, b: i64) -> i64 {
    if a < b {
        a
    } else {
        b
    }
}

pub open spec fn spec_max(a: i64, b: i64) -> i64 {
    if a > b {
        a
    } else {
        b
    }
}

/// The smallest box that holds both `box0` and `box1`: the componentwise
/// minimum of the two lower corners and maximum of the two upper corners.
pub open spec fn spec_surrounding_box(box0: Aabb, box1: Aabb) -> Aabb {
    Aabb {
        minimum: Vec3 {
            x: spec_min(box0.minimum.x, box1.minimum.x),
            y: spec_min(box0.minimum.y, box1.minimum.y),
            z: spec_min(box0.minimum.z, box1.minimum.z),
        },
        maximum: Vec3 {
            x: spec_max(box0.maximum.x, box1.maximum.x),
            y: spec_max(box0.maximum.y, box1.maximum.y),
            z: spec_max(box0.maximum.z, box1.maximum.z),
        },
    }
}

impl Aabb {
    /// The lower corner does not exceed the upper corner on any axis.
    pub open spec fn ordered(self) -> bool {
        self.minimum.le(self.maximum)
    }

    /// `p` lies in the box, faces included.
    pub open spec fn contains(self, p: Point3) -> bool {
        self.minimum.le(p) && p.le(self.maximum)
    }

    /// The box reaches at least as far as `inner` in every direction.
    pub open spec fn encloses(self, inner: Aabb) -> bool {
        self.minimum.le(inner.minimum) && inner.maximum.le(self.maximum)
    }

    pub fn new(a: &Point3, b: &Point3) -> (r: Self)
        ensures
            r.minimum == *a,
            r.maximum == *b,
    {
        Aabb { minimum: *a, maximum: *b }
    }

    /// Whether a ray passes through a box between `t_min` and `t_max`,
    /// given where it crosses the box's three pairs of planes: on each axis
    /// `t0` is the crossing of the lower plane, `t1` that of the upper
    /// plane, and `inv_d` the inverse of the ray's direction, whose sign
    /// says which of the two comes first.
    pub fn hit(t0: &Vec3, t1: &Vec3, inv_d: &Vec3, t_min: i64, t_max: i64) -> (r: bool)
        ensures
            r == spec_slab_hit(*t0, *t1, *inv_d, t_min, t_max),
    {
        let mut enter = t_min;
        let mut leave = t_max;
        let mut a: usize = 0;
        while a < 3
            invariant
                a <= 3,
                enter == spec_enter(*t0, *t1, *inv_d, t_min, a as int),
                leave == spec_leave(*t0, *t1, *inv_d, t_max, a as int),
                a > 0 ==> enter < leave,
            decreases 3 - a,
        {
            let mut near = t0.index(a);
            let mut far = t1.index(a);
            if inv_d.index(a) < 0 {
                let tmp = near;
                near = far;
                far = tmp;
            }
            enter = max_code(near, enter);
            leave = min_code(far, leave);
            if leave <= enter {
                proof {
                    lemma_window_only_narrows(*t0, *t1, *inv_d, t_min, t_max, a + 1);
                }
                return false;
            }
            a += 1;
        }
        true
    }
}

/// On `axis`, the crossing that comes first.
pub open spec fn spec_near(t0: Vec3, t1: Vec3, inv_d: Vec3, axis: int) -> i64 {
    if inv_d.axis(axis) < 0 {
        t1.axis(axis)
    } else {
        t0.axis(axis)
    }
}

/// On `axis`, the crossing that comes last.
pub open spec fn spec_far(t0: Vec3, t1: Vec3, inv_d: Vec3, axis: int) -> i64 {
    if inv_d.axis(axis) < 0 {
        t0.axis(axis)
    } else {
        t1.axis(axis)
    }
}

/// Where the ray is inside the slabs of the first `n` axes at the earliest:
/// the latest of `t_min` and their first crossings.
pub open spec fn spec_enter(t0: Vec3, t1: Vec3, inv_d: Vec3, t_min: i64, n: int) -> i64
    decreases n,
{
    if n <= 0 {
        t_min
    } else {
        spec_max(spec_near(t0, t1, inv_d, n - 1), spec_enter(t0, t1, inv_d, t_min, n - 1))
    }
}

/// Where the ray is inside the slabs of the first `n` axes at the latest:
/// the earliest of `t_max` and their last crossings.
pub open spec fn spec_leave(t0: Vec3, t1: Vec3, inv_d: Vec3, t_max: i64, n: int) -> i64
    decreases n,
{
    if n <= 0 {
        t_max
    } else {
        spec_min(spec_far(t0, t1, inv_d, n - 1), spec_leave(t0, t1, inv_d, t_max, n - 1))
    }
}

/// The ray passes through the box in the window exactly when it is inside
/// all three slabs at once for more than an instant: when it enters the
/// last of them before it leaves the first.
pub open spec fn spec_slab_hit(t0: Vec3, t1: Vec3, inv_d: Vec3, t_min: i64, t_max: i64) -> bool {
    spec_enter(t0, t1, inv_d, t_min, 3) < spec_leave(t0, t1, inv_d, t_max, 3)
}

/// Every further axis can only narrow the stretch in which the ray is
/// inside the slabs, so a stretch that is empty after `n` axes stays empty.
pub proof fn lemma_window_only_narrows(
    t0: Vec3,
    t1: Vec3,
    inv_d: Vec3,
    t_min: i64,
    t_max: i64,
    n: int,
)
    requires
        0 <= n <= 3,
    ensures
        spec_enter(t0, t1, inv_d, t_min, n) <= spec_enter(t0, t1, inv_d, t_min, 3),
        spec_leave(t0, t1, inv_d, t_max, 3) <= spec_leave(t0, t1, inv_d, t_max, n),
    decreases 3 - n,
{
    if n < 3 {
        lemma_window_only_narrows(t0, t1, inv_d, t_min, t_max, n + 1);
    }
}

fn min_code(a: i64, b: i64) -> (r: i64)
    ensures
        r == spec_min(a, b),
{
    if a < b {
        a
    } else {
        b
    }
}

fn max_code(a: i64, b: i64) -> (r: i64)
    ensures
        r == spec_max(a, b),
{
    if a > b {
        a
    } else {
        b
    }
}

pub fn surrounding_box(box0: Aabb, box1: Aabb) -> (r: Aabb)
    ensures
        r == spec_surrounding_box(box0, box1),
{
    let small = Vec3::new(
        min_code(box0.minimum.x, box1.minimum.x),
        min_code(box0.minimum.y, box1.minimum.y),
        min_code(box0.minimum.z, box1.minimum.z),
    );
    let big = Vec3::new(
        max_code(box0.maximum.x, box1.maximum.x),
        max_code(box0.maximum.y, box1.maximum.y),
        max_code(box0.maximum.z, box1.maximum.z),
    );
    Aabb::new(&small, &big)
}

/// The union of two boxes does not depend on their order.
pub proof fn lemma_union_commutative(a: Aabb, b: Aabb)
    ensures
        spec_surrounding_box(a, b) == spec_surrounding_box(b, a),
{
}

/// Uniting three boxes gives the same box however they are grouped.
pub proof fn lemma_union_associative(a: Aabb, b: Aabb, c: Aabb)
    ensures
        spec_surrounding_box(spec_surrounding_box(a, b), c) == spec_surrounding_box(
            a,
            spec_surrounding_box(b, c),
        ),
{
}

/// A box united with itself is that box.
pub proof fn lemma_union_idempotent(a: Aabb)
    ensures
        spec_surrounding_box(a, a) == a,
{
}

/// The union reaches as far as each of its two operands, so every point of
/// either operand, faces included, lies in the union; corners that are in
/// order stay in order.
pub proof fn lemma_union_encloses(a: Aabb, b: Aabb)
    ensures
        spec_surrounding_box(a, b).encloses(a),
        spec_surrounding_box(a, b).encloses(b),
        forall|p: Point3| a.contains(p) || b.contains(p) ==> spec_surrounding_box(a, b).contains(p),
        a.ordered() || b.ordered() ==> spec_surrounding_box(a, b).ordered(),
{
}

/// A box built from two corners in order holds both of them.
pub proof fn lemma_new_contains_corners(a: Point3, b: Point3)
    requires
        a.le(b),
    ensures
        (Aabb { minimum: a, maximum: b }).contains(a),
        (Aabb { minimum: a, maximum: b }).contains(b),
{
}

/// Enclosure is transitive, and an enclosing box holds every point of the
/// box that it encloses.
pub proof fn lemma_encloses_transitive(a: Aabb, b: Aabb, c: Aabb)
    requires
        a.encloses(b),
        b.encloses(c),
    ensures
        a.encloses(c),
        forall|p: Point3| b.contains(p) ==> a.contains(p),
{
}

/// Some box of `boxes` reaches down to the lower face of `b` on `axis`.
pub open spec fn touches_min(b: Aabb, boxes: Seq<Aabb>, axis: int) -> bool {
    exists|i: int|
        0 <= i < boxes.len() && (#[trigger] boxes[i]).minimum.axis(axis) == b.minimum.axis(axis)
}

/// Some box of `boxes` reaches up to the upper face of `b` on `axis`.
pub open spec fn touches_max(b: Aabb, boxes: Seq<Aabb>, axis: int) -> bool {
    exists|i: int|
        0 <= i < boxes.len() && (#[trigger] boxes[i]).maximum.axis(axis) == b.maximum.axis(axis)
}

/// `b` is the smallest box around `boxes`: it encloses each of them, and
/// each of its six faces is reached by one of them.
pub open spec fn is_hull(b: Aabb, boxes: Seq<Aabb>) -> bool {
    &&& forall|i: int| 0 <= i < boxes.len() ==> b.encloses(#[trigger] boxes[i])
    &&& touches_min(b, boxes, 0)
    &&& touches_min(b, boxes, 1)
    &&& touches_min(b, boxes, 2)
    &&& touches_max(b, boxes, 0)
    &&& touches_max(b, boxes, 1)
    &&& touches_max(b, boxes, 2)
}

/// The box that is nothing but the point `p`.
pub open spec fn point_box(p: Point3) -> Aabb {
    Aabb { minimum: p, maximum: p }
}

/// A box is the smallest box around itself.
pub proof fn lemma_hull_single(a: Aabb)
    ensures
        is_hull(a, seq![a]),
{
    let s = seq![a];
    assert(s[0] == a);
}

proof fn lemma_touch_union(a: Aabb, b: Aabb, s1: Seq<Aabb>, s2: Seq<Aabb>, axis: int)
    requires
        0 <= axis < 3,
        touches_min(a, s1, axis),
        touches_min(b, s2, axis),
        touches_max(a, s1, axis),
        touches_max(b, s2, axis),
    ensures
        touches_min(spec_surrounding_box(a, b), s1 + s2, axis),
        touches_max(spec_surrounding_box(a, b), s1 + s2, axis),
{
    let u = spec_surrounding_box(a, b);
    let s = s1 + s2;
    let i1 = choose|i: int|
        0 <= i < s1.len() && (#[trigger] s1[i]).minimum.axis(axis) == a.minimum.axis(axis);
    let i2 = choose|i: int|
        0 <= i < s2.len() && (#[trigger] s2[i]).minimum.axis(axis) == b.minimum.axis(axis);
    assert(s[i1] == s1[i1]);
    assert(s[s1.len() + i2] == s2[i2]);
    if a.minimum.axis(axis) < b.minimum.axis(axis) {
        assert(s[i1].minimum.axis(axis) == u.minimum.axis(axis));
    } else {
        assert(s[s1.len() + i2].minimum.axis(axis) == u.minimum.axis(axis));
    }
    let j1 = choose|i: int|
        0 <= i < s1.len() && (#[trigger] s1[i]).maximum.axis(axis) == a.maximum.axis(axis);
    let j2 = choose|i: int|
        0 <= i < s2.len() && (#[trigger] s2[i]).maximum.axis(axis) == b.maximum.axis(axis);
    assert(s[j1] == s1[j1]);
    assert(s[s1.len() + j2] == s2[j2]);
    if a.maximum.axis(axis) > b.maximum.axis(axis) {
        assert(s[j1].maximum.axis(axis) == u.maximum.axis(axis));
    } else {
        assert(s[s1.len() + j2].maximum.axis(axis) == u.maximum.axis(axis));
    }
}

/// The union of the smallest boxes around two groups is the smallest box
/// around both groups together.
pub proof fn lemma_hull_union(a: Aabb, b: Aabb, s1: Seq<Aabb>, s2: Seq<Aabb>)
    requires
        is_hull(a, s1),
        is_hull(b, s2),
    ensures
        is_hull(spec_surrounding_box(a, b), s1 + s2),
{
    let u = spec_surrounding_box(a, b);
    let s = s1 + s2;
    assert forall|i: int| 0 <= i < s.len() implies u.encloses(#[trigger] s[i]) by {
        if i < s1.len() {
            assert(s[i] == s1[i]);
        } else {
            assert(s[i] == s2[i - s1.len()]);
        }
    }
    lemma_touch_union(a, b, s1, s2, 0);
    lemma_touch_union(a, b, s1, s2, 1);
    lemma_touch_union(a, b, s1, s2, 2);
}

proof fn lemma_hull_within(b1: Aabb, b2: Aabb, s1: Seq<Aabb>, s2: Seq<Aabb>, axis: int)
    requires
        0 <= axis < 3,
        is_hull(b1, s1),
        is_hull(b2, s2),
        forall|i: int| 0 <= i < s1.len() ==> s2.contains(#[trigger] s1[i]),
    ensures
        b2.minimum.axis(axis) <= b1.minimum.axis(axis),
        b1.maximum.axis(axis) <= b2.maximum.axis(axis),
{
    let i = choose|i: int|
        0 <= i < s1.len() && (#[trigger] s1[i]).minimum.axis(axis) == b1.minimum.axis(axis);
    assert(s2.contains(s1[i]));
    let k = choose|k: int| 0 <= k < s2.len() && s2[k] == s1[i];
    assert(b2.encloses(s2[k]));
    let j = choose|j: int|
        0 <= j < s1.len() && (#[trigger] s1[j]).maximum.axis(axis) == b1.maximum.axis(axis);
    assert(s2.contains(s1[j]));
    let m = choose|m: int| 0 <= m < s2.len() && s2[m] == s1[j];
    assert(b2.encloses(s2[m]));
}

/// There is one smallest box around a group of boxes, whatever their order
/// and however often each occurs.
pub proof fn lemma_hull_unique(b1: Aabb, b2: Aabb, s1: Seq<Aabb>, s2: Seq<Aabb>)
    requires
        is_hull(b1, s1),
        is_hull(b2, s2),
        forall|i: int| 0 <= i < s1.len() ==> s2.contains(#[trigger] s1[i]),
        forall|i: int| 0 <= i < s2.len() ==> s1.contains(#[trigger] s2[i]),
    ensures
        b1 == b2,
{
    lemma_hull_within(b1, b2, s1, s2, 0);
    lemma_hull_within(b1, b2, s1, s2, 1);
    lemma_hull_within(b1, b2, s1, s2, 2);
    lemma_hull_within(b2, b1, s2, s1, 0);
    lemma_hull_within(b2, b1, s2, s1, 1);
    lemma_hull_within(b2, b1, s2, s1, 2);
}

impl Aabb {
    /// The smallest box that holds every point of `points`, faces included;
    /// none where there is no point.
    pub fn envelope(points: &Vec<Point3>) -> (r: Option<Aabb>)
        ensures
            r is Some <==> points@.len() > 0,
            r matches Some(b) ==> is_hull(b, points@.map_values(|p: Point3| point_box(p))),
            r matches Some(b) ==> forall|i: int|
                0 <= i < points@.len() ==> b.contains(#[trigger] points@[i]),
    {
        if points.len() == 0 {
            return None;
        }
        let ghost boxes = points@.map_values(|p: Point3| point_box(p));
        let mut out = Aabb::new(&points[0], &points[0]);
        let mut i: usize = 1;
        proof {
            lemma_hull_single(out);
            assert(boxes.take(1) =~= seq![out]);
        }
        while i < points.len()
            invariant
                1 <= i <= points.len(),
                boxes == points@.map_values(|p: Point3| point_box(p)),
                is_hull(out, boxes.take(i as int)),
            decreases points.len() - i,
        {
            let p = points[i];
            proof {
                lemma_hull_single(point_box(p));
                lemma_hull_union(out, point_box(p), boxes.take(i as int), seq![point_box(p)]);
                assert(boxes.take(i + 1) =~= boxes.take(i as int) + seq![point_box(p)]);
            }
            out = surrounding_box(out, Aabb::new(&p, &p));
            i += 1;
        }
        proof {
            assert(boxes.take(i as int) =~= boxes);
            assert forall|k: int| 0 <= k < points@.len() implies out.contains(
                #[trigger] points@[k],
            ) by {
                assert(out.encloses(boxes[k]));
            }
        }
        Some(out)
    }
}

} // verus!
