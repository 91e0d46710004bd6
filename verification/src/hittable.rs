//! What the library knows of a scene object and of a ray's hits, and the
//! bookkeeping of the closest hit.
//!
//! Whether a ray meets a box or an object is numeric work that the caller
//! does. The aggregates decide what to ask next and which hit to keep: they
//! hand out a `Query`, take an `Answer`, and go on from there.

use crate::aabb::Aabb;
use vstd::prelude::*;

verus! {

/// A scene object as the aggregates see it: an identifier chosen by the
/// caller, and the box that bounds the object over the exposure interval.
/// An object without a box cannot be bounded.
#[derive(Clone, Copy, Debug, PartialEq, Eq, Structural)]
pub struct Object {
    pub id: usize,
    pub bbox: Option<Aabb>,
}

/// Every object of `s` has a bounding box.
pub open spec fn all_bounded(s: Seq<Object>) -> bool {
    forall|i: int| 0 <= i < s.len() ==> (#[trigger] s[i]).bbox is Some
}

/// A hit: the ray parameter at which it happens and the object that was hit.
#[derive(Clone, Copy, Debug, PartialEq, Eq, Structural)]
pub struct HitRecord {
    pub t: i64,
    pub id: usize,
}

impl HitRecord {
    pub fn new(id: usize, t: i64) -> (r: Self)
        ensures
            r == (HitRecord { t, id }),
    {
        HitRecord { t, id }
    }
}

/// Whether a ray meets a surface from outside, given the dot product of its
/// direction with the outward normal: it does unless the product is above
/// zero.
pub fn front_face(dot: i64) -> (r: bool)
    ensures
        r == !(dot > 0),
{
    !(dot > 0)
}

/// The part of a ray that is still of interest, and the closest hit found in
/// it so far. Hits are looked for between `t_min` and `closest_so_far`, both
/// included; every hit that is recorded moves `closest_so_far` to it.
#[derive(Clone, Copy, Debug, PartialEq, Eq, Structural)]
pub struct Closest {
    pub t_min: i64,
    pub closest_so_far: i64,
    pub rec: Option<HitRecord>,
}

/// What the caller is asked to find out next.
#[derive(Clone, Copy, Debug, PartialEq, Eq, Structural)]
pub enum Query {
    /// Does the ray pass through `bbox` between `t_min` and `t_max`?
    Box { bbox: Aabb, t_min: i64, t_max: i64 },
    /// Where, between `t_min` and `t_max`, does the ray first hit `object`?
    Leaf { object: Object, t_min: i64, t_max: i64 },
    /// Nothing is left to ask; this is the closest hit, if there is one.
    Done { rec: Option<HitRecord> },
}

/// What the caller found out.
#[derive(Clone, Copy, Debug, PartialEq, Eq, Structural)]
pub enum Answer {
    /// To `Query::Box`: whether the ray passes through the box.
    Box { hit: bool },
    /// To `Query::Leaf`: the ray parameter of the hit, if the object is hit.
    Leaf { t: Option<i64> },
}

impl Closest {
    /// The state after the object `o` was tested and `t` came back.
    pub open spec fn spec_record(self, o: Object, t: Option<i64>) -> Closest {
        match t {
            Some(t) => Closest {
                t_min: self.t_min,
                closest_so_far: t,
                rec: Some(HitRecord { t, id: o.id }),
            },
            None => self,
        }
    }

    /// The whole window from `t_min` to `t_max`, with no hit yet.
    pub fn new(t_min: i64, t_max: i64) -> (r: Self)
        ensures
            r == (Closest { t_min, closest_so_far: t_max, rec: None }),
    {
        Closest { t_min, closest_so_far: t_max, rec: None }
    }

    /// Takes note of what testing `o` gave: a hit replaces the closest hit
    /// and narrows the window to it, a miss changes nothing.
    pub fn record(&mut self, o: &Object, t: Option<i64>)
        ensures
            *final(self) == old(self).spec_record(*o, t),
    {
        match t {
            Some(t) => {
                self.closest_so_far = t;
                self.rec = Some(HitRecord::new(o.id, t));
            },
            None => {},
        }
    }
}

/// Testing the objects of `s` in turn, from the state `start`, where `hit`
/// says what each test gives.
pub open spec fn spec_scan(
    s: Seq<Object>,
    start: Closest,
    hit: spec_fn(Object, i64, i64) -> Option<i64>,
) -> Closest
    decreases s.len(),
{
    if s.len() == 0 {
        start
    } else {
        let before = spec_scan(s.drop_last(), start, hit);
        before.spec_record(s.last(), hit(s.last(), before.t_min, before.closest_so_far))
    }
}

/// `hit` reports first hits: what it finds lies in the window it was given,
/// a hit found in a window is also what it finds in every narrower window
/// that still holds the hit, and a hit found in a narrower window is what
/// it finds in the wider one.
pub open spec fn first_hits(hit: spec_fn(Object, i64, i64) -> Option<i64>) -> bool {
    &&& forall|o: Object, a: i64, b: i64| #[trigger]
        hit(o, a, b) matches Some(t) ==> a <= t <= b
    &&& forall|o: Object, a: i64, b: i64, c: i64|
        c <= b && (#[trigger] hit(o, a, b) matches Some(t) && t <= c) ==> #[trigger] hit(o, a, c)
            == hit(o, a, b)
    &&& forall|o: Object, a: i64, b: i64, c: i64|
        c <= b && (#[trigger] hit(o, a, c) is Some) ==> #[trigger] hit(o, a, b) == hit(o, a, c)
}

/// `r` holds the nearest of the hits that the objects of `s` have between
/// `a` and `b`: no hit where none of them is hit there, else a hit of one of
/// them that no other hit precedes.
pub open spec fn is_nearest(
    s: Seq<Object>,
    a: i64,
    b: i64,
    hit: spec_fn(Object, i64, i64) -> Option<i64>,
    r: Closest,
) -> bool {
    &&& r.t_min == a
    &&& match r.rec {
        None => r.closest_so_far == b && forall|i: int|
            0 <= i < s.len() ==> hit(#[trigger] s[i], a, b) is None,
        Some(h) => {
            &&& r.closest_so_far == h.t
            &&& a <= h.t <= b
            &&& exists|i: int|
                0 <= i < s.len() && (#[trigger] s[i]).id == h.id && hit(s[i], a, b) == Some(h.t)
            &&& forall|j: int|
                0 <= j < s.len() ==> (hit(#[trigger] s[j], a, b) matches Some(t) ==> h.t <= t)
        },
    }
}

/// Two sequences with the same multiset of objects have the same members.
pub proof fn lemma_same_members(a: Seq<Object>, b: Seq<Object>)
    requires
        a.to_multiset() == b.to_multiset(),
    ensures
        a.len() == b.len(),
        forall|i: int| 0 <= i < a.len() ==> b.contains(#[trigger] a[i]),
        all_bounded(b) ==> all_bounded(a),
{
    vstd::seq_lib::to_multiset_len(a);
    vstd::seq_lib::to_multiset_len(b);
    assert forall|i: int| 0 <= i < a.len() implies b.contains(#[trigger] a[i]) by {
        assert(a.contains(a[i]));
        vstd::seq_lib::to_multiset_contains(a, a[i]);
        vstd::seq_lib::to_multiset_contains(b, a[i]);
    }
}

/// Testing the objects one after the other, each in the window that the
/// hits before it have left, ends with the nearest hit of them all.
pub proof fn lemma_scan_finds_nearest(
    s: Seq<Object>,
    a: i64,
    b: i64,
    hit: spec_fn(Object, i64, i64) -> Option<i64>,
)
    requires
        first_hits(hit),
    ensures
        is_nearest(s, a, b, hit, spec_scan(s, Closest { t_min: a, closest_so_far: b, rec: None }, hit)),
    decreases s.len(),
{
    let start = Closest { t_min: a, closest_so_far: b, rec: None };
    if s.len() > 0 {
        let front = s.drop_last();
        let o = s.last();
        lemma_scan_finds_nearest(front, a, b, hit);
        let before = spec_scan(front, start, hit);
        let c = before.closest_so_far;
        let ans = hit(o, a, c);
        let after = spec_scan(s, start, hit);
        assert(after == before.spec_record(o, ans));
        assert(forall|i: int| 0 <= i < front.len() ==> front[i] == s[i]);
        assert(c <= b);
        match ans {
            Some(t) => {
                assert(hit(o, a, b) == hit(o, a, c));
                assert(s[s.len() - 1].id == o.id && hit(s[s.len() - 1], a, b) == Some(t));
                assert forall|j: int| 0 <= j < s.len() implies (hit(#[trigger] s[j], a, b) matches Some(
                    t2,
                ) ==> t <= t2) by {
                    if j < front.len() {
                        assert(front[j] == s[j]);
                    }
                }
            },
            None => {
                match before.rec {
                    None => {
                        assert forall|i: int| 0 <= i < s.len() implies hit(
                            #[trigger] s[i],
                            a,
                            b,
                        ) is None by {
                            if i < front.len() {
                                assert(front[i] == s[i]);
                            }
                        }
                    },
                    Some(h) => {
                        let i0 = choose|i: int|
                            0 <= i < front.len() && (#[trigger] front[i]).id == h.id && hit(
                                front[i],
                                a,
                                b,
                            ) == Some(h.t);
                        assert(s[i0].id == h.id && hit(s[i0], a, b) == Some(h.t));
                        assert forall|j: int| 0 <= j < s.len() implies (hit(
                            #[trigger] s[j],
                            a,
                            b,
                        ) matches Some(t2) ==> h.t <= t2) by {
                            if j < front.len() {
                                assert(front[j] == s[j]);
                            } else {
                                if hit(o, a, b) is Some && hit(o, a, b).unwrap() <= c {
                                    assert(hit(o, a, c) == hit(o, a, b));
                                }
                            }
                        }
                    },
                }
            },
        }
    }
}

/// The nearest hit does not depend on the order of the objects: two
/// arrangements of the same objects agree on whether there is a hit and on
/// its ray parameter.
pub proof fn lemma_nearest_of_rearranged(
    s1: Seq<Object>,
    s2: Seq<Object>,
    a: i64,
    b: i64,
    hit: spec_fn(Object, i64, i64) -> Option<i64>,
    r1: Closest,
    r2: Closest,
)
    requires
        s1.to_multiset() == s2.to_multiset(),
        is_nearest(s1, a, b, hit, r1),
        is_nearest(s2, a, b, hit, r2),
    ensures
        r1.rec is Some <==> r2.rec is Some,
        r1.closest_so_far == r2.closest_so_far,
{
    lemma_same_members(s1, s2);
    lemma_same_members(s2, s1);
    lemma_nearest_one_way(s1, s2, a, b, hit, r1, r2);
    lemma_nearest_one_way(s2, s1, a, b, hit, r2, r1);
}

proof fn lemma_nearest_one_way(
    s1: Seq<Object>,
    s2: Seq<Object>,
    a: i64,
    b: i64,
    hit: spec_fn(Object, i64, i64) -> Option<i64>,
    r1: Closest,
    r2: Closest,
)
    requires
        forall|i: int| 0 <= i < s1.len() ==> s2.contains(#[trigger] s1[i]),
        is_nearest(s1, a, b, hit, r1),
        is_nearest(s2, a, b, hit, r2),
    ensures
        r1.rec is Some ==> r2.rec is Some && r2.closest_so_far <= r1.closest_so_far,
{
    if r1.rec is Some {
        let h = r1.rec.unwrap();
        let i = choose|i: int|
            0 <= i < s1.len() && (#[trigger] s1[i]).id == h.id && hit(s1[i], a, b) == Some(h.t);
        assert(s2.contains(s1[i]));
        let j = choose|j: int| 0 <= j < s2.len() && s2[j] == s1[i];
        assert(hit(s2[j], a, b) == Some(h.t));
    }
}

} // verus!
