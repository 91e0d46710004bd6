//! A flat list of scene objects.

use crate::aabb::{
    is_hull, lemma_hull_single, lemma_hull_union, spec_surrounding_box, surrounding_box, Aabb,
};
use crate::hittable::{all_bounded, spec_scan, Answer, Closest, Object, Query};
use vstd::prelude::*;

verus! {

/// The box that bounds all the objects of `s`: the union of their boxes,
/// taken front to back. There is none where `s` is empty or holds an object
/// that cannot be bounded.
pub open spec fn spec_bounding_box(s: Seq<Object>) -> Option<Aabb>
    decreases s.len(),
{
    if s.len() == 0 {
        None
    } else if s.len() == 1 {
        s[0].bbox
    } else {
        match (spec_bounding_box(s.drop_last()), s.last().bbox) {
            (Some(a), Some(b)) => Some(spec_surrounding_box(a, b)),
            _ => None,
        }
    }
}

/// A list has a box exactly when it is not empty and every object in it has
/// one, and that box then encloses the box of every object.
pub proof fn lemma_bounding_box_encloses(s: Seq<Object>)
    ensures
        spec_bounding_box(s) is Some <==> s.len() > 0 && all_bounded(s),
        spec_bounding_box(s) is Some ==> forall|i: int|
            0 <= i < s.len() ==> spec_bounding_box(s).unwrap().encloses(
                (#[trigger] s[i]).bbox.unwrap(),
            ),
    decreases s.len(),
{
    if s.len() >= 2 {
        let front = s.drop_last();
        lemma_bounding_box_encloses(front);
        assert(forall|i: int| 0 <= i < front.len() ==> front[i] == s[i]);
        if all_bounded(s) {
            assert(all_bounded(front));
        }
        if spec_bounding_box(s) is Some {
            assert forall|i: int| 0 <= i < s.len() implies (#[trigger] s[i]).bbox is Some by {
                if i < front.len() {
                    assert(front[i].bbox is Some);
                }
            }
        }
    }
}

/// The boxes of the objects of `s`, in the order of `s`.
pub open spec fn boxes_of(s: Seq<Object>) -> Seq<Aabb> {
    s.map_values(|o: Object| o.bbox.unwrap())
}

/// The box of a list is the smallest box around the boxes of its objects.
pub proof fn lemma_bounding_box_is_hull(s: Seq<Object>)
    requires
        spec_bounding_box(s) is Some,
    ensures
        is_hull(spec_bounding_box(s).unwrap(), boxes_of(s)),
    decreases s.len(),
{
    if s.len() == 1 {
        lemma_hull_single(s[0].bbox.unwrap());
        assert(boxes_of(s) =~= seq![s[0].bbox.unwrap()]);
    } else {
        let front = s.drop_last();
        let last = s.last().bbox.unwrap();
        lemma_bounding_box_is_hull(front);
        lemma_hull_single(last);
        lemma_hull_union(spec_bounding_box(front).unwrap(), last, boxes_of(front), seq![last]);
        assert(boxes_of(s) =~= boxes_of(front) + seq![last]);
    }
}

/// A list with a prefix that cannot be bounded cannot be bounded.
proof fn lemma_unbounded_prefix(s: Seq<Object>, n: int)
    requires
        0 < n <= s.len(),
        spec_bounding_box(s.take(n)) is None,
    ensures
        spec_bounding_box(s) is None,
    decreases s.len(),
{
    if n < s.len() {
        assert(s.drop_last().take(n) =~= s.take(n));
        lemma_unbounded_prefix(s.drop_last(), n);
    } else {
        assert(s.take(n) =~= s);
    }
}

/// The objects of a scene, in the order in which they were added.
#[derive(Clone, Debug)]
pub struct HittableList {
    pub objects: Vec<Object>,
}

impl HittableList {
    /// Removes every object.
    pub fn clear(&mut self)
        ensures
            final(self).objects@ == Seq::<Object>::empty(),
    {
        self.objects.clear();
    }

    /// Appends `object`.
    pub fn add(&mut self, object: Object)
        ensures
            final(self).objects@ == old(self).objects@.push(object),
    {
        self.objects.push(object);
    }

    /// The empty list.
    pub fn new() -> (r: Self)
        ensures
            r.objects@ == Seq::<Object>::empty(),
    {
        HittableList { objects: Vec::new() }
    }

    /// Begins a query for the closest hit between `t_min` and `t_max`.
    pub fn hit<'a>(&'a self, t_min: i64, t_max: i64) -> (r: ListScan<'a>)
        ensures
            r.objects@ == self.objects@,
            r.next == 0,
            r.best == (Closest { t_min, closest_so_far: t_max, rec: None }),
    {
        ListScan { objects: &self.objects, next: 0, best: Closest::new(t_min, t_max) }
    }

    /// The box that bounds the whole list, if the list can be bounded.
    pub fn bounding_box(&self) -> (r: Option<Aabb>)
        ensures
            r == spec_bounding_box(self.objects@),
    {
        if self.objects.len() == 0 {
            return None;
        }
        let mut output_box = match self.objects[0].bbox {
            Some(b) => b,
            None => {
                proof {
                    lemma_unbounded_prefix(self.objects@, 1);
                }
                return None;
            },
        };
        let mut i: usize = 1;
        while i < self.objects.len()
            invariant
                1 <= i <= self.objects.len(),
                spec_bounding_box(self.objects@.take(i as int)) == Some(output_box),
            decreases self.objects.len() - i,
        {
            proof {
                assert(self.objects@.take(i + 1).drop_last() =~= self.objects@.take(i as int));
            }
            match self.objects[i].bbox {
                Some(tmp_box) => {
                    output_box = surrounding_box(output_box, tmp_box);
                },
                None => {
                    proof {
                        lemma_unbounded_prefix(self.objects@, i + 1);
                    }
                    return None;
                },
            }
            i += 1;
        }
        assert(self.objects@.take(i as int) =~= self.objects@);
        Some(output_box)
    }
}

impl Default for HittableList {
    fn default() -> (r: Self)
        ensures
            r.objects@ == Seq::<Object>::empty(),
    {
        Self::new()
    }
}

/// A query of a list in progress: the objects before `next` have been
/// tested, and `best` is the closest hit among them.
#[derive(Debug)]
pub struct ListScan<'a> {
    pub objects: &'a Vec<Object>,
    pub next: usize,
    pub best: Closest,
}

impl<'a> ListScan<'a> {
    /// What the query asks in this state: the next object, in the window
    /// that the hits so far have left, or nothing more.
    pub open spec fn spec_query(self) -> Query {
        if self.next < self.objects.len() {
            Query::Leaf {
                object: self.objects@[self.next as int],
                t_min: self.best.t_min,
                t_max: self.best.closest_so_far,
            }
        } else {
            Query::Done { rec: self.best.rec }
        }
    }

    /// The state after `answer` was given to what this state asks. An
    /// answer of the wrong kind, or one given when nothing is asked, leaves
    /// the state as it is.
    pub open spec fn spec_step(self, answer: Answer) -> ListScan<'a> {
        if self.next < self.objects.len() {
            match answer {
                Answer::Leaf { t } => ListScan {
                    objects: self.objects,
                    next: (self.next + 1) as usize,
                    best: self.best.spec_record(self.objects@[self.next as int], t),
                },
                Answer::Box { hit } => self,
            }
        } else {
            self
        }
    }

    /// The state in which the query ends when every question is answered
    /// as `hit` says.
    pub open spec fn spec_run(self, hit: spec_fn(Object, i64, i64) -> Option<i64>) -> Closest
        decreases self.objects.len() - self.next,
    {
        if self.next < self.objects.len() {
            self.spec_step(
                Answer::Leaf {
                    t: hit(
                        self.objects@[self.next as int],
                        self.best.t_min,
                        self.best.closest_so_far,
                    ),
                },
            ).spec_run(hit)
        } else {
            self.best
        }
    }

    /// What is to be found out next, or the result when nothing is left.
    pub fn query(&self) -> (r: Query)
        ensures
            r == self.spec_query(),
    {
        if self.next < self.objects.len() {
            Query::Leaf {
                object: self.objects[self.next],
                t_min: self.best.t_min,
                t_max: self.best.closest_so_far,
            }
        } else {
            Query::Done { rec: self.best.rec }
        }
    }

    /// Takes the answer to the last query and moves on.
    pub fn step(&mut self, answer: Answer)
        ensures
            *final(self) == old(self).spec_step(answer),
    {
        if self.next < self.objects.len() {
            match answer {
                Answer::Leaf { t } => {
                    let o = self.objects[self.next];
                    self.best.record(&o, t);
                    self.next = self.next + 1;
                },
                Answer::Box { hit } => {},
            }
        }
    }
}

/// A query that has tested a front part of the list and is run to its end
/// gives what testing the whole list in turn gives.
pub proof fn lemma_list_run_is_scan(
    scan: ListScan,
    start: Closest,
    hit: spec_fn(Object, i64, i64) -> Option<i64>,
)
    requires
        scan.next <= scan.objects.len(),
        scan.best == spec_scan(scan.objects@.take(scan.next as int), start, hit),
    ensures
        scan.spec_run(hit) == spec_scan(scan.objects@, start, hit),
    decreases scan.objects.len() - scan.next,
{
    let s = scan.objects@;
    if scan.next < scan.objects.len() {
        let k = scan.next as int;
        let t = hit(s[k], scan.best.t_min, scan.best.closest_so_far);
        let next = scan.spec_step(Answer::Leaf { t });
        assert(s.take(k + 1).drop_last() =~= s.take(k));
        assert(s.take(k + 1).last() == s[k]);
        lemma_list_run_is_scan(next, start, hit);
    } else {
        assert(s.take(scan.next as int) =~= s);
    }
}

} // verus!
