//! The bounding-volume hierarchy: a binary tree of boxes over scene objects.

use crate::aabb::{
    is_hull, lemma_encloses_transitive, lemma_hull_single, lemma_hull_union, lemma_hull_unique,
    lemma_union_encloses, spec_surrounding_box, surrounding_box, Aabb,
};
use crate::hittable::{all_bounded, lemma_same_members, Object};
use crate::hittable_list::{
    boxes_of, lemma_bounding_box_encloses, lemma_bounding_box_is_hull, spec_bounding_box,
    HittableList,
};
use crate::rtweekend::random_usize_range;
use vstd::prelude::*;

verus! {

/// The code by which an object is ordered along `axis`: the lower corner of
/// its box on that axis. An object without a box reaches everywhere and is
/// ordered before every other.
pub open spec fn sort_key(o: Object, axis: int) -> i64 {
    match o.bbox {
        Some(b) => b.minimum.axis(axis),
        None => i64::MIN,
    }
}

/// The keys along `axis` never decrease from front to back.
pub open spec fn sorted_on(s: Seq<Object>, axis: int) -> bool {
    forall|i: int, j: int| 0 <= i < j < s.len() ==> sort_key(s[i], axis) <= sort_key(s[j], axis)
}

/// The objects of `s` whose key along `axis` is `k`, in the order of `s`.
pub open spec fn with_key(s: Seq<Object>, axis: int, k: i64) -> Seq<Object> {
    s.filter(|o: Object| sort_key(o, axis) == k)
}

/// `s` with the neighbours at `j - 1` and `j` exchanged.
pub open spec fn swapped(s: Seq<Object>, j: int) -> Seq<Object> {
    s.update(j - 1, s[j]).update(j, s[j - 1])
}

/// Exchanging two neighbours with different keys rearranges the sequence
/// and keeps the objects of each key in their order.
proof fn lemma_swap_neighbours(s: Seq<Object>, j: int, axis: int)
    requires
        0 < j < s.len(),
        sort_key(s[j - 1], axis) != sort_key(s[j], axis),
    ensures
        swapped(s, j).to_multiset() == s.to_multiset(),
        forall|k: i64| #[trigger] with_key(swapped(s, j), axis, k) == with_key(s, axis, k),
{
    let t = swapped(s, j);
    let a = s.take(j - 1);
    let b = s.skip(j + 1);
    let x = s[j - 1];
    let y = s[j];
    assert(s =~= a.push(x).push(y) + b);
    assert(t =~= a.push(y).push(x) + b);
    assert forall|k: i64| #[trigger] with_key(t, axis, k) == with_key(s, axis, k) by {
        let pred = |o: Object| sort_key(o, axis) == k;
        Seq::filter_distributes_over_add(a.push(x).push(y), b, pred);
        Seq::filter_distributes_over_add(a.push(y).push(x), b, pred);
        a.push(x).lemma_filter_push(y, pred);
        a.lemma_filter_push(x, pred);
        a.push(y).lemma_filter_push(x, pred);
        a.lemma_filter_push(y, pred);
    }
    assert(t.to_multiset() == s.to_multiset()) by {
        vstd::seq_lib::lemma_multiset_commutative(a.push(x).push(y), b);
        vstd::seq_lib::lemma_multiset_commutative(a.push(y).push(x), b);
        vstd::seq_lib::to_multiset_build(a, x);
        vstd::seq_lib::to_multiset_build(a.push(x), y);
        vstd::seq_lib::to_multiset_build(a, y);
        vstd::seq_lib::to_multiset_build(a.push(y), x);
        assert(a.push(x).push(y).to_multiset() =~= a.push(y).push(x).to_multiset());
    }
}

/// Cutting a sorted sequence in two leaves every key of the front part at
/// most as large as every key of the back part, and the same holds of any
/// rearrangement of the two parts.
proof fn lemma_cut_in_order(
    sorted: Seq<Object>,
    mid: int,
    left: Seq<Object>,
    right: Seq<Object>,
    axis: int,
)
    requires
        0 <= mid <= sorted.len(),
        sorted_on(sorted, axis),
        left.to_multiset() == sorted.subrange(0, mid).to_multiset(),
        right.to_multiset() == sorted.subrange(mid, sorted.len() as int).to_multiset(),
    ensures
        BvhNode::in_order_on(left, right, axis),
        (left + right).to_multiset() == sorted.to_multiset(),
{
    let front = sorted.subrange(0, mid);
    let back = sorted.subrange(mid, sorted.len() as int);
    lemma_same_members(left, front);
    lemma_same_members(right, back);
    assert forall|i: int, j: int| 0 <= i < left.len() && 0 <= j < right.len() implies sort_key(
        left[i],
        axis,
    ) <= sort_key(right[j], axis) by {
        assert(front.contains(left[i]));
        assert(back.contains(right[j]));
        let a = choose|a: int| 0 <= a < front.len() && front[a] == left[i];
        let b = choose|b: int| 0 <= b < back.len() && back[b] == right[j];
        assert(front[a] == sorted[a]);
        assert(back[b] == sorted[mid + b]);
    }
    assert(sorted =~= front + back);
    vstd::seq_lib::lemma_multiset_commutative(front, back);
    vstd::seq_lib::lemma_multiset_commutative(left, right);
}

fn key_at(objects: &Vec<Object>, i: usize, axis: usize) -> (r: i64)
    requires
        i < objects.len(),
        axis < 3,
    ensures
        r == sort_key(objects[i as int], axis as int),
{
    match objects[i].bbox {
        Some(b) => b.minimum.index(axis),
        None => i64::MIN,
    }
}

/// Sorts the objects by the lower corner of their boxes along `axis`,
/// smallest first, objects without a box before all others. Objects with
/// equal keys keep their order.
pub fn sort_by_axis(objects: &mut Vec<Object>, axis: usize)
    requires
        axis < 3,
    ensures
        sorted_on(final(objects)@, axis as int),
        final(objects)@.to_multiset() == old(objects)@.to_multiset(),
        forall|k: i64| #[trigger]
            with_key(final(objects)@, axis as int, k) == with_key(old(objects)@, axis as int, k),
        final(objects)@.len() == old(objects)@.len(),
{
    let n = objects.len();
    let ghost ax = axis as int;
    let mut i: usize = 1;
    while i < n
        invariant
            objects.len() == n,
            1 <= i,
            axis < 3,
            ax == axis as int,
            forall|a: int, b: int|
                0 <= a < b < i && b < n ==> sort_key(objects@[a], ax) <= sort_key(objects@[b], ax),
            objects@.to_multiset() == old(objects)@.to_multiset(),
            forall|k: i64| #[trigger] with_key(objects@, ax, k) == with_key(old(objects)@, ax, k),
        decreases n - i,
    {
        let mut j: usize = i;
        while j > 0 && key_at(objects, j - 1, axis) > key_at(objects, j, axis)
            invariant
                objects.len() == n,
                j <= i < n,
                axis < 3,
                ax == axis as int,
                forall|a: int, b: int|
                    0 <= a < b <= i && a != j && b != j ==> sort_key(objects@[a], ax) <= sort_key(
                        objects@[b],
                        ax,
                    ),
                forall|b: int| j < b <= i ==> sort_key(objects@[j as int], ax) < sort_key(objects@[b], ax),
                objects@.to_multiset() == old(objects)@.to_multiset(),
                forall|k: i64| #[trigger] with_key(objects@, ax, k) == with_key(old(objects)@, ax, k),
            decreases j,
        {
            let ghost before = objects@;
            let lo = objects[j - 1];
            let hi = objects[j];
            objects.set(j - 1, hi);
            objects.set(j, lo);
            proof {
                assert(objects@ == swapped(before, j as int));
                lemma_swap_neighbours(before, j as int, ax);
            }
            j -= 1;
        }
        i += 1;
    }
}

/// What hangs below a node: a scene object, or another node.
#[derive(Debug)]
pub enum BvhChild {
    Leaf(Object),
    Node(Box<BvhNode>),
}

/// A node of the hierarchy. The left child is always there; the right one is
/// missing where the node wraps a single object. `box_0` bounds everything
/// below the node; there is none where something below cannot be bounded.
#[derive(Debug)]
pub struct BvhNode {
    pub left: BvhChild,
    pub right: Option<BvhChild>,
    pub box_0: Option<Aabb>,
}

impl BvhChild {
    /// The box that bounds the child, if it can be bounded.
    pub open spec fn bbox(self) -> Option<Aabb> {
        match self {
            BvhChild::Leaf(o) => o.bbox,
            BvhChild::Node(n) => n.box_0,
        }
    }

    /// Every node below carries the box that its children give it.
    pub open spec fn wf(self) -> bool
        decreases self,
    {
        match self {
            BvhChild::Leaf(o) => true,
            BvhChild::Node(n) => n.wf(),
        }
    }

    /// The objects below the child, left to right.
    pub open spec fn leaves(self) -> Seq<Object>
        decreases self,
    {
        match self {
            BvhChild::Leaf(o) => seq![o],
            BvhChild::Node(n) => n.leaves(),
        }
    }

    /// The number of nodes on the longest way down to an object.
    pub open spec fn height(self) -> nat
        decreases self,
    {
        match self {
            BvhChild::Leaf(o) => 0,
            BvhChild::Node(n) => n.height(),
        }
    }

    /// Below every node the objects are split as `BvhNode::median_split`
    /// says.
    pub open spec fn median_split(self) -> bool
        decreases self,
    {
        match self {
            BvhChild::Leaf(o) => true,
            BvhChild::Node(n) => n.median_split(),
        }
    }
}

impl BvhNode {
    /// The box that a node over these children must carry: the union of
    /// their boxes (the left child's box where there is no right child),
    /// and none where a child has none.
    pub open spec fn box_over(left: BvhChild, right: Option<BvhChild>) -> Option<Aabb> {
        match right {
            Some(r) => match (left.bbox(), r.bbox()) {
                (Some(a), Some(b)) => Some(spec_surrounding_box(a, b)),
                _ => None,
            },
            None => left.bbox(),
        }
    }

    /// Every node, this one included, carries the box that its children
    /// give it.
    pub open spec fn wf(self) -> bool
        decreases self,
    {
        &&& self.left.wf()
        &&& match self.right {
            Some(r) => r.wf(),
            None => true,
        }
        &&& self.box_0 == Self::box_over(self.left, self.right)
    }

    /// The objects below the node, left to right.
    pub open spec fn leaves(self) -> Seq<Object>
        decreases self,
    {
        match self.right {
            Some(r) => self.left.leaves() + r.leaves(),
            None => self.left.leaves(),
        }
    }

    /// The number of nodes on the longest way down to an object, this node
    /// included.
    pub open spec fn height(self) -> nat
        decreases self,
    {
        let l = self.left.height();
        match self.right {
            Some(r) => if l < r.height() {
                1 + r.height()
            } else {
                1 + l
            },
            None => 1 + l,
        }
    }

    /// The box that bounds everything below the node; none where
    /// something below cannot be bounded.
    pub fn bounding_box(&self) -> (r: Option<Aabb>)
        ensures
            r == self.box_0,
    {
        self.box_0
    }

    /// Along `axis` no object of `left` has a larger key than an object of
    /// `right`.
    pub open spec fn in_order_on(left: Seq<Object>, right: Seq<Object>, axis: int) -> bool {
        forall|i: int, j: int|
            0 <= i < left.len() && 0 <= j < right.len() ==> sort_key(left[i], axis) <= sort_key(
                right[j],
                axis,
            )
    }

    /// On one of the three axes no object of `left` has a larger key than an
    /// object of `right`.
    pub open spec fn halves_in_order(left: Seq<Object>, right: Seq<Object>) -> bool {
        Self::in_order_on(left, right, 0) || Self::in_order_on(left, right, 1) || Self::in_order_on(
            left,
            right,
            2,
        )
    }

    /// The shape that construction gives. A node without a right child wraps
    /// one object. A node over two objects holds them as leaves, the one
    /// with the larger key on some axis to the left. A node over more holds
    /// two nodes: the left one takes the smaller half of the objects on
    /// some axis (half the count, rounded down), the right one the rest,
    /// and both are split in the same way.
    pub open spec fn median_split(self) -> bool
        decreases self,
    {
        match self.right {
            None => self.left is Leaf,
            Some(r) => match (self.left, r) {
                (BvhChild::Leaf(a), BvhChild::Leaf(b)) => Self::halves_in_order(seq![b], seq![a]),
                (BvhChild::Node(a), BvhChild::Node(b)) => {
                    &&& a.median_split()
                    &&& b.median_split()
                    &&& a.leaves().len() + b.leaves().len() >= 3
                    &&& a.leaves().len() == (a.leaves().len() + b.leaves().len()) / 2
                    &&& Self::halves_in_order(a.leaves(), b.leaves())
                },
                _ => false,
            },
        }
    }

    /// A node over the given children, with the box that bounds them, if
    /// both can be bounded.
    pub fn new(left: BvhChild, right: Option<BvhChild>) -> (r: Self)
        ensures
            r.left == left,
            r.right == right,
            r.box_0 == Self::box_over(left, right),
            left.wf() && (right matches Some(c) ==> c.wf()) ==> r.wf(),
    {
        let box0 = Self::child_box(&left);
        let box_0 = match &right {
            Some(c) => match (box0, Self::child_box(c)) {
                (Some(a), Some(b)) => Some(surrounding_box(a, b)),
                _ => None,
            },
            None => box0,
        };
        BvhNode { left, right, box_0 }
    }

    /// Builds the hierarchy over the objects of a list.
    pub fn new_list(list: HittableList) -> (r: Self)
        requires
            list.objects@.len() > 0,
        ensures
            r.wf(),
            r.leaves().to_multiset() == list.objects@.to_multiset(),
            r.leaves().len() == list.objects@.len(),
            r.median_split(),
            r.box_0 == spec_bounding_box(list.objects@),
    {
        Self::new_vec(list.objects)
    }

    /// Builds the hierarchy over `objects`: every object becomes one leaf,
    /// every node carries the box of what is below it, and at every node the
    /// objects are split at the median along an axis drawn at random. The
    /// box at the root is the box of the list: there is none where an
    /// object has none.
    pub fn new_vec(objects: Vec<Object>) -> (r: Self)
        requires
            objects@.len() > 0,
        ensures
            r.wf(),
            r.leaves().to_multiset() == objects@.to_multiset(),
            r.leaves().len() == objects@.len(),
            r.median_split(),
            r.box_0 == spec_bounding_box(objects@),
        decreases objects@.len(),
    {
        let mut objects = objects;
        let ghost input = objects@;
        let axis = random_usize_range(0, 2);
        let object_span = objects.len();
        let node = if object_span == 1 {
            let l = objects.pop().unwrap();
            assert(input =~= seq![l]);
            Self::new(BvhChild::Leaf(l), None)
        } else if object_span == 2 {
            sort_by_axis(&mut objects, axis);
            let ghost sorted = objects@;
            let l = objects.pop().unwrap();
            let r = objects.pop().unwrap();
            proof {
                assert(sorted =~= seq![r] + seq![l]);
                assert(sorted.subrange(0, 1) =~= seq![r]);
                assert(sorted.subrange(1, 2) =~= seq![l]);
                lemma_cut_in_order(sorted, 1, seq![r], seq![l], axis as int);
                vstd::seq_lib::lemma_seq_union_to_multiset_commutative(seq![r], seq![l]);
            }
            Self::new(BvhChild::Leaf(l), Some(BvhChild::Leaf(r)))
        } else {
            sort_by_axis(&mut objects, axis);
            let ghost sorted = objects@;
            let mid = objects.len() / 2;
            let right_objects = objects.split_off(mid);
            let l = Self::new_vec(objects);
            let r = Self::new_vec(right_objects);
            proof {
                lemma_cut_in_order(sorted, mid as int, l.leaves(), r.leaves(), axis as int);
                lemma_same_members(l.leaves(), sorted.subrange(0, mid as int));
                lemma_same_members(r.leaves(), sorted.subrange(mid as int, sorted.len() as int));
            }
            Self::new(BvhChild::Node(Box::new(l)), Some(BvhChild::Node(Box::new(r))))
        };
        proof {
            lemma_root_box_is_list_box(node, input);
            lemma_same_members(node.leaves(), input);
        }
        node
    }

    fn child_box(child: &BvhChild) -> (r: Option<Aabb>)
        ensures
            r == child.bbox(),
    {
        match child {
            BvhChild::Leaf(o) => o.bbox,
            BvhChild::Node(n) => n.box_0,
        }
    }
}

/// In a well-formed tree a child has a box exactly when every object below
/// it has one.
pub proof fn lemma_child_box_iff_bounded(child: BvhChild)
    requires
        child.wf(),
    ensures
        child.bbox() is Some <==> all_bounded(child.leaves()),
    decreases child,
{
    match child {
        BvhChild::Leaf(o) => {
            assert(seq![o][0] == o);
        },
        BvhChild::Node(n) => {
            lemma_node_box_iff_bounded(*n);
        },
    }
}

/// In a well-formed tree a node has a box exactly when every object below
/// it has one.
pub proof fn lemma_node_box_iff_bounded(node: BvhNode)
    requires
        node.wf(),
    ensures
        node.box_0 is Some <==> all_bounded(node.leaves()),
    decreases node,
{
    lemma_child_box_iff_bounded(node.left);
    let l = node.left.leaves();
    match node.right {
        Some(r) => {
            lemma_child_box_iff_bounded(r);
            let s = node.leaves();
            if all_bounded(s) {
                assert forall|i: int| 0 <= i < l.len() implies (#[trigger] l[i]).bbox is Some by {
                    assert(s[i] == l[i]);
                }
                assert forall|i: int| 0 <= i < r.leaves().len() implies (
                #[trigger] r.leaves()[i]).bbox is Some by {
                    assert(s[l.len() + i] == r.leaves()[i]);
                }
            }
            if all_bounded(l) && all_bounded(r.leaves()) {
                assert forall|i: int| 0 <= i < s.len() implies (#[trigger] s[i]).bbox is Some by {
                    if i < l.len() {
                        assert(s[i] == l[i]);
                    } else {
                        assert(s[i] == r.leaves()[i - l.len()]);
                    }
                }
            }
        },
        None => {},
    }
}

/// In a well-formed tree the box of a child, where it has one, encloses
/// the box of every object below it.
pub proof fn lemma_child_encloses_leaves(child: BvhChild)
    requires
        child.wf(),
        child.bbox() is Some,
    ensures
        forall|i: int|
            0 <= i < child.leaves().len() ==> (#[trigger] child.leaves()[i]).bbox is Some
                && child.bbox().unwrap().encloses(child.leaves()[i].bbox.unwrap()),
    decreases child,
{
    match child {
        BvhChild::Leaf(o) => {},
        BvhChild::Node(n) => {
            lemma_node_encloses_leaves(*n);
        },
    }
}

/// In a well-formed tree the box of a node, where it has one, encloses the
/// box of every object below it.
pub proof fn lemma_node_encloses_leaves(node: BvhNode)
    requires
        node.wf(),
        node.box_0 is Some,
    ensures
        forall|i: int|
            0 <= i < node.leaves().len() ==> (#[trigger] node.leaves()[i]).bbox is Some
                && node.box_0.unwrap().encloses(node.leaves()[i].bbox.unwrap()),
    decreases node,
{
    lemma_child_encloses_leaves(node.left);
    let l = node.left.leaves();
    let b = node.box_0.unwrap();
    match node.right {
        Some(r) => {
            lemma_child_encloses_leaves(r);
            lemma_union_encloses(node.left.bbox().unwrap(), r.bbox().unwrap());
            assert forall|i: int| 0 <= i < node.leaves().len() implies (
            #[trigger] node.leaves()[i]).bbox is Some && b.encloses(
                node.leaves()[i].bbox.unwrap(),
            ) by {
                if i < l.len() {
                    assert(node.leaves()[i] == l[i]);
                    lemma_encloses_transitive(
                        b,
                        node.left.bbox().unwrap(),
                        l[i].bbox.unwrap(),
                    );
                } else {
                    assert(node.leaves()[i] == r.leaves()[i - l.len()]);
                    lemma_encloses_transitive(
                        b,
                        r.bbox().unwrap(),
                        r.leaves()[i - l.len()].bbox.unwrap(),
                    );
                }
            }
        },
        None => {},
    }
}

/// In a well-formed tree the box of a child, where it has one, is the
/// smallest box around the boxes of the objects below it.
pub proof fn lemma_child_box_is_hull(child: BvhChild)
    requires
        child.wf(),
        child.bbox() is Some,
    ensures
        is_hull(child.bbox().unwrap(), boxes_of(child.leaves())),
    decreases child,
{
    match child {
        BvhChild::Leaf(o) => {
            lemma_hull_single(o.bbox.unwrap());
            assert(boxes_of(seq![o]) =~= seq![o.bbox.unwrap()]);
        },
        BvhChild::Node(n) => {
            lemma_node_box_is_hull(*n);
        },
    }
}

/// In a well-formed tree the box of a node, where it has one, is the
/// smallest box around the boxes of the objects below it.
pub proof fn lemma_node_box_is_hull(node: BvhNode)
    requires
        node.wf(),
        node.box_0 is Some,
    ensures
        is_hull(node.box_0.unwrap(), boxes_of(node.leaves())),
    decreases node,
{
    lemma_child_box_is_hull(node.left);
    match node.right {
        Some(r) => {
            lemma_child_box_is_hull(r);
            lemma_hull_union(
                node.left.bbox().unwrap(),
                r.bbox().unwrap(),
                boxes_of(node.left.leaves()),
                boxes_of(r.leaves()),
            );
            assert(boxes_of(node.left.leaves() + r.leaves()) =~= boxes_of(node.left.leaves())
                + boxes_of(r.leaves()));
        },
        None => {},
    }
}

/// The box at the root of a hierarchy is the box of the list of the objects
/// that it was built over, in whatever order the list holds them; neither
/// has a box where an object has none.
pub proof fn lemma_root_box_is_list_box(root: BvhNode, list: Seq<Object>)
    requires
        root.wf(),
        root.leaves().to_multiset() == list.to_multiset(),
    ensures
        spec_bounding_box(list) == root.box_0,
{
    let leaves = root.leaves();
    lemma_node_box_iff_bounded(root);
    lemma_same_members(list, leaves);
    lemma_same_members(leaves, list);
    assert(leaves.len() > 0) by {
        lemma_leaves_nonempty(BvhChild::Node(Box::new(root)));
    }
    lemma_bounding_box_encloses(list);
    if root.box_0 is Some {
        lemma_node_box_is_hull(root);
        lemma_bounding_box_is_hull(list);
        let b1 = boxes_of(leaves);
        let b2 = boxes_of(list);
        assert forall|i: int| 0 <= i < b1.len() implies b2.contains(#[trigger] b1[i]) by {
            assert(list.contains(leaves[i]));
            let k = choose|k: int| 0 <= k < list.len() && list[k] == leaves[i];
            assert(b2[k] == b1[i]);
        }
        assert forall|i: int| 0 <= i < b2.len() implies b1.contains(#[trigger] b2[i]) by {
            assert(leaves.contains(list[i]));
            let k = choose|k: int| 0 <= k < leaves.len() && leaves[k] == list[i];
            assert(b1[k] == b2[i]);
        }
        lemma_hull_unique(root.box_0.unwrap(), spec_bounding_box(list).unwrap(), b1, b2);
    }
}

/// Below every child there is at least one object.
pub proof fn lemma_leaves_nonempty(child: BvhChild)
    ensures
        child.leaves().len() > 0,
    decreases child,
{
    match child {
        BvhChild::Leaf(o) => {},
        BvhChild::Node(n) => {
            lemma_leaves_nonempty(n.left);
        },
    }
}

/// Two to the power `n`.
pub open spec fn pow2(n: nat) -> nat
    decreases n,
{
    if n == 0 {
        1
    } else {
        2 * pow2((n - 1) as nat)
    }
}

/// A hierarchy that is split at the median is balanced: over one object it
/// is one node high, and over `n` objects, `n` at least two, its height `h`
/// is so small that two to the power `h - 1` is still below `n`. So the
/// height grows with the logarithm of the number of objects.
pub proof fn lemma_median_split_is_balanced(node: BvhNode)
    requires
        node.median_split(),
    ensures
        node.height() >= 1,
        node.leaves().len() >= 1,
        node.leaves().len() == 1 ==> node.height() == 1,
        node.leaves().len() >= 2 ==> pow2((node.height() - 1) as nat) < node.leaves().len(),
    decreases node,
{
    match node.right {
        None => {},
        Some(r) => match (node.left, r) {
            (BvhChild::Leaf(a), BvhChild::Leaf(b)) => {
                assert(pow2(0) == 1);
            },
            (BvhChild::Node(a), BvhChild::Node(b)) => {
                lemma_median_split_is_balanced(*a);
                lemma_median_split_is_balanced(*b);
                let n = node.leaves().len();
                let la = a.leaves().len();
                let lb = b.leaves().len();
                assert(n == la + lb);
                assert(pow2(1) == 2) by {
                    assert(pow2(1) == 2 * pow2(0));
                }
                // each half holds at most half of the objects, rounded up
                assert(2 * la <= n + 1 && 2 * lb <= n + 1);
                assert(2 * pow2((a.height() - 1) as nat) < n) by {
                    if la >= 2 {
                        assert(pow2((a.height() - 1) as nat) + 1 <= la);
                    } else {
                        assert(pow2(0) == 1);
                    }
                }
                assert(2 * pow2((b.height() - 1) as nat) < n) by {
                    if lb >= 2 {
                        assert(pow2((b.height() - 1) as nat) + 1 <= lb);
                    } else {
                        assert(pow2(0) == 1);
                    }
                }
                assert(pow2(a.height()) == 2 * pow2((a.height() - 1) as nat));
                assert(pow2(b.height()) == 2 * pow2((b.height() - 1) as nat));
            },
            _ => {},
        },
    }
}

} // verus!
