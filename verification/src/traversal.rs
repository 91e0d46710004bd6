//! Closest-hit queries against the hierarchy.
//!
//! A query walks the tree from the root. At a node it asks whether the ray
//! passes through the node's box in the window that is left; if not,
//! everything below the node is skipped. Otherwise the left child is looked
//! at, then the right one, in the window that the hits found so far have
//! left. At a leaf it asks for the object's hit in that window and keeps it
//! if there is one. A node without a box is not asked about: its children
//! are looked at in any case.

use crate::aabb::Aabb;
use crate::bvh::{lemma_node_encloses_leaves, BvhChild, BvhNode};
use crate::hittable_list::{lemma_list_run_is_scan, ListScan};
use crate::hittable::{
    first_hits, is_nearest, lemma_nearest_of_rearranged, lemma_scan_finds_nearest, spec_scan,
    Answer, Closest, Object, Query,
};
use vstd::prelude::*;

verus! {

/// A child that is still to be looked at.
#[derive(Clone, Copy, Debug)]
pub enum Pending<'a> {
    Node(&'a BvhNode),
    Leaf(Object),
}

/// A query in progress: the children still to be looked at, the next one
/// last, and the closest hit so far.
#[derive(Debug)]
pub struct Traversal<'a> {
    pub stack: Vec<Pending<'a>>,
    pub best: Closest,
}

/// The state of a query as the contracts speak of it.
pub struct TraversalState<'a> {
    pub stack: Seq<Pending<'a>>,
    pub best: Closest,
}

/// `child` as an entry of the stack.
pub open spec fn spec_pending<'a>(child: &'a BvhChild) -> Pending<'a> {
    match child {
        BvhChild::Leaf(o) => Pending::Leaf(*o),
        BvhChild::Node(n) => Pending::Node(&**n),
    }
}

impl BvhChild {
    /// The state in which a query leaves the child when it reaches it in
    /// the state `st`, where `box_hit` and `leaf_hit` say what the tests
    /// give.
    pub open spec fn spec_hit(
        self,
        st: Closest,
        box_hit: spec_fn(Aabb, i64, i64) -> bool,
        leaf_hit: spec_fn(Object, i64, i64) -> Option<i64>,
    ) -> Closest
        decreases self,
    {
        match self {
            BvhChild::Leaf(o) => st.spec_record(o, leaf_hit(o, st.t_min, st.closest_so_far)),
            BvhChild::Node(n) => n.spec_hit(st, box_hit, leaf_hit),
        }
    }

    /// The number of nodes and leaves of the child.
    pub open spec fn size(self) -> nat
        decreases self,
    {
        match self {
            BvhChild::Leaf(o) => 1,
            BvhChild::Node(n) => n.size(),
        }
    }
}

impl BvhNode {
    /// The state in which a query leaves the node when it reaches it in the
    /// state `st`: unchanged where the ray misses the node's box, else what
    /// the left child and then the right child make of it. A node without
    /// a box hides nothing: its children are always looked at.
    pub open spec fn spec_hit(
        self,
        st: Closest,
        box_hit: spec_fn(Aabb, i64, i64) -> bool,
        leaf_hit: spec_fn(Object, i64, i64) -> Option<i64>,
    ) -> Closest
        decreases self,
    {
        if self.box_0 matches Some(b) && !box_hit(b, st.t_min, st.closest_so_far) {
            st
        } else {
            let s1 = self.left.spec_hit(st, box_hit, leaf_hit);
            match self.right {
                Some(r) => r.spec_hit(s1, box_hit, leaf_hit),
                None => s1,
            }
        }
    }

    /// The number of nodes and leaves from this node down.
    pub open spec fn size(self) -> nat
        decreases self,
    {
        1 + self.left.size() + match self.right {
            Some(r) => r.size(),
            None => 0,
        }
    }

    /// Begins a query for the closest hit between `t_min` and `t_max`.
    pub fn hit<'a>(&'a self, t_min: i64, t_max: i64) -> (r: Traversal<'a>)
        ensures
            r.state() == (TraversalState {
                stack: seq![Pending::Node(self)],
                best: Closest { t_min, closest_so_far: t_max, rec: None },
            }),
    {
        let mut stack: Vec<Pending<'a>> = Vec::new();
        stack.push(Pending::Node(self));
        Traversal { stack, best: Closest::new(t_min, t_max) }
    }
}

impl<'a> Pending<'a> {
    /// What a query makes of the state `st` when it looks at this entry.
    pub open spec fn spec_hit(
        self,
        st: Closest,
        box_hit: spec_fn(Aabb, i64, i64) -> bool,
        leaf_hit: spec_fn(Object, i64, i64) -> Option<i64>,
    ) -> Closest {
        match self {
            Pending::Leaf(o) => st.spec_record(o, leaf_hit(o, st.t_min, st.closest_so_far)),
            Pending::Node(n) => n.spec_hit(st, box_hit, leaf_hit),
        }
    }

    pub open spec fn size(self) -> nat {
        match self {
            Pending::Leaf(o) => 1,
            Pending::Node(n) => n.size(),
        }
    }

    /// The entry is a node without a box: there is nothing to ask about
    /// it, and its children take its place.
    pub open spec fn is_open(self) -> bool {
        match self {
            Pending::Leaf(o) => false,
            Pending::Node(n) => n.box_0 is None,
        }
    }
}

/// `rest` with the children of `n` on top, the left one last.
pub open spec fn spec_expand<'a>(rest: Seq<Pending<'a>>, n: &'a BvhNode) -> Seq<Pending<'a>> {
    match &n.right {
        Some(r) => rest.push(spec_pending(r)).push(spec_pending(&n.left)),
        None => rest.push(spec_pending(&n.left)),
    }
}

/// The nodes and leaves that a stack still holds, below its entries too.
pub open spec fn stack_size(stack: Seq<Pending>) -> nat
    decreases stack.len(),
{
    if stack.len() == 0 {
        0
    } else {
        stack_size(stack.drop_last()) + stack.last().size()
    }
}

/// The stack with the nodes without a box taken off its top: as long as
/// the last entry is such a node, its children take its place.
pub open spec fn spec_settle<'a>(stack: Seq<Pending<'a>>) -> Seq<Pending<'a>>
    decreases stack_size(stack),
{
    if stack.len() == 0 {
        stack
    } else {
        match stack.last() {
            Pending::Leaf(o) => stack,
            Pending::Node(n) => if n.box_0 is None {
                proof {
                    lemma_expand_shrinks(stack.drop_last(), n);
                }
                spec_settle(spec_expand(stack.drop_last(), n))
            } else {
                stack
            },
        }
    }
}

impl<'a> TraversalState<'a> {
    /// What the query asks in this state: about the entry that is on top
    /// once the nodes without a box are taken off.
    pub open spec fn spec_query(self) -> Query {
        let stack = spec_settle(self.stack);
        if stack.len() == 0 {
            Query::Done { rec: self.best.rec }
        } else {
            match stack.last() {
                Pending::Node(n) => Query::Box {
                    bbox: n.box_0.unwrap(),
                    t_min: self.best.t_min,
                    t_max: self.best.closest_so_far,
                },
                Pending::Leaf(o) => Query::Leaf {
                    object: o,
                    t_min: self.best.t_min,
                    t_max: self.best.closest_so_far,
                },
            }
        }
    }

    /// The state after `answer` was given to what this state asks. The
    /// nodes without a box are taken off the top first. An answer of the
    /// wrong kind, or one given when nothing is asked, changes nothing
    /// more.
    pub open spec fn spec_step(self, answer: Answer) -> TraversalState<'a> {
        let stack = spec_settle(self.stack);
        if stack.len() == 0 {
            TraversalState { stack, best: self.best }
        } else {
            let rest = stack.drop_last();
            match (stack.last(), answer) {
                (Pending::Leaf(o), Answer::Leaf { t }) => TraversalState {
                    stack: rest,
                    best: self.best.spec_record(o, t),
                },
                (Pending::Node(n), Answer::Box { hit }) => if hit {
                    TraversalState { stack: spec_expand(rest, n), best: self.best }
                } else {
                    TraversalState { stack: rest, best: self.best }
                },
                _ => TraversalState { stack, best: self.best },
            }
        }
    }

    /// The answer that `box_hit` and `leaf_hit` give to what this state
    /// asks.
    pub open spec fn spec_answer(
        self,
        box_hit: spec_fn(Aabb, i64, i64) -> bool,
        leaf_hit: spec_fn(Object, i64, i64) -> Option<i64>,
    ) -> Answer {
        match spec_settle(self.stack).last() {
            Pending::Node(n) => Answer::Box {
                hit: box_hit(n.box_0.unwrap(), self.best.t_min, self.best.closest_so_far),
            },
            Pending::Leaf(o) => Answer::Leaf {
                t: leaf_hit(o, self.best.t_min, self.best.closest_so_far),
            },
        }
    }

    /// The state in which the query ends when every question is answered
    /// as `box_hit` and `leaf_hit` say.
    pub open spec fn spec_run(
        self,
        box_hit: spec_fn(Aabb, i64, i64) -> bool,
        leaf_hit: spec_fn(Object, i64, i64) -> Option<i64>,
    ) -> Closest
        decreases stack_size(self.stack),
    {
        if self.stack.len() == 0 {
            self.best
        } else {
            proof {
                lemma_step_shrinks(self, self.spec_answer(box_hit, leaf_hit));
            }
            self.spec_step(self.spec_answer(box_hit, leaf_hit)).spec_run(box_hit, leaf_hit)
        }
    }
}

fn pending_of<'a>(child: &'a BvhChild) -> (r: Pending<'a>)
    ensures
        r == spec_pending(child),
{
    match child {
        BvhChild::Leaf(o) => Pending::Leaf(*o),
        BvhChild::Node(n) => Pending::Node(&**n),
    }
}

fn is_open(entry: &Pending) -> (r: bool)
    ensures
        r == entry.is_open(),
{
    match entry {
        Pending::Leaf(_) => false,
        Pending::Node(n) => n.box_0.is_none(),
    }
}

fn top_is_open(stack: &Vec<Pending>) -> (r: bool)
    ensures
        r == (stack@.len() > 0 && stack@.last().is_open()),
{
    let n = stack.len();
    n > 0 && is_open(&stack[n - 1])
}

/// Puts the children of `node` on the stack, the left one last.
fn expand<'a>(stack: &mut Vec<Pending<'a>>, node: &'a BvhNode)
    ensures
        final(stack)@ == spec_expand(old(stack)@, node),
{
    match &node.right {
        Some(r) => {
            stack.push(pending_of(r));
        },
        None => {},
    }
    stack.push(pending_of(&node.left));
}

/// Takes the nodes without a box off the top of the stack.
fn settle<'a>(stack: &mut Vec<Pending<'a>>)
    ensures
        final(stack)@ == spec_settle(old(stack)@),
{
    while top_is_open(stack)
        invariant
            spec_settle(stack@) == spec_settle(old(stack)@),
        decreases stack_size(stack@),
    {
        let ghost before = stack@;
        let top = stack.pop();
        match top {
            Some(Pending::Node(node)) => {
                proof {
                    lemma_expand_shrinks(before.drop_last(), node);
                }
                expand(stack, node);
            },
            _ => {},
        }
    }
}

impl<'a> Traversal<'a> {
    pub open spec fn state(self) -> TraversalState<'a> {
        TraversalState { stack: self.stack@, best: self.best }
    }

    /// What is to be found out next, or the result when nothing is left.
    pub fn query(&self) -> (r: Query)
        ensures
            r == self.state().spec_query(),
    {
        let n = self.stack.len();
        if n == 0 {
            return Query::Done { rec: self.best.rec };
        }
        let mut top = self.stack[n - 1];
        proof {
            assert(self.stack@.drop_last().push(top) =~= self.stack@);
            lemma_settle_top(self.stack@.drop_last(), top);
            lemma_settle_top(Seq::empty(), top);
        }
        while is_open(&top)
            invariant
                spec_settle(self.stack@).len() > 0,
                spec_settle(seq![top]).len() > 0,
                spec_settle(seq![top]).last() == spec_settle(self.stack@).last(),
            decreases top.size(),
        {
            match top {
                Pending::Node(node) => {
                    proof {
                        lemma_sizes(&node.left);
                        assert(seq![top].drop_last() =~= Seq::<Pending>::empty());
                        lemma_settle_top(
                            spec_expand(Seq::empty(), node).drop_last(),
                            spec_pending(&node.left),
                        );
                        lemma_settle_top(Seq::empty(), spec_pending(&node.left));
                        assert(spec_expand(Seq::empty(), node).drop_last().push(
                            spec_pending(&node.left),
                        ) =~= spec_expand(Seq::empty(), node));
                    }
                    top = pending_of(&node.left);
                },
                Pending::Leaf(_) => {},
            }
        }
        assert(spec_settle(seq![top]) == seq![top]);
        match top {
            Pending::Node(node) => Query::Box {
                bbox: node.box_0.unwrap(),
                t_min: self.best.t_min,
                t_max: self.best.closest_so_far,
            },
            Pending::Leaf(o) => Query::Leaf {
                object: o,
                t_min: self.best.t_min,
                t_max: self.best.closest_so_far,
            },
        }
    }

    /// Takes the answer to the last query and moves on.
    pub fn step(&mut self, answer: Answer)
        ensures
            final(self).state() == old(self).state().spec_step(answer),
    {
        settle(&mut self.stack);
        let n = self.stack.len();
        if n == 0 {
            return ;
        }
        let top = self.stack[n - 1];
        match (top, answer) {
            (Pending::Leaf(o), Answer::Leaf { t }) => {
                self.stack.pop();
                self.best.record(&o, t);
            },
            (Pending::Node(node), Answer::Box { hit }) => {
                self.stack.pop();
                if hit {
                    expand(&mut self.stack, node);
                }
            },
            _ => {},
        }
    }
}

/// What a query makes of the state `best` when it works off `stack`, the
/// last entry first.
pub open spec fn spec_unwind(
    stack: Seq<Pending>,
    best: Closest,
    box_hit: spec_fn(Aabb, i64, i64) -> bool,
    leaf_hit: spec_fn(Object, i64, i64) -> Option<i64>,
) -> Closest
    decreases stack.len(),
{
    if stack.len() == 0 {
        best
    } else {
        spec_unwind(
            stack.drop_last(),
            stack.last().spec_hit(best, box_hit, leaf_hit),
            box_hit,
            leaf_hit,
        )
    }
}

/// A box that the ray misses holds no object that the ray hits: where an
/// object is hit in a window, the ray passes in that window through every
/// box that encloses the object's box.
pub open spec fn sound_boxes(
    box_hit: spec_fn(Aabb, i64, i64) -> bool,
    leaf_hit: spec_fn(Object, i64, i64) -> Option<i64>,
) -> bool {
    forall|outer: Aabb, o: Object, a: i64, b: i64|
        #![trigger box_hit(outer, a, b), leaf_hit(o, a, b)]
        o.bbox is Some && outer.encloses(o.bbox.unwrap()) && leaf_hit(o, a, b) is Some ==> box_hit(
            outer,
            a,
            b,
        )
}

proof fn lemma_sizes(child: &BvhChild)
    ensures
        spec_pending(child).size() == child.size(),
        child.size() >= 1,
    decreases child,
{
    match child {
        BvhChild::Leaf(o) => {},
        BvhChild::Node(n) => {},
    }
}

proof fn lemma_stack_push(stack: Seq<Pending>, x: Pending)
    ensures
        stack_size(stack.push(x)) == stack_size(stack) + x.size(),
{
    assert(stack.push(x).drop_last() =~= stack);
}

/// The children of a node, put in its place, hold one node less.
pub proof fn lemma_expand_shrinks(rest: Seq<Pending>, n: &BvhNode)
    ensures
        stack_size(spec_expand(rest, n)) + 1 == stack_size(rest.push(Pending::Node(n))),
        stack_size(spec_expand(rest, n)) + 1 == stack_size(rest) + n.size(),
{
    lemma_sizes(&n.left);
    lemma_stack_push(rest, Pending::Node(n));
    match &n.right {
        Some(r) => {
            lemma_sizes(r);
            lemma_stack_push(rest, spec_pending(r));
            lemma_stack_push(rest.push(spec_pending(r)), spec_pending(&n.left));
        },
        None => {
            lemma_stack_push(rest, spec_pending(&n.left));
        },
    }
}

/// Taking the nodes without a box off the top touches the top entry only,
/// leaves at least one entry in its place, and ends with an entry that is
/// no such node.
proof fn lemma_settle_top(rest: Seq<Pending>, top: Pending)
    ensures
        spec_settle(rest.push(top)) == rest + spec_settle(seq![top]),
        spec_settle(seq![top]).len() > 0,
        !spec_settle(seq![top]).last().is_open(),
        !top.is_open() ==> spec_settle(seq![top]) == seq![top],
        stack_size(spec_settle(seq![top])) <= top.size(),
    decreases top.size(),
{
    let e = Seq::<Pending>::empty();
    assert(rest.push(top).drop_last() =~= rest);
    assert(seq![top].drop_last() =~= e);
    assert(seq![top] =~= e.push(top));
    lemma_stack_push(e, top);
    if top.is_open() {
        match top {
            Pending::Leaf(o) => {},
            Pending::Node(n) => {
                let l = spec_pending(&n.left);
                lemma_sizes(&n.left);
                lemma_expand_shrinks(rest, n);
                lemma_expand_shrinks(e, n);
                match &n.right {
                    Some(r) => {
                        let rp = spec_pending(r);
                        lemma_sizes(r);
                        lemma_settle_top(rest.push(rp), l);
                        lemma_settle_top(e.push(rp), l);
                        assert(rest.push(rp) + spec_settle(seq![l]) =~= rest + (e.push(rp)
                            + spec_settle(seq![l])));
                        lemma_stack_concat(e.push(rp), spec_settle(seq![l]));
                        lemma_stack_push(e, rp);
                    },
                    None => {
                        lemma_settle_top(rest, l);
                        lemma_settle_top(e, l);
                        assert(e + spec_settle(seq![l]) =~= spec_settle(seq![l]));
                    },
                }
            },
        }
    } else {
        assert(rest + seq![top] =~= rest.push(top));
    }
}

/// The size of two stacks, one on the other, is the sum of their sizes.
proof fn lemma_stack_concat(a: Seq<Pending>, b: Seq<Pending>)
    ensures
        stack_size(a + b) == stack_size(a) + stack_size(b),
    decreases b.len(),
{
    if b.len() == 0 {
        assert(a + b =~= a);
    } else {
        assert((a + b).drop_last() =~= a + b.drop_last());
        lemma_stack_concat(a, b.drop_last());
    }
}

/// Taking the nodes without a box off the top leaves something on a stack
/// that held something, adds nothing to what the stack holds, and ends
/// with an entry that is no such node.
pub proof fn lemma_settle(stack: Seq<Pending>)
    ensures
        spec_settle(stack).len() > 0 <==> stack.len() > 0,
        stack_size(spec_settle(stack)) <= stack_size(stack),
        stack.len() > 0 ==> !spec_settle(stack).last().is_open(),
{
    if stack.len() > 0 {
        let rest = stack.drop_last();
        let top = stack.last();
        assert(rest.push(top) =~= stack);
        lemma_settle_top(rest, top);
        lemma_stack_concat(rest, spec_settle(seq![top]));
    }
}

/// An answer of the right kind takes an entry off the stack and puts back
/// at most what was below it.
pub proof fn lemma_step_shrinks(st: TraversalState, answer: Answer)
    requires
        st.stack.len() > 0,
        spec_settle(st.stack).last() is Node <==> answer is Box,
    ensures
        stack_size(st.spec_step(answer).stack) < stack_size(st.stack),
{
    lemma_settle(st.stack);
    let stack = spec_settle(st.stack);
    let rest = stack.drop_last();
    assert(rest.push(stack.last()) =~= stack);
    lemma_stack_push(rest, stack.last());
    match (stack.last(), answer) {
        (Pending::Node(n), Answer::Box { hit }) => {
            lemma_expand_shrinks(rest, n);
        },
        _ => {},
    }
}

proof fn lemma_pending_hit(
    child: &BvhChild,
    st: Closest,
    box_hit: spec_fn(Aabb, i64, i64) -> bool,
    leaf_hit: spec_fn(Object, i64, i64) -> Option<i64>,
)
    ensures
        spec_pending(child).spec_hit(st, box_hit, leaf_hit) == child.spec_hit(st, box_hit, leaf_hit),
{
    match child {
        BvhChild::Leaf(o) => {},
        BvhChild::Node(n) => {},
    }
}

proof fn lemma_unwind_push(
    stack: Seq<Pending>,
    x: Pending,
    best: Closest,
    box_hit: spec_fn(Aabb, i64, i64) -> bool,
    leaf_hit: spec_fn(Object, i64, i64) -> Option<i64>,
)
    ensures
        spec_unwind(stack.push(x), best, box_hit, leaf_hit) == spec_unwind(
            stack,
            x.spec_hit(best, box_hit, leaf_hit),
            box_hit,
            leaf_hit,
        ),
{
    assert(stack.push(x).drop_last() =~= stack);
}

/// What the children of a node make of a state, one after the other.
pub open spec fn spec_below(
    n: &BvhNode,
    st: Closest,
    box_hit: spec_fn(Aabb, i64, i64) -> bool,
    leaf_hit: spec_fn(Object, i64, i64) -> Option<i64>,
) -> Closest {
    let s1 = n.left.spec_hit(st, box_hit, leaf_hit);
    match n.right {
        Some(r) => r.spec_hit(s1, box_hit, leaf_hit),
        None => s1,
    }
}

/// Working off the children of a node, put in its place, is looking at
/// the left child and then at the right one.
proof fn lemma_unwind_expand(
    rest: Seq<Pending>,
    n: &BvhNode,
    best: Closest,
    box_hit: spec_fn(Aabb, i64, i64) -> bool,
    leaf_hit: spec_fn(Object, i64, i64) -> Option<i64>,
)
    ensures
        spec_unwind(spec_expand(rest, n), best, box_hit, leaf_hit) == spec_unwind(
            rest,
            spec_below(n, best, box_hit, leaf_hit),
            box_hit,
            leaf_hit,
        ),
{
    lemma_pending_hit(&n.left, best, box_hit, leaf_hit);
    let s1 = n.left.spec_hit(best, box_hit, leaf_hit);
    match &n.right {
        Some(r) => {
            lemma_pending_hit(r, s1, box_hit, leaf_hit);
            lemma_unwind_push(
                rest.push(spec_pending(r)),
                spec_pending(&n.left),
                best,
                box_hit,
                leaf_hit,
            );
            lemma_unwind_push(rest, spec_pending(r), s1, box_hit, leaf_hit);
        },
        None => {
            lemma_unwind_push(rest, spec_pending(&n.left), best, box_hit, leaf_hit);
        },
    }
}

/// Taking the nodes without a box off the top changes nothing in what the
/// query finds.
proof fn lemma_unwind_settle(
    stack: Seq<Pending>,
    best: Closest,
    box_hit: spec_fn(Aabb, i64, i64) -> bool,
    leaf_hit: spec_fn(Object, i64, i64) -> Option<i64>,
)
    ensures
        spec_unwind(spec_settle(stack), best, box_hit, leaf_hit) == spec_unwind(
            stack,
            best,
            box_hit,
            leaf_hit,
        ),
    decreases stack_size(stack),
{
    if stack.len() > 0 {
        match stack.last() {
            Pending::Leaf(o) => {},
            Pending::Node(n) => {
                if n.box_0 is None {
                    let rest = stack.drop_last();
                    lemma_expand_shrinks(rest, n);
                    assert(rest.push(Pending::Node(n)) =~= stack);
                    lemma_unwind_expand(rest, n, best, box_hit, leaf_hit);
                    lemma_unwind_settle(spec_expand(rest, n), best, box_hit, leaf_hit);
                }
            },
        }
    }
}

/// Answering the questions one by one gives what looking at the pending
/// children in turn gives.
pub proof fn lemma_run_unwinds(
    st: TraversalState,
    box_hit: spec_fn(Aabb, i64, i64) -> bool,
    leaf_hit: spec_fn(Object, i64, i64) -> Option<i64>,
)
    ensures
        st.spec_run(box_hit, leaf_hit) == spec_unwind(st.stack, st.best, box_hit, leaf_hit),
    decreases stack_size(st.stack),
{
    if st.stack.len() > 0 {
        let answer = st.spec_answer(box_hit, leaf_hit);
        let next = st.spec_step(answer);
        lemma_settle(st.stack);
        lemma_step_shrinks(st, answer);
        lemma_run_unwinds(next, box_hit, leaf_hit);
        lemma_unwind_settle(st.stack, st.best, box_hit, leaf_hit);
        let stack = spec_settle(st.stack);
        let rest = stack.drop_last();
        match stack.last() {
            Pending::Leaf(o) => {},
            Pending::Node(n) => {
                if box_hit(n.box_0.unwrap(), st.best.t_min, st.best.closest_so_far) {
                    lemma_unwind_expand(rest, n, st.best, box_hit, leaf_hit);
                }
            },
        }
    }
}

/// A query that is run to its end from the root gives what the recursive
/// description of the walk gives.
pub proof fn lemma_query_walks_tree(
    root: &BvhNode,
    t_min: i64,
    t_max: i64,
    box_hit: spec_fn(Aabb, i64, i64) -> bool,
    leaf_hit: spec_fn(Object, i64, i64) -> Option<i64>,
)
    ensures
        (TraversalState {
            stack: seq![Pending::Node(root)],
            best: Closest { t_min, closest_so_far: t_max, rec: None },
        }).spec_run(box_hit, leaf_hit) == root.spec_hit(
            Closest { t_min, closest_so_far: t_max, rec: None },
            box_hit,
            leaf_hit,
        ),
{
    let best = Closest { t_min, closest_so_far: t_max, rec: None };
    let st = TraversalState { stack: seq![Pending::Node(root)], best };
    lemma_run_unwinds(st, box_hit, leaf_hit);
    assert(st.stack.drop_last() =~= Seq::<Pending>::empty());
    assert(spec_unwind(st.stack, best, box_hit, leaf_hit) == spec_unwind(
        st.stack.drop_last(),
        st.stack.last().spec_hit(best, box_hit, leaf_hit),
        box_hit,
        leaf_hit,
    ));
}

/// Testing `a` and then `b` is testing `a + b`.
pub proof fn lemma_scan_concat(
    a: Seq<Object>,
    b: Seq<Object>,
    st: Closest,
    hit: spec_fn(Object, i64, i64) -> Option<i64>,
)
    ensures
        spec_scan(a + b, st, hit) == spec_scan(b, spec_scan(a, st, hit), hit),
    decreases b.len(),
{
    if b.len() == 0 {
        assert(a + b =~= a);
    } else {
        assert((a + b).drop_last() =~= a + b.drop_last());
        lemma_scan_concat(a, b.drop_last(), st, hit);
    }
}

/// Objects that are all missed leave the state as it was.
proof fn lemma_scan_all_missed(
    s: Seq<Object>,
    st: Closest,
    hit: spec_fn(Object, i64, i64) -> Option<i64>,
)
    requires
        forall|i: int| 0 <= i < s.len() ==> hit(#[trigger] s[i], st.t_min, st.closest_so_far) is None,
    ensures
        spec_scan(s, st, hit) == st,
    decreases s.len(),
{
    if s.len() > 0 {
        assert(forall|i: int| 0 <= i < s.len() - 1 ==> s.drop_last()[i] == s[i]);
        lemma_scan_all_missed(s.drop_last(), st, hit);
    }
}

/// With boxes that hide no hit, walking below a child gives exactly what
/// testing the objects below it from left to right gives.
pub proof fn lemma_child_hit_is_scan(
    child: BvhChild,
    st: Closest,
    box_hit: spec_fn(Aabb, i64, i64) -> bool,
    leaf_hit: spec_fn(Object, i64, i64) -> Option<i64>,
)
    requires
        child.wf(),
        sound_boxes(box_hit, leaf_hit),
    ensures
        child.spec_hit(st, box_hit, leaf_hit) == spec_scan(child.leaves(), st, leaf_hit),
    decreases child,
{
    match child {
        BvhChild::Leaf(o) => {
            assert(seq![o].drop_last() =~= Seq::<Object>::empty());
            assert(spec_scan(seq![o].drop_last(), st, leaf_hit) == st);
        },
        BvhChild::Node(n) => {
            lemma_node_hit_is_scan(*n, st, box_hit, leaf_hit);
        },
    }
}

/// With boxes that hide no hit, walking the tree from a node gives exactly
/// what testing the objects below it from left to right gives.
pub proof fn lemma_node_hit_is_scan(
    node: BvhNode,
    st: Closest,
    box_hit: spec_fn(Aabb, i64, i64) -> bool,
    leaf_hit: spec_fn(Object, i64, i64) -> Option<i64>,
)
    requires
        node.wf(),
        sound_boxes(box_hit, leaf_hit),
    ensures
        node.spec_hit(st, box_hit, leaf_hit) == spec_scan(node.leaves(), st, leaf_hit),
    decreases node,
{
    if node.box_0 is Some && !box_hit(node.box_0.unwrap(), st.t_min, st.closest_so_far) {
        lemma_node_encloses_leaves(node);
        let s = node.leaves();
        assert forall|i: int| 0 <= i < s.len() implies leaf_hit(
            #[trigger] s[i],
            st.t_min,
            st.closest_so_far,
        ) is None by {
            if leaf_hit(s[i], st.t_min, st.closest_so_far) is Some {
                assert(box_hit(node.box_0.unwrap(), st.t_min, st.closest_so_far));
            }
        }
        lemma_scan_all_missed(s, st, leaf_hit);
    } else {
        lemma_child_hit_is_scan(node.left, st, box_hit, leaf_hit);
        let s1 = node.left.spec_hit(st, box_hit, leaf_hit);
        match node.right {
            Some(r) => {
                lemma_child_hit_is_scan(r, s1, box_hit, leaf_hit);
                lemma_scan_concat(node.left.leaves(), r.leaves(), st, leaf_hit);
            },
            None => {},
        }
    }
}

/// The hierarchy finds what a scan of the plain list finds. Where the tree
/// is well formed and holds the objects of `list`, objects report first
/// hits and boxes hide no hit, a query of the tree and a scan of the list
/// agree on whether the ray hits anything between `t_min` and `t_max`, and
/// on the ray parameter of the closest hit.
pub proof fn lemma_hierarchy_agrees_with_list(
    root: BvhNode,
    list: Seq<Object>,
    t_min: i64,
    t_max: i64,
    box_hit: spec_fn(Aabb, i64, i64) -> bool,
    leaf_hit: spec_fn(Object, i64, i64) -> Option<i64>,
)
    requires
        root.wf(),
        root.leaves().to_multiset() == list.to_multiset(),
        first_hits(leaf_hit),
        sound_boxes(box_hit, leaf_hit),
    ensures
        ({
            let start = Closest { t_min, closest_so_far: t_max, rec: None };
            let by_tree = root.spec_hit(start, box_hit, leaf_hit);
            let by_list = spec_scan(list, start, leaf_hit);
            &&& by_tree.rec is Some <==> by_list.rec is Some
            &&& by_tree.closest_so_far == by_list.closest_so_far
            &&& by_tree.rec matches Some(h) ==> by_list.rec.unwrap().t == h.t
            &&& is_nearest(list, t_min, t_max, leaf_hit, by_list)
        }),
{
    let start = Closest { t_min, closest_so_far: t_max, rec: None };
    lemma_node_hit_is_scan(root, start, box_hit, leaf_hit);
    lemma_scan_finds_nearest(root.leaves(), t_min, t_max, leaf_hit);
    lemma_scan_finds_nearest(list, t_min, t_max, leaf_hit);
    lemma_nearest_of_rearranged(
        root.leaves(),
        list,
        t_min,
        t_max,
        leaf_hit,
        spec_scan(root.leaves(), start, leaf_hit),
        spec_scan(list, start, leaf_hit),
    );
}

/// A query of the hierarchy and a query of the plain list, each run to its
/// end, agree: under the conditions of `lemma_hierarchy_agrees_with_list`
/// both find a hit or neither does, and the closest hit has the same ray
/// parameter in both.
pub proof fn lemma_queries_agree(
    root: &BvhNode,
    scan: ListScan,
    t_min: i64,
    t_max: i64,
    box_hit: spec_fn(Aabb, i64, i64) -> bool,
    leaf_hit: spec_fn(Object, i64, i64) -> Option<i64>,
)
    requires
        root.wf(),
        root.leaves().to_multiset() == scan.objects@.to_multiset(),
        scan.next == 0,
        scan.best == (Closest { t_min, closest_so_far: t_max, rec: None }),
        first_hits(leaf_hit),
        sound_boxes(box_hit, leaf_hit),
    ensures
        ({
            let by_tree = (TraversalState {
                stack: seq![Pending::Node(root)],
                best: Closest { t_min, closest_so_far: t_max, rec: None },
            }).spec_run(box_hit, leaf_hit);
            let by_list = scan.spec_run(leaf_hit);
            &&& by_tree.rec is Some <==> by_list.rec is Some
            &&& by_tree.closest_so_far == by_list.closest_so_far
            &&& by_tree.rec matches Some(h) ==> by_list.rec.unwrap().t == h.t
        }),
{
    let start = Closest { t_min, closest_so_far: t_max, rec: None };
    lemma_query_walks_tree(root, t_min, t_max, box_hit, leaf_hit);
    assert(scan.objects@.take(0) =~= Seq::<Object>::empty());
    lemma_list_run_is_scan(scan, start, leaf_hit);
    lemma_hierarchy_agrees_with_list(*root, scan.objects@, t_min, t_max, box_hit, leaf_hit);
}

impl<'a> TraversalState<'a> {
    /// The number of questions that the query still asks when every
    /// question is answered as `box_hit` and `leaf_hit` say.
    pub open spec fn spec_questions(
        self,
        box_hit: spec_fn(Aabb, i64, i64) -> bool,
        leaf_hit: spec_fn(Object, i64, i64) -> Option<i64>,
    ) -> nat
        decreases stack_size(self.stack),
    {
        if self.stack.len() == 0 {
            0
        } else {
            proof {
                lemma_step_shrinks(self, self.spec_answer(box_hit, leaf_hit));
            }
            1 + self.spec_step(self.spec_answer(box_hit, leaf_hit)).spec_questions(
                box_hit,
                leaf_hit,
            )
        }
    }
}

/// A query asks at most one question for each node and each object that
/// its stack still holds, whatever the answers are.
pub proof fn lemma_questions_are_bounded(
    st: TraversalState,
    box_hit: spec_fn(Aabb, i64, i64) -> bool,
    leaf_hit: spec_fn(Object, i64, i64) -> Option<i64>,
)
    ensures
        st.spec_questions(box_hit, leaf_hit) <= stack_size(st.stack),
    decreases stack_size(st.stack),
{
    if st.stack.len() > 0 {
        let answer = st.spec_answer(box_hit, leaf_hit);
        lemma_step_shrinks(st, answer);
        lemma_questions_are_bounded(st.spec_step(answer), box_hit, leaf_hit);
    }
}

/// A hierarchy that is split at the median has fewer than three nodes and
/// objects, taken together, for each object.
pub proof fn lemma_median_split_size(node: BvhNode)
    requires
        node.median_split(),
    ensures
        node.size() <= 3 * node.leaves().len() - 1,
        node.leaves().len() >= 1,
    decreases node,
{
    match node.right {
        None => {},
        Some(r) => match (node.left, r) {
            (BvhChild::Node(a), BvhChild::Node(b)) => {
                lemma_median_split_size(*a);
                lemma_median_split_size(*b);
            },
            _ => {},
        },
    }
}

} // verus!
